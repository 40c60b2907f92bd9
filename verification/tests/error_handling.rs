use substruct_genesis::derive_updatable_struct;
use substruct_genesis::AttrDecl;
use substruct_genesis::Companion;
use substruct_genesis::CompanionField;
use substruct_genesis::FieldDecl;
use substruct_genesis::FieldState;
use substruct_genesis::GenError;
use substruct_genesis::JsonEntry;
use substruct_genesis::JsonVal;
use substruct_genesis::MetaItem;
use substruct_genesis::TypeDesc;
use substruct_genesis::Value;

fn s(x: &str) -> String {
    x.to_string()
}

fn prim() -> Vec<AttrDecl> {
    vec![AttrDecl {
        key: s("substruct_field"),
        args: Some(vec![MetaItem::Marker(s("primitive"))]),
    }]
}

fn nested_named(name: &str) -> Vec<AttrDecl> {
    vec![AttrDecl {
        key: s("substruct_field"),
        args: Some(vec![
            MetaItem::Marker(s("nested")),
            MetaItem::TextArg { key: s("nested_type"), value: s(name) },
        ]),
    }]
}

fn nested() -> Vec<AttrDecl> {
    vec![AttrDecl { key: s("substruct_field"), args: Some(vec![MetaItem::Marker(s("nested"))]) }]
}

fn json() -> Vec<AttrDecl> {
    vec![AttrDecl { key: s("substruct_field"), args: Some(vec![MetaItem::Marker(s("json"))]) }]
}

fn builder_name(n: &str) -> Vec<AttrDecl> {
    vec![AttrDecl {
        key: s("substruct_builder"),
        args: Some(vec![MetaItem::TextArg { key: s("name"), value: s(n) }]),
    }]
}

fn cfield(name: &str, state: FieldState) -> CompanionField {
    CompanionField { name: s(name), state }
}

fn wtext(v: &str) -> FieldState {
    FieldState::Wrapped(Some(Value::TextV(s(v))))
}

#[test]
fn test_valid_struct_compiles() {
    let fields = vec![FieldDecl { name: Some(s("field")), ty: TypeDesc::TextDesc, attrs: prim() }];
    assert!(derive_updatable_struct(&s("ValidStruct"), &vec![], &fields).is_ok());

    let update = Companion::new(vec![cfield("field", wtext("test"))]);
    assert_eq!(update.state_of("field"), Some(&wtext("test")));
}

#[test]
fn test_complex_nesting_validation() {
    let company_fields = vec![
        FieldDecl { name: Some(s("name")), ty: TypeDesc::TextDesc, attrs: prim() },
        FieldDecl {
            name: Some(s("ceo")),
            ty: TypeDesc::RecordDesc { name: s("Person") },
            attrs: nested(),
        },
        FieldDecl {
            name: Some(s("address")),
            ty: TypeDesc::RecordDesc { name: s("Address") },
            attrs: nested_named("AddressBuilder"),
        },
    ];
    let company_decl = derive_updatable_struct(
        &s("Company"),
        &builder_name("CompanyBuilder"),
        &company_fields,
    )
    .unwrap();
    assert_eq!(company_decl.name, s("CompanyBuilder"));

    let address = Companion::new(vec![
        cfield("street", wtext("123 Main St")),
        cfield("city", wtext("Main City")),
    ]);
    let address_again = Companion::new(vec![
        cfield("street", wtext("123 Main St")),
        cfield("city", wtext("Main City")),
    ]);

    let person = Companion::new(vec![
        cfield("name", wtext("CEO Name")),
        cfield("address", FieldState::NestedSub(Some(address))),
    ]);

    let company = Companion::new(vec![
        cfield("name", wtext("Company Name")),
        cfield("ceo", FieldState::NestedSub(Some(person))),
        cfield("address", FieldState::NestedSub(Some(address_again))),
    ]);

    assert_eq!(company.state_of("name"), Some(&wtext("Company Name")));
    assert!(company.has_field("ceo"));
    assert!(company.has_field("address"));

    if let Some(FieldState::NestedSub(Some(ceo))) = company.state_of("ceo") {
        assert_eq!(ceo.state_of("name"), Some(&wtext("CEO Name")));
        assert!(ceo.has_field("address"));
    } else {
        panic!("ceo update is present");
    }
}

#[test]
fn test_single_field_validation() {
    let fields = vec![FieldDecl { name: Some(s("field")), ty: TypeDesc::TextDesc, attrs: prim() }];
    assert!(derive_updatable_struct(&s("SingleFieldStruct"), &vec![], &fields).is_ok());

    let update = Companion::new(vec![cfield("field", wtext("test"))]);
    assert_eq!(update.state_of("field"), Some(&wtext("test")));
}

#[test]
fn test_attribute_combinations() {
    let fields = vec![
        FieldDecl { name: Some(s("basic_field")), ty: TypeDesc::TextDesc, attrs: prim() },
        FieldDecl {
            name: Some(s("unwrapped_field")),
            ty: TypeDesc::IntDesc { name: s("u32") },
            attrs: prim(),
        },
        FieldDecl {
            name: Some(s("custom_nested")),
            ty: TypeDesc::RecordDesc { name: s("CustomNestedStruct") },
            attrs: nested_named("CustomNestedBuilder"),
        },
        FieldDecl { name: Some(s("json_field")), ty: TypeDesc::JsonDesc, attrs: prim() },
    ];
    let decl = derive_updatable_struct(&s("AttributeCombinationStruct"), &vec![], &fields).unwrap();
    assert_eq!(decl.fields.len(), 4);

    let nested_update = Companion::new(vec![cfield("nested_field", wtext("nested value"))]);

    let update = Companion::new(vec![
        cfield("basic_field", wtext("basic value")),
        cfield("unwrapped_field", FieldState::Wrapped(Some(Value::IntV(42)))),
        cfield("custom_nested", FieldState::NestedSub(Some(nested_update))),
        cfield(
            "json_field",
            FieldState::Wrapped(Some(Value::JsonV(JsonVal::JObj(vec![JsonEntry {
                key: s("key"),
                value: JsonVal::JText(s("value")),
            }])))),
        ),
    ]);

    assert_eq!(update.state_of("basic_field"), Some(&wtext("basic value")));
    assert_eq!(
        update.state_of("unwrapped_field"),
        Some(&FieldState::Wrapped(Some(Value::IntV(42)))),
    );
    assert!(update.has_field("custom_nested"));
    assert!(update.has_field("json_field"));
}

#[test]
fn misused_payload_annotation_is_rejected() {
    // A structured-payload annotation on a field that is already the
    // generic structured-data value type is a misuse.
    let fields = vec![
        FieldDecl { name: Some(s("name")), ty: TypeDesc::TextDesc, attrs: prim() },
        FieldDecl { name: Some(s("data")), ty: TypeDesc::JsonDesc, attrs: json() },
    ];
    let r = derive_updatable_struct(&s("Misused"), &vec![], &fields);
    assert_eq!(r.unwrap_err(), GenError::MisusedPayloadAnnotation { field: s("data") });
}

#[test]
fn unnameable_nested_field_is_rejected() {
    // A nested annotation needs a nameable record type.
    let fields = vec![
        FieldDecl { name: Some(s("name")), ty: TypeDesc::TextDesc, attrs: prim() },
        FieldDecl { name: Some(s("pair")), ty: TypeDesc::OtherDesc, attrs: nested() },
    ];
    let r = derive_updatable_struct(&s("Tupled"), &vec![], &fields);
    assert_eq!(r.unwrap_err(), GenError::UnsupportedNestedFieldType { field: s("pair") });
}

#[test]
fn no_updatable_fields_is_rejected() {
    // A declaration in which every field is skipped or untagged fails.
    let skip_attr = vec![AttrDecl {
        key: s("substruct_field"),
        args: Some(vec![MetaItem::Marker(s("skip"))]),
    }];
    let fields = vec![
        FieldDecl { name: Some(s("kept_out")), ty: TypeDesc::TextDesc, attrs: skip_attr },
        FieldDecl { name: Some(s("untagged")), ty: TypeDesc::BoolDesc, attrs: vec![] },
    ];
    let r = derive_updatable_struct(&s("NothingRetained"), &vec![], &fields);
    assert_eq!(r.unwrap_err(), GenError::NoUpdatableFields { source: s("NothingRetained") });
}
