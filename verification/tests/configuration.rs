use substruct_genesis::derive_updatable_struct;
use substruct_genesis::AttrDecl;
use substruct_genesis::Companion;
use substruct_genesis::CompanionField;
use substruct_genesis::FieldDecl;
use substruct_genesis::FieldState;
use substruct_genesis::MetaItem;
use substruct_genesis::TypeDesc;
use substruct_genesis::Value;

fn s(x: &str) -> String {
    x.to_string()
}

fn prim() -> Vec<AttrDecl> {
    vec![AttrDecl {
        key: s("substruct_field"),
        args: Some(vec![MetaItem::Marker(s("primitive"))]),
    }]
}

fn prim_wrap(wrap: bool) -> Vec<AttrDecl> {
    vec![AttrDecl {
        key: s("substruct_field"),
        args: Some(vec![
            MetaItem::Marker(s("primitive")),
            MetaItem::BoolArg { key: s("wrap"), value: wrap },
        ]),
    }]
}

fn cfield(name: &str, state: FieldState) -> CompanionField {
    CompanionField { name: s(name), state }
}

fn wtext(v: &str) -> FieldState {
    FieldState::Wrapped(Some(Value::TextV(s(v))))
}

#[test]
fn configuration_test_debug_wrap() {
    let update = Companion::new(vec![
        cfield("name", wtext("test")),
        cfield("value", FieldState::Wrapped(Some(Value::IntV(42)))),
    ]);

    // Debug formatting works with wrapped fields
    let debug_output = format!("{:?}", update);
    assert!(debug_output.contains("test"));
    assert!(debug_output.contains("42"));
}

#[test]
fn configuration_test_simple_nested() {
    let details_update = Companion::new(vec![cfield(
        "description",
        wtext("A simple description"),
    )]);

    let nested_update = Companion::new(vec![
        cfield("name", wtext("Test Struct")),
        cfield("details", FieldState::NestedSub(Some(details_update))),
    ]);

    assert_eq!(nested_update.state_of("name"), Some(&wtext("Test Struct")));
    assert!(nested_update.has_field("details"));

    if let Some(FieldState::NestedSub(Some(details))) = nested_update.state_of("details") {
        assert_eq!(details.state_of("description"), Some(&wtext("A simple description")));
    } else {
        panic!("details update is present");
    }
}

#[test]
fn configuration_test_struct_level_names() {
    let attrs = vec![AttrDecl {
        key: s("substruct_builder"),
        args: Some(vec![MetaItem::TextArg { key: s("name"), value: s("CustomNameBuilder") }]),
    }];
    let fields = vec![FieldDecl { name: Some(s("field")), ty: TypeDesc::TextDesc, attrs: prim() }];
    let decl = derive_updatable_struct(&s("CustomNamedStruct"), &attrs, &fields).unwrap();
    assert_eq!(decl.name, s("CustomNameBuilder"));

    let update = Companion::new(vec![cfield("field", wtext("test"))]);

    assert_eq!(update.state_of("field"), Some(&wtext("test")));
}

#[test]
fn configuration_test_wrap_attribute_parsing() {
    let fields = vec![
        FieldDecl {
            name: Some(s("required_field")),
            ty: TypeDesc::IntDesc { name: s("u32") },
            attrs: prim_wrap(false),
        },
        FieldDecl { name: Some(s("optional_field")), ty: TypeDesc::TextDesc, attrs: prim() },
    ];
    let decl = derive_updatable_struct(&s("WrapAttributeStruct"), &vec![], &fields).unwrap();
    assert_eq!(decl.fields.len(), 2);

    let update = Companion::new(vec![
        cfield("required_field", FieldState::Unwrapped(Value::IntV(42))),
        cfield("optional_field", wtext("optional")),
    ]);

    assert_eq!(update.state_of("required_field"), Some(&FieldState::Unwrapped(Value::IntV(42))));
    assert_eq!(update.state_of("optional_field"), Some(&wtext("optional")));
}
