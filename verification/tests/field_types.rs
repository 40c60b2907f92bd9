use substruct_genesis::derive_updatable_struct;
use substruct_genesis::value_dup;
use substruct_genesis::AttrDecl;
use substruct_genesis::Companion;
use substruct_genesis::CompanionDecl;
use substruct_genesis::CompanionField;
use substruct_genesis::FieldDecl;
use substruct_genesis::FieldState;
use substruct_genesis::FieldVal;
use substruct_genesis::JsonEntry;
use substruct_genesis::JsonVal;
use substruct_genesis::MetaItem;
use substruct_genesis::TypeDesc;
use substruct_genesis::Value;

fn s(x: &str) -> String {
    x.to_string()
}

fn prim() -> Vec<AttrDecl> {
    vec![AttrDecl {
        key: s("substruct_field"),
        args: Some(vec![MetaItem::Marker(s("primitive"))]),
    }]
}

fn nested() -> Vec<AttrDecl> {
    vec![AttrDecl { key: s("substruct_field"), args: Some(vec![MetaItem::Marker(s("nested"))]) }]
}

fn json() -> Vec<AttrDecl> {
    vec![AttrDecl { key: s("substruct_field"), args: Some(vec![MetaItem::Marker(s("json"))]) }]
}

fn cfield(name: &str, state: FieldState) -> CompanionField {
    CompanionField { name: s(name), state }
}

fn wtext(v: &str) -> FieldState {
    FieldState::Wrapped(Some(Value::TextV(s(v))))
}

fn absent() -> FieldState {
    FieldState::Wrapped(None)
}

fn field(name: &str, value: Value) -> FieldVal {
    FieldVal { name: s(name), value }
}

fn get<'a>(rec: &'a Value, name: &str) -> &'a Value {
    match rec {
        Value::RecordV(fs) => &fs.iter().find(|f| f.name == name).unwrap().value,
        _ => panic!("not a record"),
    }
}

/// `PrimitiveStruct` with string, int, float, bool, unwrapped-by-wrapping
/// and optional fields, all annotated as plain wrapped fields.
fn primitive_struct_decl() -> CompanionDecl {
    let fields = vec![
        FieldDecl { name: Some(s("string_field")), ty: TypeDesc::TextDesc, attrs: prim() },
        FieldDecl { name: Some(s("int_field")), ty: TypeDesc::IntDesc { name: s("i32") }, attrs: prim() },
        FieldDecl { name: Some(s("float_field")), ty: TypeDesc::FloatDesc { name: s("f64") }, attrs: prim() },
        FieldDecl { name: Some(s("bool_field")), ty: TypeDesc::BoolDesc, attrs: prim() },
        FieldDecl { name: Some(s("unwrapped_field")), ty: TypeDesc::IntDesc { name: s("u32") }, attrs: prim() },
        FieldDecl {
            name: Some(s("option_int")),
            ty: TypeDesc::OptionDesc(Box::new(TypeDesc::IntDesc { name: s("i32") })),
            attrs: prim(),
        },
    ];
    derive_updatable_struct(&s("PrimitiveStruct"), &vec![], &fields).unwrap()
}

#[test]
fn field_types_test_primitive_struct_empty_update() {
    let empty_update = Companion::default_companion(&primitive_struct_decl()).unwrap();

    assert!(empty_update.is_empty());
}

fn preferences_value(theme: &str, language: &str) -> Value {
    Value::RecordV(vec![
        field("theme", Value::TextV(s(theme))),
        field("language", Value::TextV(s(language))),
    ])
}

fn preferences_json(theme: &str, language: &str) -> JsonVal {
    JsonVal::JObj(vec![
        JsonEntry { key: s("theme"), value: JsonVal::JText(s(theme)) },
        JsonEntry { key: s("language"), value: JsonVal::JText(s(language)) },
    ])
}

#[test]
fn field_types_test_json_field() {
    let update = Companion::new(vec![
        cfield("name", wtext("John")),
        cfield("preferences", FieldState::Payload(Some(preferences_json("dark", "en")))),
    ]);

    assert_eq!(update.state_of("name"), Some(&wtext("John")));
    assert!(update.has_field("preferences"));
}

#[test]
fn field_types_test_primitive_field() {
    let update = Companion::new(vec![
        cfield("name", wtext("Alice")),
        cfield("preferences", FieldState::Payload(None)),
    ]);

    assert_eq!(update.state_of("name"), Some(&wtext("Alice")));
    assert_eq!(update.state_of("preferences"), Some(&FieldState::Payload(None)));
}

#[test]
fn field_types_test_json_struct_has_preferences_field() {
    let fields = vec![
        FieldDecl { name: Some(s("name")), ty: TypeDesc::TextDesc, attrs: prim() },
        FieldDecl {
            name: Some(s("preferences")),
            ty: TypeDesc::RecordDesc { name: s("UserPreferences") },
            attrs: json(),
        },
    ];
    let decl = derive_updatable_struct(&s("JsonStruct"), &vec![], &fields).unwrap();
    let update = Companion::default_companion(&decl).unwrap();

    // The preferences field exists and carries a structured payload.
    assert_eq!(update.state_of("preferences"), Some(&FieldState::Payload(None)));
}

fn nested_struct_decl() -> CompanionDecl {
    let fields = vec![
        FieldDecl { name: Some(s("name")), ty: TypeDesc::TextDesc, attrs: prim() },
        FieldDecl {
            name: Some(s("address")),
            ty: TypeDesc::RecordDesc { name: s("Address") },
            attrs: nested(),
        },
    ];
    derive_updatable_struct(&s("NestedStruct"), &vec![], &fields).unwrap()
}

fn address_value(street: &str, city: &str) -> Value {
    Value::RecordV(vec![
        field("street", Value::TextV(s(street))),
        field("city", Value::TextV(s(city))),
    ])
}

fn address_update(street: &str, city: &str) -> Companion {
    Companion::new(vec![cfield("street", wtext(street)), cfield("city", wtext(city))])
}

#[test]
fn test_nested_struct_derivation() {
    let decl = nested_struct_decl();
    assert_eq!(decl.name, s("NestedStructSubstruct"));

    let nested_update = Companion::new(vec![
        cfield("name", wtext("John")),
        cfield("address", FieldState::NestedSub(Some(address_update("123 Main St", "Main City")))),
    ]);

    assert_eq!(nested_update.state_of("name"), Some(&wtext("John")));
    assert!(nested_update.has_field("address"));

    if let Some(FieldState::NestedSub(Some(address))) = nested_update.state_of("address") {
        assert_eq!(address.state_of("street"), Some(&wtext("123 Main St")));
        assert_eq!(address.state_of("city"), Some(&wtext("Main City")));
    } else {
        panic!("address update is present");
    }
}

#[test]
fn test_nested_struct_from_source() {
    let source_nested = Value::RecordV(vec![
        field("name", Value::TextV(s("Alice"))),
        field("address", address_value("123 St", "City")),
    ]);

    let update = Companion::from_source(&nested_struct_decl(), &source_nested);

    assert_eq!(update.state_of("name"), Some(&absent()));
    assert_eq!(update.state_of("address"), Some(&FieldState::NestedSub(None)));
}

#[test]
fn test_nested_struct_apply_to() {
    let mut target = Value::RecordV(vec![
        field("name", Value::TextV(s("Alice"))),
        field("address", address_value("Old Street", "Old City")),
    ]);

    // An update that changes both the name and the nested address
    let update = Companion::new(vec![
        cfield("name", wtext("Bob")),
        cfield("address", FieldState::NestedSub(Some(address_update("123 New St", "New City")))),
    ]);

    update.apply_to(&mut target).unwrap();

    assert_eq!(get(&target, "name"), &Value::TextV(s("Bob")));
    assert_eq!(get(get(&target, "address"), "street"), &Value::TextV(s("123 New St")));
    assert_eq!(get(get(&target, "address"), "city"), &Value::TextV(s("New City")));
}

#[test]
fn test_nested_struct_would_change() {
    let target = Value::RecordV(vec![
        field("name", Value::TextV(s("Alice"))),
        field("address", address_value("Old Street", "Old City")),
    ]);

    // An update that would change the target
    let update = Companion::new(vec![
        cfield("name", wtext("Bob")),
        cfield("address", FieldState::NestedSub(Some(address_update("123 New St", "New City")))),
    ]);

    assert!(update.would_change(&target));

    // An update that would not change the target
    let no_change_update = Companion::new(vec![
        cfield("name", wtext("Alice")),
        cfield("address", FieldState::NestedSub(Some(address_update("Old Street", "Old City")))),
    ]);

    assert!(!no_change_update.would_change(&target));
}

#[test]
fn field_types_payload_apply_decodes_snapshot() {
    // A payload update decodes into the target field's shape.
    let update = Companion::new(vec![
        cfield("name", absent()),
        cfield("preferences", FieldState::Payload(Some(preferences_json("dark", "en")))),
    ]);

    let mut target = Value::RecordV(vec![
        field("name", Value::TextV(s("John"))),
        field("preferences", preferences_value("light", "fr")),
    ]);
    update.apply_to(&mut target).unwrap();

    assert_eq!(get(&target, "preferences"), &preferences_value("dark", "en"));
    assert_eq!(get(&target, "name"), &Value::TextV(s("John")));
}

#[test]
fn field_types_payload_decode_failure_is_reported() {
    // A payload whose shape does not match the target field fails, and
    // the target is left unchanged.
    let update = Companion::new(vec![
        cfield("name", absent()),
        cfield("preferences", FieldState::Payload(Some(JsonVal::JInt(7)))),
    ]);

    let target_before = Value::RecordV(vec![
        field("name", Value::TextV(s("John"))),
        field("preferences", preferences_value("light", "fr")),
    ]);
    let mut target = value_dup(&target_before);
    let r = update.apply_to(&mut target);

    assert_eq!(r, Err(substruct_genesis::UpdateError::PayloadDecode));
    assert_eq!(target, target_before);
}
