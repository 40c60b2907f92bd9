use substruct_genesis::derive_updatable_struct;
use substruct_genesis::AttrDecl;
use substruct_genesis::Companion;
use substruct_genesis::CompanionDecl;
use substruct_genesis::CompanionField;
use substruct_genesis::FieldDecl;
use substruct_genesis::FieldState;
use substruct_genesis::FieldVal;
use substruct_genesis::MetaItem;
use substruct_genesis::TypeDesc;
use substruct_genesis::Value;

fn s(x: &str) -> String {
    x.to_string()
}

fn prim() -> Vec<AttrDecl> {
    vec![AttrDecl {
        key: s("substruct_field"),
        args: Some(vec![MetaItem::Marker(s("primitive"))]),
    }]
}

fn field(name: &str, value: Value) -> FieldVal {
    FieldVal { name: s(name), value }
}

fn cfield(name: &str, state: FieldState) -> CompanionField {
    CompanionField { name: s(name), state }
}

fn wrapped(v: Value) -> FieldState {
    FieldState::Wrapped(Some(v))
}

fn absent() -> FieldState {
    FieldState::Wrapped(None)
}

/// `BasicStruct { name: String (primitive), age: u32, active: bool (primitive) }`
fn basic_struct_decl() -> CompanionDecl {
    let fields = vec![
        FieldDecl { name: Some(s("name")), ty: TypeDesc::TextDesc, attrs: prim() },
        FieldDecl { name: Some(s("age")), ty: TypeDesc::IntDesc { name: s("u32") }, attrs: vec![] },
        FieldDecl { name: Some(s("active")), ty: TypeDesc::BoolDesc, attrs: prim() },
    ];
    derive_updatable_struct(&s("BasicStruct"), &vec![], &fields).unwrap()
}

fn basic_update(name: Option<&str>, active: Option<bool>) -> Companion {
    Companion::new(vec![
        cfield(
            "name",
            match name {
                Some(n) => wrapped(Value::TextV(s(n))),
                None => absent(),
            },
        ),
        cfield(
            "active",
            match active {
                Some(b) => wrapped(Value::BoolV(b)),
                None => absent(),
            },
        ),
    ])
}

fn basic_source(name: &str, age: i128, active: bool) -> Value {
    Value::RecordV(vec![
        field("name", Value::TextV(s(name))),
        field("age", Value::IntV(age)),
        field("active", Value::BoolV(active)),
    ])
}

#[test]
fn test_basic_struct_derivation() {
    // Only name and active are fields of the companion (age has no attribute)
    let decl = basic_struct_decl();
    assert_eq!(decl.fields.len(), 2);
    let update = basic_update(Some("John"), Some(true));

    assert_eq!(update.state_of("name"), Some(&wrapped(Value::TextV(s("John")))));
    assert_eq!(update.state_of("active"), Some(&wrapped(Value::BoolV(true))));
}

#[test]
fn test_basic_struct_default() {
    let decl = basic_struct_decl();
    let update = Companion::default_companion(&decl).unwrap();

    // No age field in the companion
    assert_eq!(update.state_of("age"), None);
    assert_eq!(update.state_of("active"), Some(&absent()));
}

#[test]
fn test_basic_struct_from_source() {
    let decl = basic_struct_decl();
    let source = basic_source("Alice", 30, false);

    let update = Companion::from_source(&decl, &source);

    // No age field in the companion
    assert_eq!(update.state_of("age"), None);
    assert_eq!(update.state_of("active"), Some(&absent()));
}

#[test]
fn test_basic_struct_is_empty() {
    let decl = basic_struct_decl();
    let empty_update = Companion::default_companion(&decl).unwrap();
    assert!(empty_update.is_empty());

    let partial_update = basic_update(None, None);
    assert!(partial_update.is_empty());

    let full_update = basic_update(Some("Test"), Some(true));
    assert!(!full_update.is_empty());
}

#[test]
fn test_basic_struct_from_owned() {
    let decl = basic_struct_decl();
    let source = basic_source("Alice", 30, false);

    let update = Companion::from_owned(&decl, source);

    // No age field in the companion
    assert_eq!(update.state_of("age"), None);
    assert_eq!(update.state_of("active"), Some(&absent()));
}

#[test]
fn test_basic_struct_field_count() {
    let decl = basic_struct_decl();
    let empty_update = Companion::default_companion(&decl).unwrap();
    assert_eq!(empty_update.field_count(), 0);

    let partial_update = basic_update(Some("Test"), None);
    assert_eq!(partial_update.field_count(), 1);

    let full_update = basic_update(Some("Test"), Some(true));
    assert_eq!(full_update.field_count(), 2);
}

#[test]
fn test_basic_struct_clear() {
    let mut update = basic_update(Some("Test"), Some(true));
    assert_eq!(update.field_count(), 2);

    update.clear();
    assert_eq!(update.field_count(), 0);
    assert!(update.is_empty());
}

#[test]
fn test_basic_struct_apply_to() {
    let mut user = basic_source("Alice", 25, false);

    let update = basic_update(Some("Bob"), Some(true));

    update.apply_to(&mut user).unwrap();

    match &user {
        Value::RecordV(fs) => {
            assert_eq!(fs[0].value, Value::TextV(s("Bob")));
            assert_eq!(fs[2].value, Value::BoolV(true));
        },
        _ => panic!("target is a record"),
    }
}

#[test]
fn test_basic_struct_would_change() {
    let user = basic_source("Alice", 25, false);

    let update = basic_update(Some("Bob"), Some(true));

    assert!(update.would_change(&user));

    let no_change_update = basic_update(Some("Alice"), Some(false));

    assert!(!no_change_update.would_change(&user));
}

#[test]
fn test_basic_struct_merge() {
    let update1 = basic_update(Some("Alice"), None);

    let update2 = basic_update(None, Some(true));

    let merged = update1.merge(update2);

    assert_eq!(merged.state_of("name"), Some(&wrapped(Value::TextV(s("Alice")))));
    assert_eq!(merged.state_of("active"), Some(&wrapped(Value::BoolV(true))));
}

#[test]
fn test_basic_struct_has_field() {
    let update = basic_update(Some("Alice"), None);

    assert!(update.has_field("name"));
    assert!(!update.has_field("active"));
}
