use substruct_genesis::derive_updatable_struct;
use substruct_genesis::AttrDecl;
use substruct_genesis::Companion;
use substruct_genesis::CompanionDecl;
use substruct_genesis::CompanionField;
use substruct_genesis::FieldDecl;
use substruct_genesis::FieldState;
use substruct_genesis::GenError;
use substruct_genesis::MetaItem;
use substruct_genesis::TypeDesc;
use substruct_genesis::Value;

fn s(x: &str) -> String {
    x.to_string()
}

fn prim() -> Vec<AttrDecl> {
    vec![AttrDecl {
        key: s("substruct_field"),
        args: Some(vec![MetaItem::Marker(s("primitive"))]),
    }]
}

fn nested() -> Vec<AttrDecl> {
    vec![AttrDecl { key: s("substruct_field"), args: Some(vec![MetaItem::Marker(s("nested"))]) }]
}

fn nested_named(name: &str) -> Vec<AttrDecl> {
    vec![AttrDecl {
        key: s("substruct_field"),
        args: Some(vec![
            MetaItem::Marker(s("nested")),
            MetaItem::TextArg { key: s("nested_type"), value: s(name) },
        ]),
    }]
}

fn cfield(name: &str, state: FieldState) -> CompanionField {
    CompanionField { name: s(name), state }
}

fn wtext(v: &str) -> FieldState {
    FieldState::Wrapped(Some(Value::TextV(s(v))))
}

fn wint(v: i128) -> FieldState {
    FieldState::Wrapped(Some(Value::IntV(v)))
}

fn absent() -> FieldState {
    FieldState::Wrapped(None)
}

/// `Person { name, age (primitive), address: Address (nested, "AddressBuilder") }`
fn person_decl() -> CompanionDecl {
    let fields = vec![
        FieldDecl { name: Some(s("name")), ty: TypeDesc::TextDesc, attrs: prim() },
        FieldDecl { name: Some(s("age")), ty: TypeDesc::IntDesc { name: s("u32") }, attrs: prim() },
        FieldDecl {
            name: Some(s("address")),
            ty: TypeDesc::RecordDesc { name: s("Address") },
            attrs: nested_named("AddressBuilder"),
        },
    ];
    derive_updatable_struct(&s("Person"), &vec![], &fields).unwrap()
}

fn address_update(street: Option<&str>, city: Option<&str>, zip: Option<&str>) -> Companion {
    let of = |o: Option<&str>| match o {
        Some(v) => wtext(v),
        None => absent(),
    };
    Companion::new(vec![
        cfield("street", of(street)),
        cfield("city", of(city)),
        cfield("zip", of(zip)),
    ])
}

fn person_update(name: Option<&str>, age: Option<i128>, address: Option<Companion>) -> Companion {
    Companion::new(vec![
        cfield(
            "name",
            match name {
                Some(v) => wtext(v),
                None => absent(),
            },
        ),
        cfield(
            "age",
            match age {
                Some(v) => wint(v),
                None => absent(),
            },
        ),
        cfield("address", FieldState::NestedSub(address)),
    ])
}

#[test]
fn complex_scenarios_test_custom_type_derivation() {
    let address_update = address_update(Some("123 Main St"), Some("Main City"), Some("12345"));

    let person_update = person_update(Some("John"), Some(30), Some(address_update));

    assert_eq!(person_update.state_of("name"), Some(&wtext("John")));
    assert_eq!(person_update.state_of("age"), Some(&wint(30)));
    assert!(person_update.has_field("address"));

    if let Some(FieldState::NestedSub(Some(address))) = person_update.state_of("address") {
        assert_eq!(address.state_of("street"), Some(&wtext("123 Main St")));
        assert_eq!(address.state_of("city"), Some(&wtext("Main City")));
        assert_eq!(address.state_of("zip"), Some(&wtext("12345")));
    } else {
        panic!("address update is present");
    }
}

#[test]
fn test_nested_custom_types() {
    // Deep nesting with company -> person -> address
    let address = address_update(Some("456 New St"), Some("New City"), None);
    let address_again = address_update(Some("456 New St"), Some("New City"), None);

    let person = person_update(Some("New CEO"), Some(50), Some(address));

    let company_update = Companion::new(vec![
        cfield("name", wtext("New Corp")),
        cfield("ceo", FieldState::NestedSub(Some(person))),
        cfield("address", FieldState::NestedSub(Some(address_again))),
        cfield("employee_count", wint(200)),
    ]);

    // Validate company companion fields
    assert_eq!(company_update.state_of("name"), Some(&wtext("New Corp")));
    assert_eq!(company_update.state_of("employee_count"), Some(&wint(200)));
    assert!(company_update.has_field("ceo"));
    assert!(company_update.has_field("address"));

    // Validate person companion fields
    if let Some(FieldState::NestedSub(Some(ceo))) = company_update.state_of("ceo") {
        assert_eq!(ceo.state_of("name"), Some(&wtext("New CEO")));
        assert_eq!(ceo.state_of("age"), Some(&wint(50)));
        assert!(ceo.has_field("address"));
    } else {
        panic!("ceo update is present");
    }

    // Validate address companion fields
    if let Some(FieldState::NestedSub(Some(address))) = company_update.state_of("address") {
        assert_eq!(address.state_of("street"), Some(&wtext("456 New St")));
        assert_eq!(address.state_of("city"), Some(&wtext("New City")));
        assert_eq!(address.state_of("zip"), Some(&absent()));
    } else {
        panic!("address update is present");
    }
}

#[test]
fn complex_scenarios_test_custom_type_none_update() {
    let person_update = person_update(Some("Bob"), None, None);

    assert_eq!(person_update.state_of("name"), Some(&wtext("Bob")));
    assert_eq!(person_update.state_of("age"), Some(&absent()));
    assert_eq!(person_update.state_of("address"), Some(&FieldState::NestedSub(None)));
}

#[test]
fn complex_scenarios_test_custom_type_empty_update() {
    let empty_update = Companion::default_companion(&person_decl()).unwrap();

    assert!(empty_update.is_empty());

    assert_eq!(empty_update.state_of("name"), Some(&absent()));
    assert_eq!(empty_update.state_of("age"), Some(&absent()));
    assert_eq!(empty_update.state_of("address"), Some(&FieldState::NestedSub(None)));
}

#[test]
fn test_empty_struct() {
    // A record with no fields retains nothing: generation is rejected.
    let r = derive_updatable_struct(&s("EmptyStruct"), &vec![], &vec![]);
    assert_eq!(r.unwrap_err(), GenError::NoUpdatableFields { source: s("EmptyStruct") });
}

#[test]
fn complex_scenarios_test_single_field_struct() {
    let fields = vec![FieldDecl { name: Some(s("field")), ty: TypeDesc::TextDesc, attrs: prim() }];
    let decl = derive_updatable_struct(&s("SingleFieldStruct"), &vec![], &fields).unwrap();

    let update = Companion::new(vec![cfield("field", wtext("test"))]);
    assert_eq!(update.state_of("field"), Some(&wtext("test")));
    assert!(!update.is_empty());

    let empty = Companion::default_companion(&decl).unwrap();
    assert!(empty.is_empty());
}
