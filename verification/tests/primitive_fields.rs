use substruct_genesis::derive_updatable_struct;
use substruct_genesis::value_dup;
use substruct_genesis::AttrDecl;
use substruct_genesis::Companion;
use substruct_genesis::CompanionDecl;
use substruct_genesis::FieldDecl;
use substruct_genesis::FieldVal;
use substruct_genesis::MetaItem;
use substruct_genesis::TypeDesc;
use substruct_genesis::Value;

fn s(x: &str) -> String {
    x.to_string()
}

fn prim() -> Vec<AttrDecl> {
    vec![AttrDecl {
        key: s("substruct_field"),
        args: Some(vec![MetaItem::Marker(s("primitive"))]),
    }]
}

fn field(name: &str, value: Value) -> FieldVal {
    FieldVal { name: s(name), value }
}

/// `PrimitiveStruct` with string, int, float, bool and two optional
/// fields, all annotated as plain wrapped fields.  The value model holds
/// no floating-point values, so the float field appears only in the
/// declaration; a record instance carries the other five fields.
fn primitive_struct_decl() -> CompanionDecl {
    let fields = vec![
        FieldDecl { name: Some(s("string_field")), ty: TypeDesc::TextDesc, attrs: prim() },
        FieldDecl { name: Some(s("int_field")), ty: TypeDesc::IntDesc { name: s("i32") }, attrs: prim() },
        FieldDecl { name: Some(s("float_field")), ty: TypeDesc::FloatDesc { name: s("f64") }, attrs: prim() },
        FieldDecl { name: Some(s("bool_field")), ty: TypeDesc::BoolDesc, attrs: prim() },
        FieldDecl {
            name: Some(s("option_string")),
            ty: TypeDesc::OptionDesc(Box::new(TypeDesc::TextDesc)),
            attrs: prim(),
        },
        FieldDecl {
            name: Some(s("option_int")),
            ty: TypeDesc::OptionDesc(Box::new(TypeDesc::IntDesc { name: s("i32") })),
            attrs: prim(),
        },
    ];
    derive_updatable_struct(&s("PrimitiveStruct"), &vec![], &fields).unwrap()
}

fn primitive_source() -> Value {
    Value::RecordV(vec![
        field("string_field", Value::TextV(s("test"))),
        field("int_field", Value::IntV(42)),
        field("bool_field", Value::BoolV(true)),
        field("option_string", Value::OptV(Some(Box::new(Value::TextV(s("option")))))),
        field("option_int", Value::OptV(Some(Box::new(Value::IntV(100))))),
    ])
}

#[test]
fn primitive_fields_test_primitive_struct_empty_update() {
    let source = primitive_source();

    let empty_update = Companion::default_companion(&primitive_struct_decl()).unwrap();

    assert!(empty_update.is_empty());
    assert!(!empty_update.would_change(&source));

    let mut result = value_dup(&source);
    empty_update.apply_to(&mut result).unwrap();
    assert_eq!(result, source); // no changes applied
}
