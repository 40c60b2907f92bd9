use substruct_genesis::decode;
use substruct_genesis::derive_updatable_struct;
use substruct_genesis::encode;
use substruct_genesis::value_dup;
use substruct_genesis::AttrDecl;
use substruct_genesis::Companion;
use substruct_genesis::CompanionField;
use substruct_genesis::FieldDecl;
use substruct_genesis::FieldState;
use substruct_genesis::FieldVal;
use substruct_genesis::JsonEntry;
use substruct_genesis::JsonVal;
use substruct_genesis::MetaItem;
use substruct_genesis::TypeDesc;
use substruct_genesis::Value;

fn s(x: &str) -> String {
    x.to_string()
}

fn prim() -> Vec<AttrDecl> {
    vec![AttrDecl {
        key: s("substruct_field"),
        args: Some(vec![MetaItem::Marker(s("primitive"))]),
    }]
}

fn prim_wrap(wrap: bool) -> Vec<AttrDecl> {
    vec![AttrDecl {
        key: s("substruct_field"),
        args: Some(vec![
            MetaItem::Marker(s("primitive")),
            MetaItem::BoolArg { key: s("wrap"), value: wrap },
        ]),
    }]
}

fn cfield(name: &str, state: FieldState) -> CompanionField {
    CompanionField { name: s(name), state }
}

fn field(name: &str, value: Value) -> FieldVal {
    FieldVal { name: s(name), value }
}

fn wtext(v: &str) -> FieldState {
    FieldState::Wrapped(Some(Value::TextV(s(v))))
}

fn get<'a>(rec: &'a Value, name: &str) -> &'a Value {
    match rec {
        Value::RecordV(fs) => &fs.iter().find(|f| f.name == name).unwrap().value,
        _ => panic!("not a record"),
    }
}

/// The concrete scenario: `{name: String (plain, wrapped), age: u32
/// (plain, unwrapped)}`.  `new(Some("Bob"), 41)` applied to `{name:
/// "Alice", age: 30}` yields `{name: "Bob", age: 41}`; `new(None, 0)`
/// leaves the target unchanged, since zero is the unwrapped field's
/// default and so means "no update".
#[test]
fn scenario_wrapped_name_unwrapped_age() {
    let target0 = Value::RecordV(vec![
        field("name", Value::TextV(s("Alice"))),
        field("age", Value::IntV(30)),
    ]);

    let update = Companion::new(vec![
        cfield("name", wtext("Bob")),
        cfield("age", FieldState::Unwrapped(Value::IntV(41))),
    ]);

    let mut target = value_dup(&target0);
    update.apply_to(&mut target).unwrap();
    assert_eq!(get(&target, "name"), &Value::TextV(s("Bob")));
    assert_eq!(get(&target, "age"), &Value::IntV(41)); // 41 != u32::default()

    let degenerate = Companion::new(vec![
        cfield("name", FieldState::Wrapped(None)),
        cfield("age", FieldState::Unwrapped(Value::IntV(0))),
    ]);

    let mut untouched = value_dup(&target0);
    degenerate.apply_to(&mut untouched).unwrap();
    assert_eq!(untouched, target0); // age 0 equals the default: no update
}

/// Merge is right-biased, in all three presence combinations.
#[test]
fn merge_right_bias_cases() {
    let a = Companion::new(vec![cfield("f", wtext("x"))]);
    let b = Companion::new(vec![cfield("f", FieldState::Wrapped(None))]);
    let merged = a.merge(b);
    assert_eq!(merged.state_of("f"), Some(&wtext("x"))); // right absent: left kept

    let a = Companion::new(vec![cfield("f", FieldState::Wrapped(None))]);
    let b = Companion::new(vec![cfield("f", wtext("y"))]);
    let merged = a.merge(b);
    assert_eq!(merged.state_of("f"), Some(&wtext("y"))); // left absent: right wins

    let a = Companion::new(vec![cfield("f", wtext("x"))]);
    let b = Companion::new(vec![cfield("f", wtext("y"))]);
    let merged = a.merge(b);
    assert_eq!(merged.state_of("f"), Some(&wtext("y"))); // both present: right wins
}

/// Merge is right-biased for unwrapped, payload and nested fields too.
#[test]
fn merge_right_bias_other_kinds() {
    let a = Companion::new(vec![
        cfield("u", FieldState::Unwrapped(Value::IntV(7))),
        cfield("p", FieldState::Payload(Some(JsonVal::JInt(1)))),
        cfield("n", FieldState::NestedSub(None)),
    ]);
    let b = Companion::new(vec![
        cfield("u", FieldState::Unwrapped(Value::IntV(0))), // default: no update
        cfield("p", FieldState::Payload(Some(JsonVal::JInt(2)))),
        cfield("n", FieldState::NestedSub(Some(Companion::new(vec![cfield("x", wtext("v"))])))),
    ]);
    let merged = a.merge(b);
    assert_eq!(merged.state_of("u"), Some(&FieldState::Unwrapped(Value::IntV(7))));
    assert_eq!(merged.state_of("p"), Some(&FieldState::Payload(Some(JsonVal::JInt(2)))));
    assert!(merged.has_field("n"));
}

/// Where `would_change` answers false, applying is a no-op.
#[test]
fn apply_agrees_with_would_change() {
    let target0 = Value::RecordV(vec![
        field("name", Value::TextV(s("Alice"))),
        field("age", Value::IntV(30)),
        field("opt", Value::OptV(Some(Box::new(Value::IntV(5))))),
        field(
            "prefs",
            Value::RecordV(vec![field("theme", Value::TextV(s("dark")))]),
        ),
    ]);

    let candidates = vec![
        Companion::new(vec![
            cfield("name", wtext("Alice")),
            cfield("age", FieldState::Wrapped(None)),
        ]),
        Companion::new(vec![
            cfield("age", FieldState::Unwrapped(Value::IntV(0))),
            cfield("opt", FieldState::Wrapped(Some(Value::OptV(Some(Box::new(Value::IntV(5))))))),
        ]),
        Companion::new(vec![cfield(
            "prefs",
            FieldState::Payload(Some(JsonVal::JObj(vec![JsonEntry {
                key: s("theme"),
                value: JsonVal::JText(s("dark")),
            }]))),
        )]),
        Companion::new(vec![cfield(
            "prefs",
            FieldState::NestedSub(Some(Companion::new(vec![cfield(
                "theme",
                FieldState::Wrapped(None),
            )]))),
        )]),
    ];

    for update in candidates {
        assert!(!update.would_change(&target0));
        let mut target = value_dup(&target0);
        update.apply_to(&mut target).unwrap();
        assert_eq!(target, target0);
    }
}

/// An absent nested field leaves the target's sub-record entirely
/// untouched, deep fields included.
#[test]
fn nested_absent_leaves_deep_fields() {
    let target0 = Value::RecordV(vec![
        field("name", Value::TextV(s("Alice"))),
        field(
            "inner",
            Value::RecordV(vec![
                field("a", Value::IntV(1)),
                field(
                    "deeper",
                    Value::RecordV(vec![field("b", Value::TextV(s("deep value")))]),
                ),
            ]),
        ),
    ]);

    let update = Companion::new(vec![
        cfield("name", wtext("Bob")),
        cfield("inner", FieldState::NestedSub(None)),
    ]);

    let mut target = value_dup(&target0);
    update.apply_to(&mut target).unwrap();
    assert_eq!(get(&target, "name"), &Value::TextV(s("Bob")));
    assert_eq!(get(&target, "inner"), get(&target0, "inner"));
}

/// Encoding then decoding a value at its own shape returns the value.
#[test]
fn encode_decode_round_trip() {
    let v = Value::RecordV(vec![
        field("text", Value::TextV(s("hi"))),
        field("count", Value::IntV(-12)),
        field("flag", Value::BoolV(true)),
        field("opt", Value::OptV(Some(Box::new(Value::TextV(s("in")))))),
        field("none", Value::OptV(None)),
        field("raw", Value::JsonV(JsonVal::JText(s("kept")))),
    ]);
    let encoded = encode(&v);
    let decoded = decode(&encoded, &v).unwrap();
    assert_eq!(decoded, v);
}

/// A present optional holding an absent optional encodes to the null
/// value, and decodes back to a plain absent optional: the one shape the
/// encoding does not determine.
#[test]
fn encode_collapses_nested_absent_option() {
    let v = Value::OptV(Some(Box::new(Value::OptV(None))));
    let encoded = encode(&v);
    assert_eq!(encoded, JsonVal::JNull);
    let decoded = decode(&encoded, &v).unwrap();
    assert_eq!(decoded, Value::OptV(None));
}

/// A decode at a mismatched shape is refused.
#[test]
fn decode_shape_mismatch() {
    assert_eq!(decode(&JsonVal::JText(s("five")), &Value::IntV(0)), None);
    assert_eq!(decode(&JsonVal::JInt(5), &Value::BoolV(false)), None);
    // A missing object entry for a record field is a mismatch too.
    let template = Value::RecordV(vec![field("a", Value::IntV(1))]);
    assert_eq!(decode(&JsonVal::JObj(vec![]), &template), None);
}

/// The export keeps only set fields, in order, with rendered values.
#[test]
fn into_partial_projection() {
    let update = Companion::new(vec![
        cfield("name", wtext("Alice")),
        cfield("active", FieldState::Wrapped(Some(Value::BoolV(true)))),
        cfield("skipped", FieldState::Wrapped(None)),
        cfield("count", FieldState::Unwrapped(Value::IntV(-3))),
        cfield(
            "opt",
            FieldState::Wrapped(Some(Value::OptV(Some(Box::new(Value::IntV(9)))))),
        ),
        cfield(
            "prefs",
            FieldState::Payload(Some(JsonVal::JObj(vec![JsonEntry {
                key: s("theme"),
                value: JsonVal::JText(s("dark")),
            }]))),
        ),
        cfield(
            "inner",
            FieldState::NestedSub(Some(Companion::new(vec![cfield("x", wtext("v"))]))),
        ),
    ]);

    let partial = update.into_partial();
    let expected: Vec<(String, String)> = vec![
        (s("name"), s("\"Alice\"")),
        (s("active"), s("true")),
        (s("count"), s("-3")),
        (s("opt"), s("Some(9)")),
        (s("prefs"), s("{\"theme\":\"dark\"}")),
        (s("inner"), s("{x: \"v\"}")),
    ];
    assert_eq!(partial, expected);
}

/// The default companion has every wrapped field absent and is empty;
/// the field count is the number of retained fields when all are set,
/// and zero after clearing.
#[test]
fn default_count_and_clear() {
    let fields = vec![
        FieldDecl { name: Some(s("name")), ty: TypeDesc::TextDesc, attrs: prim() },
        FieldDecl { name: Some(s("age")), ty: TypeDesc::IntDesc { name: s("u32") }, attrs: prim_wrap(false) },
        FieldDecl {
            name: Some(s("opt")),
            ty: TypeDesc::OptionDesc(Box::new(TypeDesc::TextDesc)),
            attrs: prim(),
        },
    ];
    let decl = derive_updatable_struct(&s("Counted"), &vec![], &fields).unwrap();

    let defaulted = Companion::default_companion(&decl).unwrap();
    assert!(defaulted.is_empty());
    assert_eq!(defaulted.field_count(), 0);
    assert_eq!(defaulted.state_of("name"), Some(&FieldState::Wrapped(None)));
    assert_eq!(defaulted.state_of("opt"), Some(&FieldState::Wrapped(None)));

    let mut all_set = Companion::new(vec![
        cfield("name", wtext("Ann")),
        cfield("age", FieldState::Unwrapped(Value::IntV(9))),
        cfield("opt", FieldState::Wrapped(Some(Value::OptV(None)))),
    ]);
    assert_eq!(all_set.field_count(), 3);

    all_set.clear();
    assert_eq!(all_set.field_count(), 0);
    assert!(all_set.is_empty());
    assert_eq!(all_set.state_of("age"), Some(&FieldState::Unwrapped(Value::IntV(0))));
}

/// An explicit clear of an optional target field: a wrapped update over
/// an optional source field carries "set to absent" as a present value.
#[test]
fn wrapped_optional_three_states() {
    let target0 = Value::RecordV(vec![
        field("opt_s", Value::OptV(Some(Box::new(Value::TextV(s("old_option")))))),
        field("opt_i", Value::OptV(Some(Box::new(Value::IntV(50))))),
    ]);

    // Absent: no update; present absent-inner: explicit clear; present
    // value: explicit set.
    let update = Companion::new(vec![
        cfield("opt_s", FieldState::Wrapped(Some(Value::OptV(None)))),
        cfield("opt_i", FieldState::Wrapped(Some(Value::OptV(Some(Box::new(Value::IntV(100))))))),
    ]);

    assert!(update.would_change(&target0));

    let mut target = value_dup(&target0);
    update.apply_to(&mut target).unwrap();
    assert_eq!(get(&target, "opt_s"), &Value::OptV(None));
    assert_eq!(get(&target, "opt_i"), &Value::OptV(Some(Box::new(Value::IntV(100)))));
}
