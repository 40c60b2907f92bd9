//! The dynamic value model: plain field values, the generic structured-data
//! value that structured-payload fields are carried in, and the ghost model
//! both are abstracted to.

use vstd::prelude::*;

verus! {

/// A plain field value of a source record.
///
/// Records are kept as ordered field lists; an optional value is either
/// absent or a boxed inner value; a field whose declared type is the
/// generic structured-data type holds a `JsonVal` directly.
#[derive(Debug, PartialEq)]
pub enum Value {
    BoolV(bool),
    IntV(i128),
    TextV(String),
    OptV(Option<Box<Value>>),
    RecordV(Vec<FieldVal>),
    JsonV(JsonVal),
}

/// One named field of a record value.
#[derive(Debug, PartialEq)]
pub struct FieldVal {
    pub name: String,
    pub value: Value,
}

/// The generic structured-data value: the shapes a record value
/// serializes to (absent options become `JNull`).
#[derive(Debug, PartialEq)]
pub enum JsonVal {
    JNull,
    JBool(bool),
    JInt(i128),
    JText(String),
    JObj(Vec<JsonEntry>),
}

/// One key/value entry of a structured-data object.
#[derive(Debug, PartialEq)]
pub struct JsonEntry {
    pub key: String,
    pub value: JsonVal,
}

/// The ghost model of a field value.
pub enum ValV {
    BoolV(bool),
    IntV(int),
    TextV(Seq<char>),
    OptV(Option<Box<ValV>>),
    RecordV(Seq<FieldV>),
    JsonV(JVal),
}

/// The ghost model of one named record field.
pub struct FieldV {
    pub name: Seq<char>,
    pub value: ValV,
}

/// The ghost model of a structured-data value.
pub enum JVal {
    NullJ,
    BoolJ(bool),
    IntJ(int),
    TextJ(Seq<char>),
    ObjJ(Seq<JEntryV>),
}

/// The ghost model of one structured-data object entry.
pub struct JEntryV {
    pub key: Seq<char>,
    pub value: JVal,
}

/// The ghost model of a value.
pub open spec fn val_view(v: Value) -> ValV
    decreases v,
{
    match v {
        Value::BoolV(b) => ValV::BoolV(b),
        Value::IntV(i) => ValV::IntV(i as int),
        Value::TextV(s) => ValV::TextV(s@),
        Value::OptV(o) => match o {
            Option::None => ValV::OptV(Option::None),
            Option::Some(b) => ValV::OptV(Option::Some(Box::new(val_view(*b)))),
        },
        Value::RecordV(fs) => ValV::RecordV(fields_view(fs@)),
        Value::JsonV(j) => ValV::JsonV(json_view(j)),
    }
}

/// The ghost model of one record field.
pub open spec fn field_view(f: FieldVal) -> FieldV
    decreases f,
{
    FieldV { name: f.name@, value: val_view(f.value) }
}

/// The ghost model of a field list, element for element.
pub open spec fn fields_view(s: Seq<FieldVal>) -> Seq<FieldV>
    decreases s,
{
    if s.len() == 0 {
        Seq::empty()
    } else {
        fields_view(s.drop_last()).push(field_view(s.last()))
    }
}

/// The ghost model of a structured-data value.
pub open spec fn json_view(j: JsonVal) -> JVal
    decreases j,
{
    match j {
        JsonVal::JNull => JVal::NullJ,
        JsonVal::JBool(b) => JVal::BoolJ(b),
        JsonVal::JInt(i) => JVal::IntJ(i as int),
        JsonVal::JText(s) => JVal::TextJ(s@),
        JsonVal::JObj(es) => JVal::ObjJ(entries_view(es@)),
    }
}

/// The ghost model of one object entry.
pub open spec fn entry_view(e: JsonEntry) -> JEntryV
    decreases e,
{
    JEntryV { key: e.key@, value: json_view(e.value) }
}

/// The ghost model of an entry list, element for element.
pub open spec fn entries_view(s: Seq<JsonEntry>) -> Seq<JEntryV>
    decreases s,
{
    if s.len() == 0 {
        Seq::empty()
    } else {
        entries_view(s.drop_last()).push(entry_view(s.last()))
    }
}

impl View for Value {
    type V = ValV;

    open spec fn view(&self) -> ValV {
        val_view(*self)
    }
}

impl View for FieldVal {
    type V = FieldV;

    open spec fn view(&self) -> FieldV {
        field_view(*self)
    }
}

impl View for JsonVal {
    type V = JVal;

    open spec fn view(&self) -> JVal {
        json_view(*self)
    }
}

impl View for JsonEntry {
    type V = JEntryV;

    open spec fn view(&self) -> JEntryV {
        entry_view(*self)
    }
}

/// A field list's model has one element per field.
pub broadcast proof fn lemma_fields_view_len(s: Seq<FieldVal>)
    ensures
        (#[trigger] fields_view(s)).len() == s.len(),
    decreases s,
{
    if s.len() > 0 {
        lemma_fields_view_len(s.drop_last());
    }
}

/// A field list's model is the model of each field, in order.
pub broadcast proof fn lemma_fields_view_index(s: Seq<FieldVal>, i: int)
    requires
        0 <= i < s.len(),
    ensures
        #[trigger] fields_view(s)[i] == field_view(s[i]),
    decreases s,
{
    lemma_fields_view_len(s.drop_last());
    if i < s.len() - 1 {
        lemma_fields_view_index(s.drop_last(), i);
    }
}

/// An entry list's model has one element per entry.
pub broadcast proof fn lemma_entries_view_len(s: Seq<JsonEntry>)
    ensures
        (#[trigger] entries_view(s)).len() == s.len(),
    decreases s,
{
    if s.len() > 0 {
        lemma_entries_view_len(s.drop_last());
    }
}

/// An entry list's model is the model of each entry, in order.
pub broadcast proof fn lemma_entries_view_index(s: Seq<JsonEntry>, i: int)
    requires
        0 <= i < s.len(),
    ensures
        #[trigger] entries_view(s)[i] == entry_view(s[i]),
    decreases s,
{
    lemma_entries_view_len(s.drop_last());
    if i < s.len() - 1 {
        lemma_entries_view_index(s.drop_last(), i);
    }
}

/// The position of the first record field with the given name, or -1.
pub open spec fn find_field(fs: Seq<FieldV>, name: Seq<char>) -> int
    decreases fs,
{
    if fs.len() == 0 {
        -1
    } else if fs[0].name == name {
        0
    } else {
        let r = find_field(fs.drop_first(), name);
        if r < 0 {
            -1
        } else {
            r + 1
        }
    }
}

/// Where there is no field with the name, the position is -1.
pub proof fn lemma_find_field_none(fs: Seq<FieldV>, name: Seq<char>)
    requires
        forall|i: int| 0 <= i < fs.len() ==> (#[trigger] fs[i]).name != name,
    ensures
        find_field(fs, name) == -1,
    decreases fs,
{
    if fs.len() > 0 {
        lemma_find_field_none(fs.drop_first(), name);
    }
}

/// The position of the first field whose name matches.
pub proof fn lemma_find_field_at(fs: Seq<FieldV>, name: Seq<char>, i: int)
    requires
        0 <= i < fs.len(),
        fs[i].name == name,
        forall|j: int| 0 <= j < i ==> (#[trigger] fs[j]).name != name,
    ensures
        find_field(fs, name) == i,
    decreases fs,
{
    if i > 0 {
        lemma_find_field_at(fs.drop_first(), name, i - 1);
    }
}

/// A found position lies in the list, matches the name, and is the first
/// that does.
pub proof fn lemma_find_field_found(fs: Seq<FieldV>, name: Seq<char>)
    requires
        find_field(fs, name) != -1,
    ensures
        0 <= find_field(fs, name) < fs.len(),
        fs[find_field(fs, name)].name == name,
        forall|j: int| 0 <= j < find_field(fs, name) ==> (#[trigger] fs[j]).name != name,
    decreases fs,
{
    if fs.len() > 0 && fs[0].name != name {
        lemma_find_field_found(fs.drop_first(), name);
        assert forall|j: int| 0 <= j < find_field(fs, name) implies (#[trigger] fs[j]).name
            != name by {
            if j > 0 {
                assert(fs[j] == fs.drop_first()[j - 1]);
            }
        }
    }
}

/// Finds the first record field with the given name.
pub fn find_field_index(fs: &Vec<FieldVal>, name: &String) -> (r: Option<usize>)
    ensures
        match r {
            Option::Some(k) => find_field(fields_view(fs@), name@) == k as int,
            Option::None => find_field(fields_view(fs@), name@) == -1,
        },
{
    proof {
        lemma_fields_view_len(fs@);
    }
    let n = fs.len();
    let mut i: usize = 0;
    while i < n
        invariant
            n == fs@.len(),
            i <= n,
            fields_view(fs@).len() == n,
            forall|j: int| 0 <= j < i ==> (#[trigger] fields_view(fs@)[j]).name != name@,
        decreases n - i,
    {
        proof {
            lemma_fields_view_index(fs@, i as int);
        }
        if string_eq(&fs[i].name, name) {
            proof {
                lemma_find_field_at(fields_view(fs@), name@, i as int);
            }
            return Option::Some(i);
        }
        i = i + 1;
    }
    proof {
        lemma_find_field_none(fields_view(fs@), name@);
    }
    Option::None
}

/// Decides equality of two strings by their character sequences.
pub fn string_eq(a: &String, b: &String) -> (r: bool)
    ensures
        r == (a@ == b@),
{
    *a == *b
}

/// Decides whether the models of two values are equal.
pub fn value_eq(a: &Value, b: &Value) -> (r: bool)
    ensures
        r == (a@ == b@),
    decreases *a,
{
    match (a, b) {
        (Value::BoolV(x), Value::BoolV(y)) => *x == *y,
        (Value::IntV(x), Value::IntV(y)) => *x == *y,
        (Value::TextV(x), Value::TextV(y)) => string_eq(x, y),
        (Value::OptV(x), Value::OptV(y)) => match (x, y) {
            (Option::None, Option::None) => true,
            (Option::Some(xv), Option::Some(yv)) => value_eq(&**xv, &**yv),
            _ => false,
        },
        (Value::RecordV(xs), Value::RecordV(ys)) => fields_eq(xs, ys),
        (Value::JsonV(x), Value::JsonV(y)) => json_eq(x, y),
        _ => false,
    }
}

/// Decides whether the models of two field lists are equal.
pub fn fields_eq(a: &Vec<FieldVal>, b: &Vec<FieldVal>) -> (r: bool)
    ensures
        r == (fields_view(a@) == fields_view(b@)),
    decreases a@,
{
    proof {
        lemma_fields_view_len(a@);
        lemma_fields_view_len(b@);
    }
    if a.len() != b.len() {
        return false;
    }
    let n = a.len();
    let mut i: usize = 0;
    while i < n
        invariant
            n == a@.len(),
            a@.len() == b@.len(),
            i <= n,
            fields_view(a@).len() == a@.len(),
            fields_view(b@).len() == b@.len(),
            forall|j: int| 0 <= j < i ==> fields_view(a@)[j] == fields_view(b@)[j],
        decreases n - i,
    {
        proof {
            lemma_fields_view_index(a@, i as int);
            lemma_fields_view_index(b@, i as int);
        }
        let same_name = string_eq(&a[i].name, &b[i].name);
        if !same_name || !value_eq(&a[i].value, &b[i].value) {
            proof {
                assert(fields_view(a@)[i as int] != fields_view(b@)[i as int]);
            }
            return false;
        }
        i = i + 1;
    }
    proof {
        assert(fields_view(a@) =~= fields_view(b@));
    }
    true
}

/// Decides whether the models of two structured-data values are equal.
pub fn json_eq(a: &JsonVal, b: &JsonVal) -> (r: bool)
    ensures
        r == (a@ == b@),
    decreases *a,
{
    match (a, b) {
        (JsonVal::JNull, JsonVal::JNull) => true,
        (JsonVal::JBool(x), JsonVal::JBool(y)) => *x == *y,
        (JsonVal::JInt(x), JsonVal::JInt(y)) => *x == *y,
        (JsonVal::JText(x), JsonVal::JText(y)) => string_eq(x, y),
        (JsonVal::JObj(xs), JsonVal::JObj(ys)) => entries_eq(xs, ys),
        _ => false,
    }
}

/// Decides whether the models of two entry lists are equal.
pub fn entries_eq(a: &Vec<JsonEntry>, b: &Vec<JsonEntry>) -> (r: bool)
    ensures
        r == (entries_view(a@) == entries_view(b@)),
    decreases a@,
{
    proof {
        lemma_entries_view_len(a@);
        lemma_entries_view_len(b@);
    }
    if a.len() != b.len() {
        return false;
    }
    let n = a.len();
    let mut i: usize = 0;
    while i < n
        invariant
            n == a@.len(),
            a@.len() == b@.len(),
            i <= n,
            entries_view(a@).len() == a@.len(),
            entries_view(b@).len() == b@.len(),
            forall|j: int| 0 <= j < i ==> entries_view(a@)[j] == entries_view(b@)[j],
        decreases n - i,
    {
        proof {
            lemma_entries_view_index(a@, i as int);
            lemma_entries_view_index(b@, i as int);
        }
        let same_key = string_eq(&a[i].key, &b[i].key);
        if !same_key || !json_eq(&a[i].value, &b[i].value) {
            proof {
                assert(entries_view(a@)[i as int] != entries_view(b@)[i as int]);
            }
            return false;
        }
        i = i + 1;
    }
    proof {
        assert(entries_view(a@) =~= entries_view(b@));
    }
    true
}

/// Produces a value with the same model as the given one.
pub fn value_dup(v: &Value) -> (r: Value)
    ensures
        r@ == v@,
    decreases *v,
{
    match v {
        Value::BoolV(b) => Value::BoolV(*b),
        Value::IntV(i) => Value::IntV(*i),
        Value::TextV(s) => Value::TextV(s.clone()),
        Value::OptV(o) => match o {
            Option::None => Value::OptV(Option::None),
            Option::Some(b) => Value::OptV(Option::Some(Box::new(value_dup(&**b)))),
        },
        Value::RecordV(fs) => Value::RecordV(fields_dup(fs)),
        Value::JsonV(j) => Value::JsonV(json_dup(j)),
    }
}

/// Produces a field list with the same model as the given one.
pub fn fields_dup(fs: &Vec<FieldVal>) -> (r: Vec<FieldVal>)
    ensures
        fields_view(r@) == fields_view(fs@),
    decreases fs@,
{
    proof {
        lemma_fields_view_len(fs@);
    }
    let n = fs.len();
    let mut r: Vec<FieldVal> = Vec::new();
    let mut i: usize = 0;
    while i < n
        invariant
            n == fs@.len(),
            i <= n,
            r@.len() == i,
            fields_view(fs@).len() == n,
            fields_view(r@).len() == i,
            forall|j: int| 0 <= j < i ==> fields_view(r@)[j] == fields_view(fs@)[j],
        decreases n - i,
    {
        let f = FieldVal { name: fs[i].name.clone(), value: value_dup(&fs[i].value) };
        proof {
            lemma_fields_view_index(fs@, i as int);
            lemma_fields_view_len(r@.push(f));
            assert(r@.push(f).drop_last() =~= r@);
            assert forall|j: int| 0 <= j < i + 1 implies fields_view(r@.push(f))[j] == fields_view(
                fs@,
            )[j] by {
                lemma_fields_view_index(r@.push(f), j);
                if j < i {
                    lemma_fields_view_index(r@, j);
                }
            }
        }
        r.push(f);
        i = i + 1;
    }
    proof {
        assert(fields_view(r@) =~= fields_view(fs@));
    }
    r
}

/// The default of a value's shape: what its type's default value is.
///
/// Numbers become zero, text becomes empty, booleans become false,
/// optional values become absent, structured-data values become the null
/// value, and a record's fields all take their own defaults.
pub open spec fn default_of(v: ValV) -> ValV
    decreases v,
{
    match v {
        ValV::BoolV(_) => ValV::BoolV(false),
        ValV::IntV(_) => ValV::IntV(0),
        ValV::TextV(_) => ValV::TextV(Seq::empty()),
        ValV::OptV(_) => ValV::OptV(Option::None),
        ValV::RecordV(fs) => ValV::RecordV(default_fields(fs)),
        ValV::JsonV(_) => ValV::JsonV(JVal::NullJ),
    }
}

/// The default of each field of a list, keeping names and order.
pub open spec fn default_fields(fs: Seq<FieldV>) -> Seq<FieldV>
    decreases fs,
{
    if fs.len() == 0 {
        Seq::empty()
    } else {
        default_fields(fs.drop_last()).push(
            FieldV { name: fs.last().name, value: default_of(fs.last().value) },
        )
    }
}

/// A defaulted field list has one element per field.
pub broadcast proof fn lemma_default_fields_len(fs: Seq<FieldV>)
    ensures
        (#[trigger] default_fields(fs)).len() == fs.len(),
    decreases fs,
{
    if fs.len() > 0 {
        lemma_default_fields_len(fs.drop_last());
    }
}

/// A defaulted field list defaults each field, in order.
pub broadcast proof fn lemma_default_fields_index(fs: Seq<FieldV>, i: int)
    requires
        0 <= i < fs.len(),
    ensures
        #[trigger] default_fields(fs)[i] == (FieldV {
            name: fs[i].name,
            value: default_of(fs[i].value),
        }),
    decreases fs,
{
    lemma_default_fields_len(fs.drop_last());
    if i < fs.len() - 1 {
        lemma_default_fields_index(fs.drop_last(), i);
    }
}

/// Whether a value equals its type's default.
pub open spec fn is_default(v: ValV) -> bool
    decreases v,
{
    match v {
        ValV::BoolV(b) => !b,
        ValV::IntV(i) => i == 0,
        ValV::TextV(s) => s.len() == 0,
        ValV::OptV(o) => o is None,
        ValV::RecordV(fs) => forall|i: int|
            0 <= i < fs.len() ==> is_default(#[trigger] fs[i].value),
        ValV::JsonV(j) => j is NullJ,
    }
}

/// The default of any shape is itself default.
pub proof fn lemma_default_is_default(v: ValV)
    ensures
        is_default(default_of(v)),
    decreases v,
{
    if let ValV::RecordV(fs) = v {
        assert forall|i: int| 0 <= i < default_fields(fs).len() implies is_default(
            #[trigger] default_fields(fs)[i].value,
        ) by {
            lemma_default_fields_len(fs);
            lemma_default_fields_index(fs, i);
            lemma_default_is_default(fs[i].value);
        }
    }
}

/// Decides whether a value equals its type's default.
pub fn is_default_value(v: &Value) -> (r: bool)
    ensures
        r == is_default(v@),
    decreases *v,
{
    match v {
        Value::BoolV(b) => !*b,
        Value::IntV(i) => *i == 0,
        Value::TextV(s) => {
            let r = string_eq(s, &String::new());
            proof {
                if s@.len() == 0 {
                    assert(s@ =~= Seq::<char>::empty());
                }
            }
            r
        },
        Value::OptV(o) => o.is_none(),
        Value::RecordV(fs) => is_default_fields(fs),
        Value::JsonV(j) => match j {
            JsonVal::JNull => true,
            _ => false,
        },
    }
}

/// Decides whether every field of a list holds its type's default.
pub fn is_default_fields(fs: &Vec<FieldVal>) -> (r: bool)
    ensures
        r == is_default(ValV::RecordV(fields_view(fs@))),
    decreases fs@,
{
    proof {
        lemma_fields_view_len(fs@);
    }
    let n = fs.len();
    let mut i: usize = 0;
    while i < n
        invariant
            n == fs@.len(),
            i <= n,
            fields_view(fs@).len() == n,
            forall|j: int| 0 <= j < i ==> is_default(#[trigger] fields_view(fs@)[j].value),
        decreases n - i,
    {
        proof {
            lemma_fields_view_index(fs@, i as int);
        }
        if !is_default_value(&fs[i].value) {
            proof {
                assert(!is_default(fields_view(fs@)[i as int].value));
            }
            return false;
        }
        i = i + 1;
    }
    true
}

/// Produces the default value of the given value's shape.
pub fn default_value(v: &Value) -> (r: Value)
    ensures
        r@ == default_of(v@),
    decreases *v,
{
    match v {
        Value::BoolV(_) => Value::BoolV(false),
        Value::IntV(_) => Value::IntV(0),
        Value::TextV(_) => Value::TextV(String::new()),
        Value::OptV(_) => Value::OptV(Option::None),
        Value::RecordV(fs) => Value::RecordV(default_value_fields(fs)),
        Value::JsonV(_) => Value::JsonV(JsonVal::JNull),
    }
}

/// Produces a field list holding the default of each given field.
pub fn default_value_fields(fs: &Vec<FieldVal>) -> (r: Vec<FieldVal>)
    ensures
        fields_view(r@) == default_fields(fields_view(fs@)),
    decreases fs@,
{
    proof {
        lemma_fields_view_len(fs@);
        lemma_default_fields_len(fields_view(fs@));
    }
    let n = fs.len();
    let mut r: Vec<FieldVal> = Vec::new();
    let mut i: usize = 0;
    while i < n
        invariant
            n == fs@.len(),
            i <= n,
            r@.len() == i,
            fields_view(fs@).len() == n,
            default_fields(fields_view(fs@)).len() == n,
            fields_view(r@).len() == i,
            forall|j: int| 0 <= j < i ==> fields_view(r@)[j] == default_fields(
                fields_view(fs@),
            )[j],
        decreases n - i,
    {
        let f = FieldVal { name: fs[i].name.clone(), value: default_value(&fs[i].value) };
        proof {
            lemma_fields_view_index(fs@, i as int);
            lemma_default_fields_index(fields_view(fs@), i as int);
            lemma_fields_view_len(r@.push(f));
            assert(r@.push(f).drop_last() =~= r@);
            assert forall|j: int| 0 <= j < i + 1 implies fields_view(r@.push(f))[j]
                == default_fields(fields_view(fs@))[j] by {
                lemma_fields_view_index(r@.push(f), j);
                if j < i {
                    lemma_fields_view_index(r@, j);
                }
            }
        }
        r.push(f);
        i = i + 1;
    }
    proof {
        assert(fields_view(r@) =~= default_fields(fields_view(fs@)));
    }
    r
}

/// Produces a structured-data value with the same model as the given one.
pub fn json_dup(j: &JsonVal) -> (r: JsonVal)
    ensures
        r@ == j@,
    decreases *j,
{
    match j {
        JsonVal::JNull => JsonVal::JNull,
        JsonVal::JBool(b) => JsonVal::JBool(*b),
        JsonVal::JInt(i) => JsonVal::JInt(*i),
        JsonVal::JText(s) => JsonVal::JText(s.clone()),
        JsonVal::JObj(es) => JsonVal::JObj(entries_dup(es)),
    }
}

/// Produces an entry list with the same model as the given one.
pub fn entries_dup(es: &Vec<JsonEntry>) -> (r: Vec<JsonEntry>)
    ensures
        entries_view(r@) == entries_view(es@),
    decreases es@,
{
    proof {
        lemma_entries_view_len(es@);
    }
    let n = es.len();
    let mut r: Vec<JsonEntry> = Vec::new();
    let mut i: usize = 0;
    while i < n
        invariant
            n == es@.len(),
            i <= n,
            r@.len() == i,
            entries_view(es@).len() == n,
            entries_view(r@).len() == i,
            forall|j: int| 0 <= j < i ==> entries_view(r@)[j] == entries_view(es@)[j],
        decreases n - i,
    {
        let e = JsonEntry { key: es[i].key.clone(), value: json_dup(&es[i].value) };
        proof {
            lemma_entries_view_index(es@, i as int);
            lemma_entries_view_len(r@.push(e));
            assert(r@.push(e).drop_last() =~= r@);
            assert forall|j: int| 0 <= j < i + 1 implies entries_view(r@.push(e))[j]
                == entries_view(es@)[j] by {
                lemma_entries_view_index(r@.push(e), j);
                if j < i {
                    lemma_entries_view_index(r@, j);
                }
            }
        }
        r.push(e);
        i = i + 1;
    }
    proof {
        assert(entries_view(r@) =~= entries_view(es@));
    }
    r
}

} // verus!
