//! Serialization of record values into the generic structured-data value,
//! and the type-directed deserialization back, with the round-trip facts
//! that structured-payload fields rely on.

use vstd::prelude::*;

use crate::value::entries_view;
use crate::value::fields_view;
use crate::value::json_dup;
use crate::value::lemma_entries_view_index;
use crate::value::lemma_entries_view_len;
use crate::value::lemma_fields_view_index;
use crate::value::lemma_fields_view_len;
use crate::value::FieldV;
use crate::value::FieldVal;
use crate::value::JEntryV;
use crate::value::JVal;
use crate::value::JsonEntry;
use crate::value::JsonVal;
use crate::value::ValV;
use crate::value::Value;

verus! {

/// The encoding of a value: booleans, integers and text map to their
/// structured counterparts, an absent option becomes the null value, a
/// present option encodes its inner value, a record becomes an object
/// with one entry per field, and a structured-data value passes through.
pub open spec fn enc(v: ValV) -> JVal
    decreases v,
{
    match v {
        ValV::BoolV(b) => JVal::BoolJ(b),
        ValV::IntV(i) => JVal::IntJ(i),
        ValV::TextV(s) => JVal::TextJ(s),
        ValV::OptV(o) => match o {
            Option::None => JVal::NullJ,
            Option::Some(b) => enc(*b),
        },
        ValV::RecordV(fs) => JVal::ObjJ(enc_fields(fs)),
        ValV::JsonV(j) => j,
    }
}

/// The encoding of a field list: one object entry per field, in order.
pub open spec fn enc_fields(fs: Seq<FieldV>) -> Seq<JEntryV>
    decreases fs,
{
    if fs.len() == 0 {
        Seq::empty()
    } else {
        enc_fields(fs.drop_last()).push(
            JEntryV { key: fs.last().name, value: enc(fs.last().value) },
        )
    }
}

/// An encoded field list has one entry per field.
pub broadcast proof fn lemma_enc_fields_len(fs: Seq<FieldV>)
    ensures
        (#[trigger] enc_fields(fs)).len() == fs.len(),
    decreases fs,
{
    if fs.len() > 0 {
        lemma_enc_fields_len(fs.drop_last());
    }
}

/// An encoded field list encodes each field, in order.
pub broadcast proof fn lemma_enc_fields_index(fs: Seq<FieldV>, i: int)
    requires
        0 <= i < fs.len(),
    ensures
        #[trigger] enc_fields(fs)[i] == (JEntryV { key: fs[i].name, value: enc(fs[i].value) }),
    decreases fs,
{
    lemma_enc_fields_len(fs.drop_last());
    if i < fs.len() - 1 {
        lemma_enc_fields_index(fs.drop_last(), i);
    }
}

/// The position of the first entry with the given key, or -1.
pub open spec fn find_key(es: Seq<JEntryV>, key: Seq<char>) -> int
    decreases es,
{
    if es.len() == 0 {
        -1
    } else if es[0].key == key {
        0
    } else {
        let r = find_key(es.drop_first(), key);
        if r < 0 {
            -1
        } else {
            r + 1
        }
    }
}

/// Where there is no entry with the key, the position is -1.
pub proof fn lemma_find_key_none(es: Seq<JEntryV>, key: Seq<char>)
    requires
        forall|i: int| 0 <= i < es.len() ==> (#[trigger] es[i]).key != key,
    ensures
        find_key(es, key) == -1,
    decreases es,
{
    if es.len() > 0 {
        lemma_find_key_none(es.drop_first(), key);
    }
}

/// The position of the first entry whose key matches.
pub proof fn lemma_find_key_at(es: Seq<JEntryV>, key: Seq<char>, i: int)
    requires
        0 <= i < es.len(),
        es[i].key == key,
        forall|j: int| 0 <= j < i ==> (#[trigger] es[j]).key != key,
    ensures
        find_key(es, key) == i,
    decreases es,
{
    if i > 0 {
        lemma_find_key_at(es.drop_first(), key, i - 1);
    }
}

/// A found position lies in the list, matches the key, and is the first
/// that does.
pub proof fn lemma_find_key_found(es: Seq<JEntryV>, key: Seq<char>)
    requires
        find_key(es, key) != -1,
    ensures
        0 <= find_key(es, key) < es.len(),
        es[find_key(es, key)].key == key,
        forall|j: int| 0 <= j < find_key(es, key) ==> (#[trigger] es[j]).key != key,
    decreases es,
{
    if es.len() > 0 && es[0].key != key {
        lemma_find_key_found(es.drop_first(), key);
        assert forall|j: int| 0 <= j < find_key(es, key) implies (#[trigger] es[j]).key != key by {
            if j > 0 {
                assert(es[j] == es.drop_first()[j - 1]);
            }
        }
    }
}

/// The decoding of a structured-data value at a template value standing
/// for the declared type: scalars must match the template's shape; the
/// null value clears an optional; any other value decodes into a present
/// optional's inner shape; an object fills a record template field by
/// field, by key; a template of the structured-data type itself accepts
/// any value.  `None` stands for a shape mismatch.
pub open spec fn dec(j: JVal, t: ValV) -> Option<ValV>
    decreases t, 0int,
{
    match t {
        ValV::BoolV(_) => match j {
            JVal::BoolJ(b) => Option::Some(ValV::BoolV(b)),
            _ => Option::None,
        },
        ValV::IntV(_) => match j {
            JVal::IntJ(i) => Option::Some(ValV::IntV(i)),
            _ => Option::None,
        },
        ValV::TextV(_) => match j {
            JVal::TextJ(s) => Option::Some(ValV::TextV(s)),
            _ => Option::None,
        },
        ValV::OptV(o) => if j is NullJ {
            Option::Some(ValV::OptV(Option::None))
        } else {
            match o {
                Option::None => Option::None,
                Option::Some(tx) => match dec(j, *tx) {
                    Option::Some(w) => Option::Some(ValV::OptV(Option::Some(Box::new(w)))),
                    Option::None => Option::None,
                },
            }
        },
        ValV::RecordV(ts) => match j {
            JVal::ObjJ(es) => match dec_fields(es, ts) {
                Option::Some(vs) => Option::Some(ValV::RecordV(vs)),
                Option::None => Option::None,
            },
            _ => Option::None,
        },
        ValV::JsonV(_) => Option::Some(ValV::JsonV(j)),
    }
}

/// The decoding of a record's fields: each template field takes the first
/// entry with its name; a missing entry or a mismatched shape fails the
/// whole record; entries with other keys are ignored.
pub open spec fn dec_fields(es: Seq<JEntryV>, ts: Seq<FieldV>) -> Option<Seq<FieldV>>
    decreases ts, 1int,
{
    if ts.len() == 0 {
        Option::Some(Seq::empty())
    } else {
        let k = find_key(es, ts[0].name);
        if k < 0 {
            Option::None
        } else {
            match dec(es[k].value, ts[0].value) {
                Option::Some(v) => match dec_fields(es, ts.drop_first()) {
                    Option::Some(rest) => Option::Some(
                        seq![FieldV { name: ts[0].name, value: v }] + rest,
                    ),
                    Option::None => Option::None,
                },
                Option::None => Option::None,
            }
        }
    }
}

/// One template field decodes against the entries to the given output.
pub open spec fn elem_dec_ok(es: Seq<JEntryV>, f: FieldV, out: FieldV) -> bool {
    &&& out.name == f.name
    &&& find_key(es, f.name) >= 0
    &&& dec(es[find_key(es, f.name)].value, f.value) == Option::Some(out.value)
}

/// One template field finds no entry or decodes to a shape mismatch.
pub open spec fn elem_dec_fails(es: Seq<JEntryV>, f: FieldV) -> bool {
    find_key(es, f.name) < 0 || dec(es[find_key(es, f.name)].value, f.value) is None
}

/// Where every template field decodes pointwise to the output, the whole
/// record decodes to the output.
pub proof fn lemma_dec_fields_pointwise(es: Seq<JEntryV>, ts: Seq<FieldV>, out: Seq<FieldV>)
    requires
        out.len() == ts.len(),
        forall|i: int| 0 <= i < ts.len() ==> elem_dec_ok(es, #[trigger] ts[i], out[i]),
    ensures
        dec_fields(es, ts) == Option::Some(out),
    decreases ts,
{
    if ts.len() == 0 {
        assert(out =~= Seq::<FieldV>::empty());
    } else {
        assert(elem_dec_ok(es, ts[0], out[0]));
        lemma_dec_fields_pointwise(es, ts.drop_first(), out.drop_first());
        assert(seq![FieldV { name: ts[0].name, value: out[0].value }] + out.drop_first() =~= out);
    }
}

/// Where some template field fails, the whole record fails.
pub proof fn lemma_dec_fields_fail(es: Seq<JEntryV>, ts: Seq<FieldV>, i: int)
    requires
        0 <= i < ts.len(),
        elem_dec_fails(es, ts[i]),
    ensures
        dec_fields(es, ts) is None,
    decreases ts,
{
    if i > 0 {
        lemma_dec_fields_fail(es, ts.drop_first(), i - 1);
    }
}

/// Whether every record in a value has pairwise distinct field names.
pub open spec fn wf_val(v: ValV) -> bool
    decreases v,
{
    match v {
        ValV::OptV(o) => match o {
            Option::None => true,
            Option::Some(b) => wf_val(*b),
        },
        ValV::RecordV(fs) => distinct_names(fs) && (forall|i: int|
            0 <= i < fs.len() ==> wf_val(#[trigger] fs[i].value)),
        _ => true,
    }
}

/// Whether the names of a field list are pairwise distinct.
pub open spec fn distinct_names(fs: Seq<FieldV>) -> bool {
    forall|i: int, j: int|
        0 <= i < j < fs.len() ==> (#[trigger] fs[i].name) != (#[trigger] fs[j].name)
}

/// Whether a value's encoding determines it: no present optional encodes
/// to the null value (a present absent-inner option does, and decodes
/// back to a plain absent option).
pub open spec fn enc_faithful(v: ValV) -> bool
    decreases v,
{
    match v {
        ValV::OptV(o) => match o {
            Option::None => true,
            Option::Some(b) => enc(*b) != JVal::NullJ && enc_faithful(*b),
        },
        ValV::RecordV(fs) => forall|i: int|
            0 <= i < fs.len() ==> enc_faithful(#[trigger] fs[i].value),
        _ => true,
    }
}

/// In an encoded record the first entry with a field's name is that
/// field's own entry.
pub proof fn lemma_find_key_enc_fields(fs: Seq<FieldV>, i: int)
    requires
        distinct_names(fs),
        0 <= i < fs.len(),
    ensures
        find_key(enc_fields(fs), fs[i].name) == i,
{
    lemma_enc_fields_len(fs);
    assert forall|j: int| 0 <= j < fs.len() implies (#[trigger] enc_fields(fs)[j]).key
        == fs[j].name by {
        lemma_enc_fields_index(fs, j);
    }
    lemma_find_key_at(enc_fields(fs), fs[i].name, i);
}

/// Round trip: decoding a well-formed value's own encoding at that value
/// succeeds, and returns the value itself where the encoding determines
/// it.
pub proof fn lemma_dec_enc(v: ValV)
    requires
        wf_val(v),
    ensures
        dec(enc(v), v) is Some,
        enc_faithful(v) ==> dec(enc(v), v) == Option::Some(v),
    decreases v, 1int,
{
    match v {
        ValV::OptV(o) => match o {
            Option::None => {
            },
            Option::Some(b) => {
                lemma_dec_enc(*b);
                if enc(*b) != JVal::NullJ {
                    assert(Box::new(*b) == b);
                }
            },
        },
        ValV::RecordV(fs) => {
            lemma_dec_enc_fields(fs, 0);
            assert(fs.skip(0) =~= fs);
        },
        _ => {
        },
    }
}

/// Round trip for a record's field suffix from position `k` on.
proof fn lemma_dec_enc_fields(fs: Seq<FieldV>, k: int)
    requires
        distinct_names(fs),
        forall|i: int| 0 <= i < fs.len() ==> wf_val(#[trigger] fs[i].value),
        0 <= k <= fs.len(),
    ensures
        dec_fields(enc_fields(fs), fs.skip(k)) is Some,
        (forall|i: int| 0 <= i < fs.len() ==> enc_faithful(#[trigger] fs[i].value))
            ==> dec_fields(enc_fields(fs), fs.skip(k)) == Option::Some(fs.skip(k)),
    decreases fs, 0int, fs.len() - k,
{
    let es = enc_fields(fs);
    let ts = fs.skip(k);
    lemma_enc_fields_len(fs);
    if k == fs.len() {
        assert(ts =~= Seq::<FieldV>::empty());
    } else {
        assert(ts[0] == fs[k]);
        lemma_find_key_enc_fields(fs, k);
        lemma_enc_fields_index(fs, k);
        lemma_dec_enc(fs[k].value);
        lemma_dec_enc_fields(fs, k + 1);
        assert(ts.drop_first() =~= fs.skip(k + 1));
        let w = dec(es[k].value, fs[k].value)->Some_0;
        let rest = dec_fields(es, fs.skip(k + 1))->Some_0;
        assert(dec_fields(es, ts) == Option::Some(seq![FieldV { name: fs[k].name, value: w }]
            + rest));
        if forall|i: int| 0 <= i < fs.len() ==> enc_faithful(#[trigger] fs[i].value) {
            assert(enc_faithful(fs[k].value));
            assert(seq![FieldV { name: fs[k].name, value: fs[k].value }] + fs.skip(k + 1) =~= ts);
        }
    }
}

/// Encodes a value into a structured-data value.
pub fn encode(v: &Value) -> (r: JsonVal)
    ensures
        r@ == enc(v@),
    decreases *v,
{
    match v {
        Value::BoolV(b) => JsonVal::JBool(*b),
        Value::IntV(i) => JsonVal::JInt(*i),
        Value::TextV(s) => JsonVal::JText(s.clone()),
        Value::OptV(o) => match o {
            Option::None => JsonVal::JNull,
            Option::Some(b) => encode(&**b),
        },
        Value::RecordV(fs) => JsonVal::JObj(encode_fields(fs)),
        Value::JsonV(j) => json_dup(j),
    }
}

/// Encodes a field list into an entry list, one entry per field.
pub fn encode_fields(fs: &Vec<FieldVal>) -> (r: Vec<JsonEntry>)
    ensures
        entries_view(r@) == enc_fields(fields_view(fs@)),
    decreases fs@,
{
    proof {
        lemma_fields_view_len(fs@);
        lemma_enc_fields_len(fields_view(fs@));
    }
    let n = fs.len();
    let mut r: Vec<JsonEntry> = Vec::new();
    let mut i: usize = 0;
    while i < n
        invariant
            n == fs@.len(),
            i <= n,
            r@.len() == i,
            fields_view(fs@).len() == n,
            enc_fields(fields_view(fs@)).len() == n,
            entries_view(r@).len() == i,
            forall|j: int| 0 <= j < i ==> entries_view(r@)[j] == enc_fields(fields_view(fs@))[j],
        decreases n - i,
    {
        let e = JsonEntry { key: fs[i].name.clone(), value: encode(&fs[i].value) };
        proof {
            lemma_fields_view_index(fs@, i as int);
            lemma_enc_fields_index(fields_view(fs@), i as int);
            lemma_entries_view_len(r@.push(e));
            assert(r@.push(e).drop_last() =~= r@);
            assert forall|j: int| 0 <= j < i + 1 implies entries_view(r@.push(e))[j] == enc_fields(
                fields_view(fs@),
            )[j] by {
                lemma_entries_view_index(r@.push(e), j);
                if j < i {
                    lemma_entries_view_index(r@, j);
                }
            }
        }
        r.push(e);
        i = i + 1;
    }
    proof {
        assert(entries_view(r@) =~= enc_fields(fields_view(fs@)));
    }
    r
}

/// Finds the first entry with the given key.
pub fn find_entry(es: &Vec<JsonEntry>, key: &String) -> (r: Option<usize>)
    ensures
        match r {
            Option::Some(k) => find_key(entries_view(es@), key@) == k as int,
            Option::None => find_key(entries_view(es@), key@) == -1,
        },
{
    proof {
        lemma_entries_view_len(es@);
    }
    let n = es.len();
    let mut i: usize = 0;
    while i < n
        invariant
            n == es@.len(),
            i <= n,
            entries_view(es@).len() == n,
            forall|j: int| 0 <= j < i ==> (#[trigger] entries_view(es@)[j]).key != key@,
        decreases n - i,
    {
        proof {
            lemma_entries_view_index(es@, i as int);
        }
        if crate::value::string_eq(&es[i].key, key) {
            proof {
                lemma_find_key_at(entries_view(es@), key@, i as int);
            }
            return Option::Some(i);
        }
        i = i + 1;
    }
    proof {
        lemma_find_key_none(entries_view(es@), key@);
    }
    Option::None
}

/// Decodes a structured-data value at a template value standing for the
/// declared type; `None` reports a shape mismatch.
pub fn decode(j: &JsonVal, t: &Value) -> (r: Option<Value>)
    ensures
        match r {
            Option::Some(v) => dec(j@, t@) == Option::Some(v@),
            Option::None => dec(j@, t@) is None,
        },
    decreases *t,
{
    match t {
        Value::BoolV(_) => match j {
            JsonVal::JBool(b) => Option::Some(Value::BoolV(*b)),
            _ => Option::None,
        },
        Value::IntV(_) => match j {
            JsonVal::JInt(i) => Option::Some(Value::IntV(*i)),
            _ => Option::None,
        },
        Value::TextV(_) => match j {
            JsonVal::JText(s) => Option::Some(Value::TextV(s.clone())),
            _ => Option::None,
        },
        Value::OptV(o) => match j {
            JsonVal::JNull => Option::Some(Value::OptV(Option::None)),
            _ => match o {
                Option::None => Option::None,
                Option::Some(tx) => match decode(j, &**tx) {
                    Option::Some(w) => Option::Some(Value::OptV(Option::Some(Box::new(w)))),
                    Option::None => Option::None,
                },
            },
        },
        Value::RecordV(ts) => match j {
            JsonVal::JObj(es) => match decode_fields(es, ts) {
                Option::Some(vs) => Option::Some(Value::RecordV(vs)),
                Option::None => Option::None,
            },
            _ => Option::None,
        },
        Value::JsonV(_) => Option::Some(Value::JsonV(json_dup(j))),
    }
}

/// Decodes each template field against the entries, by key.
pub fn decode_fields(es: &Vec<JsonEntry>, ts: &Vec<FieldVal>) -> (r: Option<Vec<FieldVal>>)
    ensures
        match r {
            Option::Some(vs) => dec_fields(entries_view(es@), fields_view(ts@)) == Option::Some(
                fields_view(vs@),
            ),
            Option::None => dec_fields(entries_view(es@), fields_view(ts@)) is None,
        },
    decreases ts@,
{
    proof {
        lemma_fields_view_len(ts@);
        lemma_entries_view_len(es@);
    }
    let n = ts.len();
    let mut out: Vec<FieldVal> = Vec::new();
    let mut i: usize = 0;
    while i < n
        invariant
            n == ts@.len(),
            i <= n,
            out@.len() == i,
            fields_view(ts@).len() == n,
            entries_view(es@).len() == es@.len(),
            fields_view(out@).len() == i,
            forall|j: int| 0 <= j < i ==> elem_dec_ok(
                entries_view(es@),
                fields_view(ts@)[j],
                fields_view(out@)[j],
            ),
        decreases n - i,
    {
        proof {
            lemma_fields_view_index(ts@, i as int);
        }
        let k = match find_entry(es, &ts[i].name) {
            Option::Some(k) => k,
            Option::None => {
                proof {
                    lemma_dec_fields_fail(entries_view(es@), fields_view(ts@), i as int);
                }
                return Option::None;
            },
        };
        proof {
            lemma_find_key_found(entries_view(es@), ts@[i as int].name@);
            lemma_entries_view_index(es@, k as int);
        }
        let w = match decode(&es[k].value, &ts[i].value) {
            Option::Some(w) => w,
            Option::None => {
                proof {
                    lemma_dec_fields_fail(entries_view(es@), fields_view(ts@), i as int);
                }
                return Option::None;
            },
        };
        let f = FieldVal { name: ts[i].name.clone(), value: w };
        proof {
            lemma_fields_view_len(out@.push(f));
            assert(out@.push(f).drop_last() =~= out@);
            assert forall|j: int| 0 <= j < i + 1 implies elem_dec_ok(
                entries_view(es@),
                fields_view(ts@)[j],
                fields_view(out@.push(f))[j],
            ) by {
                lemma_fields_view_index(out@.push(f), j);
                if j < i {
                    lemma_fields_view_index(out@, j);
                }
            }
        }
        out.push(f);
        i = i + 1;
    }
    proof {
        lemma_dec_fields_pointwise(entries_view(es@), fields_view(ts@), fields_view(out@));
    }
    Option::Some(out)
}

} // verus!
