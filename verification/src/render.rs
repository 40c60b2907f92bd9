//! The display-oriented rendering that the map export uses: a lossy,
//! human-readable projection of values, not meant for round trips.
//! Text is placed between plain quotes without escaping.

use vstd::prelude::*;

use vstd::string::StringExecFns;

use crate::value::fields_view;
use crate::value::entries_view;
use crate::value::lemma_fields_view_index;
use crate::value::lemma_fields_view_len;
use crate::value::lemma_entries_view_index;
use crate::value::lemma_entries_view_len;
use crate::value::FieldV;
use crate::value::FieldVal;
use crate::value::JEntryV;
use crate::value::JVal;
use crate::value::JsonEntry;
use crate::value::JsonVal;
use crate::value::ValV;
use crate::value::Value;

verus! {

/// One decimal digit's character sequence.
pub open spec fn digit_seq(n: int) -> Seq<char> {
    if n == 0 {
        "0"@
    } else if n == 1 {
        "1"@
    } else if n == 2 {
        "2"@
    } else if n == 3 {
        "3"@
    } else if n == 4 {
        "4"@
    } else if n == 5 {
        "5"@
    } else if n == 6 {
        "6"@
    } else if n == 7 {
        "7"@
    } else if n == 8 {
        "8"@
    } else {
        "9"@
    }
}

/// The decimal digits of a nonnegative number.
pub open spec fn udigits(n: int) -> Seq<char>
    decreases n,
{
    if n < 10 {
        digit_seq(n)
    } else {
        udigits(n / 10) + digit_seq(n % 10)
    }
}

/// The decimal rendering of an integer.
pub open spec fn int_render(i: int) -> Seq<char> {
    if i < 0 {
        "-"@ + udigits(-i)
    } else {
        udigits(i)
    }
}

/// The rendering of a value.
pub open spec fn render_of(v: ValV) -> Seq<char>
    decreases v,
{
    match v {
        ValV::BoolV(b) => if b {
            "true"@
        } else {
            "false"@
        },
        ValV::IntV(i) => int_render(i),
        ValV::TextV(s) => "\""@ + s + "\""@,
        ValV::OptV(o) => match o {
            Option::None => "None"@,
            Option::Some(x) => "Some("@ + render_of(*x) + ")"@,
        },
        ValV::RecordV(fs) => "{"@ + render_fields(fs) + "}"@,
        ValV::JsonV(j) => json_render(j),
    }
}

/// The rendering of a record's fields, comma-separated.
pub open spec fn render_fields(fs: Seq<FieldV>) -> Seq<char>
    decreases fs,
{
    if fs.len() == 0 {
        Seq::empty()
    } else {
        render_fields(fs.drop_last()) + (if fs.len() == 1 {
            Seq::<char>::empty()
        } else {
            ", "@
        }) + fs.last().name + ": "@ + render_of(fs.last().value)
    }
}

/// The rendering of a structured-data value, as its serialized text.
pub open spec fn json_render(j: JVal) -> Seq<char>
    decreases j,
{
    match j {
        JVal::NullJ => "null"@,
        JVal::BoolJ(b) => if b {
            "true"@
        } else {
            "false"@
        },
        JVal::IntJ(i) => int_render(i),
        JVal::TextJ(s) => "\""@ + s + "\""@,
        JVal::ObjJ(es) => "{"@ + render_entries(es) + "}"@,
    }
}

/// The rendering of an object's entries, comma-separated.
pub open spec fn render_entries(es: Seq<JEntryV>) -> Seq<char>
    decreases es,
{
    if es.len() == 0 {
        Seq::empty()
    } else {
        render_entries(es.drop_last()) + (if es.len() == 1 {
            Seq::<char>::empty()
        } else {
            ","@
        }) + "\""@ + es.last().key + "\":"@ + json_render(es.last().value)
    }
}

/// One decimal digit as text.
fn digit_str(n: u128) -> (r: &'static str)
    requires
        n < 10,
    ensures
        r@ == digit_seq(n as int),
{
    if n == 0 {
        "0"
    } else if n == 1 {
        "1"
    } else if n == 2 {
        "2"
    } else if n == 3 {
        "3"
    } else if n == 4 {
        "4"
    } else if n == 5 {
        "5"
    } else if n == 6 {
        "6"
    } else if n == 7 {
        "7"
    } else if n == 8 {
        "8"
    } else {
        "9"
    }
}

/// Appends the decimal digits of a nonnegative number.
fn push_udigits(n: u128, out: &mut String)
    ensures
        final(out)@ == old(out)@ + udigits(n as int),
    decreases n,
{
    if n < 10 {
        out.append(digit_str(n));
    } else {
        push_udigits(n / 10, out);
        out.append(digit_str(n % 10));
        proof {
            assert(old(out)@ + udigits(n as int / 10) + digit_seq(n as int % 10) =~= old(out)@
                + udigits(n as int));
        }
    }
}

/// Appends the decimal rendering of an integer.
pub fn push_int(i: i128, out: &mut String)
    ensures
        final(out)@ == old(out)@ + int_render(i as int),
{
    if i < 0 {
        out.append("-");
        let mag: u128 = ((-(i + 1)) as u128) + 1;
        proof {
            assert(mag as int == -(i as int));
        }
        push_udigits(mag, out);
        proof {
            assert(old(out)@ + "-"@ + udigits(mag as int) =~= old(out)@ + int_render(i as int));
        }
    } else {
        push_udigits(i as u128, out);
    }
}

/// Appends the rendering of a value.
pub fn push_value(v: &Value, out: &mut String)
    ensures
        final(out)@ == old(out)@ + render_of(v@),
    decreases *v,
{
    match v {
        Value::BoolV(b) => {
            if *b {
                out.append("true");
            } else {
                out.append("false");
            }
        },
        Value::IntV(i) => {
            push_int(*i, out);
        },
        Value::TextV(s) => {
            out.append("\"");
            out.append(s.as_str());
            out.append("\"");
            proof {
                assert(old(out)@ + "\""@ + s@ + "\""@ =~= old(out)@ + render_of(v@));
            }
        },
        Value::OptV(o) => match o {
            Option::None => {
                out.append("None");
            },
            Option::Some(x) => {
                out.append("Some(");
                push_value(&**x, out);
                out.append(")");
                proof {
                    assert(old(out)@ + "Some("@ + render_of(x@) + ")"@ =~= old(out)@ + render_of(
                        v@,
                    ));
                }
            },
        },
        Value::RecordV(fs) => {
            out.append("{");
            push_record_fields(fs, out);
            out.append("}");
            proof {
                assert(old(out)@ + "{"@ + render_fields(fields_view(fs@)) + "}"@ =~= old(out)@
                    + render_of(v@));
            }
        },
        Value::JsonV(j) => {
            push_json(j, out);
        },
    }
}

/// Appends the rendering of a record's fields.
fn push_record_fields(fs: &Vec<FieldVal>, out: &mut String)
    ensures
        final(out)@ == old(out)@ + render_fields(fields_view(fs@)),
    decreases fs@,
{
    proof {
        lemma_fields_view_len(fs@);
    }
    let n = fs.len();
    let mut i: usize = 0;
    while i < n
        invariant
            n == fs@.len(),
            i <= n,
            fields_view(fs@).len() == n,
            out@ == old(out)@ + render_fields(fields_view(fs@).take(i as int)),
        decreases n - i,
    {
        proof {
            lemma_fields_view_index(fs@, i as int);
            assert(fields_view(fs@).take(i as int + 1).drop_last() =~= fields_view(fs@).take(
                i as int,
            ));
            assert(fields_view(fs@).take(i as int + 1).last() == fields_view(fs@)[i as int]);
        }
        let ghost before = out@;
        if i > 0 {
            out.append(", ");
        }
        out.append(fs[i].name.as_str());
        out.append(": ");
        push_value(&fs[i].value, out);
        proof {
            let fv = fields_view(fs@);
            if i > 0 {
                assert(out@ =~= old(out)@ + render_fields(fv.take(i as int + 1)));
            } else {
                assert(render_fields(fv.take(0int)) =~= Seq::<char>::empty());
                assert(before =~= old(out)@);
                assert(out@ =~= old(out)@ + render_fields(fv.take(i as int + 1)));
            }
        }
        i = i + 1;
    }
    proof {
        assert(fields_view(fs@).take(n as int) =~= fields_view(fs@));
    }
}

/// Appends the serialized text of a structured-data value.
pub fn push_json(j: &JsonVal, out: &mut String)
    ensures
        final(out)@ == old(out)@ + json_render(j@),
    decreases *j,
{
    match j {
        JsonVal::JNull => {
            out.append("null");
        },
        JsonVal::JBool(b) => {
            if *b {
                out.append("true");
            } else {
                out.append("false");
            }
        },
        JsonVal::JInt(i) => {
            push_int(*i, out);
        },
        JsonVal::JText(s) => {
            out.append("\"");
            out.append(s.as_str());
            out.append("\"");
            proof {
                assert(old(out)@ + "\""@ + s@ + "\""@ =~= old(out)@ + json_render(j@));
            }
        },
        JsonVal::JObj(es) => {
            out.append("{");
            push_json_entries(es, out);
            out.append("}");
            proof {
                assert(old(out)@ + "{"@ + render_entries(entries_view(es@)) + "}"@ =~= old(out)@
                    + json_render(j@));
            }
        },
    }
}

/// Appends the serialized text of an object's entries.
fn push_json_entries(es: &Vec<JsonEntry>, out: &mut String)
    ensures
        final(out)@ == old(out)@ + render_entries(entries_view(es@)),
    decreases es@,
{
    proof {
        lemma_entries_view_len(es@);
    }
    let n = es.len();
    let mut i: usize = 0;
    while i < n
        invariant
            n == es@.len(),
            i <= n,
            entries_view(es@).len() == n,
            out@ == old(out)@ + render_entries(entries_view(es@).take(i as int)),
        decreases n - i,
    {
        proof {
            lemma_entries_view_index(es@, i as int);
            assert(entries_view(es@).take(i as int + 1).drop_last() =~= entries_view(es@).take(
                i as int,
            ));
            assert(entries_view(es@).take(i as int + 1).last() == entries_view(es@)[i as int]);
        }
        let ghost before = out@;
        if i > 0 {
            out.append(",");
        }
        out.append("\"");
        out.append(es[i].key.as_str());
        out.append("\":");
        push_json(&es[i].value, out);
        proof {
            let ev = entries_view(es@);
            if i > 0 {
                assert(out@ =~= old(out)@ + render_entries(ev.take(i as int + 1)));
            } else {
                assert(render_entries(ev.take(0int)) =~= Seq::<char>::empty());
                assert(before =~= old(out)@);
                assert(out@ =~= old(out)@ + render_entries(ev.take(i as int + 1)));
            }
        }
        i = i + 1;
    }
    proof {
        assert(entries_view(es@).take(n as int) =~= entries_view(es@));
    }
}

} // verus!
