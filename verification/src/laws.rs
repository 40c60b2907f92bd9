//! The laws the companion operations obey, proved over the ghost model.

use vstd::prelude::*;

use crate::codec::enc_faithful;
use crate::codec::lemma_dec_enc;
use crate::codec::wf_val;
use crate::companion::apply_fields;
use crate::companion::apply_state;
use crate::companion::apply_v;
use crate::companion::changes_fields;
use crate::companion::changes_v;
use crate::companion::cleared_fields;
use crate::companion::cleared_v;
use crate::companion::congruent;
use crate::companion::count_v;
use crate::companion::decl_source_compat;
use crate::companion::default_fields_of;
use crate::companion::default_for_type;
use crate::companion::default_state_of;
use crate::companion::elem_apply_ok;
use crate::companion::empty_v;
use crate::companion::find_cfield;
use crate::companion::init_fields;
use crate::companion::lemma_apply_fields_pointwise;
use crate::companion::lemma_cleared_fields_index;
use crate::companion::lemma_cleared_fields_len;
use crate::companion::lemma_find_cfield_found;
use crate::companion::lemma_init_fields_index;
use crate::companion::lemma_init_fields_len;
use crate::companion::lemma_merge_fields_index;
use crate::companion::merge_v;
use crate::companion::record_fields;
use crate::companion::state_changes;
use crate::companion::state_present;
use crate::companion::CFieldV;
use crate::companion::CompanionV;
use crate::companion::StateV;
use crate::generator::DeclV;
use crate::value::find_field;
use crate::value::is_default;
use crate::value::lemma_default_is_default;
use crate::value::lemma_find_field_at;
use crate::value::FieldV;
use crate::value::ValV;

verus! {

/// What a successful application did, field by field: every target field
/// of the output comes from its own companion state, and a target field
/// without one is kept.
pub proof fn lemma_apply_fields_inverse(c: CompanionV, ts: Seq<FieldV>, out: Seq<FieldV>)
    requires
        apply_fields(c, ts) == Option::Some(out),
    ensures
        out.len() == ts.len(),
        forall|i: int| 0 <= i < ts.len() ==> elem_apply_ok(c, #[trigger] ts[i], out[i]),
    decreases ts,
{
    if ts.len() > 0 {
        let k = find_cfield(c.fields, ts[0].name);
        let hd = if k < 0 {
            Option::Some(ts[0].value)
        } else {
            apply_state(c.fields[k].state, ts[0].value)
        };
        let rest = apply_fields(c, ts.drop_first())->Some_0;
        lemma_apply_fields_inverse(c, ts.drop_first(), rest);
        assert(out == seq![FieldV { name: ts[0].name, value: hd->Some_0 }] + rest);
        assert forall|i: int| 0 <= i < ts.len() implies elem_apply_ok(c, #[trigger] ts[i], out[i]) by {
            if i > 0 {
                assert(ts[i] == ts.drop_first()[i - 1]);
                assert(out[i] == rest[i - 1]);
            }
        }
    } else {
        assert(out =~= Seq::<FieldV>::empty());
    }
}

/// In a record with distinct field names, a field's name finds the field
/// itself.
pub proof fn lemma_find_field_self(fs: Seq<FieldV>, i: int)
    requires
        crate::codec::distinct_names(fs),
        0 <= i < fs.len(),
    ensures
        find_field(fs, fs[i].name) == i,
{
    lemma_find_field_at(fs, fs[i].name, i);
}

/// Law: the all-absent companion of a declaration is empty — every
/// wrapped field is absent, and so is every other kind of field.
pub proof fn lemma_default_companion_empty(
    ds: Seq<crate::processor::fields::CFDeclV>,
    fs: Seq<CFieldV>,
)
    requires
        default_fields_of(ds) == Option::Some(fs),
    ensures
        empty_v(CompanionV { fields: fs }),
    decreases ds,
{
    if ds.len() > 0 {
        let rest = default_fields_of(ds.drop_last())->Some_0;
        lemma_default_companion_empty(ds.drop_last(), rest);
        let st = default_state_of(ds.last().storage)->Some_0;
        assert(!state_present(st)) by {
            if let crate::processor::fields::StorageVw::BareW(ty) = ds.last().storage {
                assert(is_default(default_for_type(ty)->Some_0));
            }
        }
        assert forall|i: int| 0 <= i < fs.len() implies !state_present(
            #[trigger] fs[i].state,
        ) by {
            assert(fs == rest.push(CFieldV { name: ds.last().name, state: st }));
            if i < fs.len() - 1 {
                assert(fs[i] == rest[i]);
                assert(!state_present((CompanionV { fields: rest }).fields[i].state));
            }
        }
    }
}

/// Law: clearing makes a companion empty — every field is reset to a
/// state that would change nothing.
pub proof fn lemma_cleared_empty(c: CompanionV)
    ensures
        empty_v(cleared_v(c)),
{
    assert forall|i: int| 0 <= i < cleared_fields(c.fields).len() implies !state_present(
        #[trigger] cleared_fields(c.fields)[i].state,
    ) by {
        lemma_cleared_fields_len(c.fields);
        lemma_cleared_fields_index(c.fields, i);
        if let StateV::UnwrappedV(u) = c.fields[i].state {
            lemma_default_is_default(u);
        }
    }
}

/// Law: the field count is the number of fields, exactly when every
/// field is set; and it is zero exactly when the companion is empty.
pub proof fn lemma_count_bounds(fs: Seq<CFieldV>)
    ensures
        count_v(fs) <= fs.len(),
        (count_v(fs) == fs.len()) <==> (forall|i: int|
            0 <= i < fs.len() ==> state_present(#[trigger] fs[i].state)),
        (count_v(fs) == 0) <==> (forall|i: int|
            0 <= i < fs.len() ==> !state_present(#[trigger] fs[i].state)),
    decreases fs,
{
    if fs.len() > 0 {
        lemma_count_bounds(fs.drop_last());
        assert forall|i: int| 0 <= i < fs.len() - 1 implies fs.drop_last()[i] == fs[i] by {
        }
        if count_v(fs) == fs.len() {
            assert forall|i: int| 0 <= i < fs.len() implies state_present(
                #[trigger] fs[i].state,
            ) by {
                if i < fs.len() - 1 {
                    assert(fs.drop_last()[i] == fs[i]);
                }
            }
        }
        if count_v(fs) == 0 {
            assert forall|i: int| 0 <= i < fs.len() implies !state_present(
                #[trigger] fs[i].state,
            ) by {
                if i < fs.len() - 1 {
                    assert(fs.drop_last()[i] == fs[i]);
                }
            }
        }
        if forall|i: int| 0 <= i < fs.len() ==> state_present(#[trigger] fs[i].state) {
            assert(state_present(fs.last().state));
        }
        if forall|i: int| 0 <= i < fs.len() ==> !state_present(#[trigger] fs[i].state) {
            assert(!state_present(fs.last().state));
        }
    }
}

/// Law: after clearing, the field count is zero.
pub proof fn lemma_cleared_count(c: CompanionV)
    ensures
        count_v(cleared_v(c).fields) == 0,
{
    lemma_cleared_empty(c);
    lemma_count_bounds(cleared_v(c).fields);
}

/// Law: a companion is empty exactly when its field count is zero.
pub proof fn lemma_empty_iff_zero_count(c: CompanionV)
    ensures
        empty_v(c) <==> count_v(c.fields) == 0,
{
    lemma_count_bounds(c.fields);
}

/// Law: merging is right-biased — where the other companion's field is
/// set it wins, and otherwise this companion's field is kept.
pub proof fn lemma_merge_right_biased(a: CompanionV, b: CompanionV, i: int)
    requires
        congruent(a, b),
        0 <= i < a.fields.len(),
    ensures
        merge_v(a, b).fields[i].state == if state_present(b.fields[i].state) {
            b.fields[i].state
        } else {
            a.fields[i].state
        },
{
    lemma_merge_fields_index(a.fields, b.fields, i);
}

/// Law: a target field whose companion field is absent — a nested
/// companion that was not supplied, an absent wrapped or payload field,
/// an unwrapped field at its default, or no companion field at all — is
/// left untouched by a successful application, its whole value, deep
/// fields included.
pub proof fn lemma_absent_field_untouched(c: CompanionV, t: ValV, t2: ValV, i: int)
    requires
        apply_v(c, t) == Option::Some(t2),
        0 <= i < record_fields(t).len(),
        ({
            let k = find_cfield(c.fields, record_fields(t)[i].name);
            k < 0 || !state_present(c.fields[k].state)
        }),
    ensures
        t2 is RecordV,
        record_fields(t2).len() == record_fields(t).len(),
        record_fields(t2)[i] == record_fields(t)[i],
{
    let ts = record_fields(t);
    let out = record_fields(t2);
    lemma_apply_fields_inverse(CompanionV { fields: c.fields }, ts, out);
    assert(elem_apply_ok(c, ts[i], out[i]));
    let k = find_cfield(c.fields, ts[i].name);
    if k >= 0 {
        match c.fields[k].state {
            StateV::UnwrappedV(u) => {
            },
            _ => {
            },
        }
    }
}

/// What applying one no-change state does: it keeps the target value,
/// whenever it succeeds at all.
proof fn lemma_state_no_change(s: StateV, v: ValV)
    requires
        wf_val(v),
        enc_faithful(v),
        !state_changes(s, v),
    ensures
        apply_state(s, v) matches Option::Some(w) ==> w == v,
    decreases v, 1int,
{
    match s {
        StateV::PayloadV(o) => {
            if let Option::Some(j) = o {
                lemma_dec_enc(v);
            }
        },
        StateV::NestedV(o) => {
            if let Option::Some(c2) = o {
                lemma_apply_no_change(c2, v);
            }
        },
        _ => {
        },
    }
}

/// Law: where no change would be detected, a successful application
/// returns the target unchanged.  (A target in which a present optional
/// value encodes to the null value is excluded: its payload snapshot
/// decodes back to a plain absent optional.)
pub proof fn lemma_apply_no_change(c: CompanionV, t: ValV)
    requires
        wf_val(t),
        enc_faithful(t),
        !changes_v(c, t),
    ensures
        apply_v(c, t) matches Option::Some(t2) ==> t2 == t,
    decreases t, 0int,
{
    if let ValV::RecordV(ts) = t {
        lemma_no_change_fields(c, ts);
        if apply_fields(c, ts) is Some {
            let out = apply_fields(c, ts)->Some_0;
            assert(out =~= ts);
        }
    }
}

/// The field-list form of the no-change law.
proof fn lemma_no_change_fields(c: CompanionV, ts: Seq<FieldV>)
    requires
        forall|i: int| 0 <= i < ts.len() ==> wf_val((#[trigger] ts[i]).value),
        forall|i: int| 0 <= i < ts.len() ==> enc_faithful((#[trigger] ts[i]).value),
        !changes_fields(c, ts),
    ensures
        apply_fields(c, ts) matches Option::Some(out) ==> out.len() == ts.len() && forall|i: int|
            0 <= i < ts.len() ==> out[i] == ts[i],
    decreases ts, 2int,
{
    if ts.len() > 0 {
        let k = find_cfield(c.fields, ts[0].name);
        if k >= 0 {
            lemma_state_no_change(c.fields[k].state, ts[0].value);
        }
        assert forall|i: int| 0 <= i < ts.drop_first().len() implies wf_val(
            (#[trigger] ts.drop_first()[i]).value,
        ) && enc_faithful(ts.drop_first()[i].value) by {
            assert(ts.drop_first()[i] == ts[i + 1]);
        }
        lemma_no_change_fields(c, ts.drop_first());
        if apply_fields(c, ts) is Some {
            let out = apply_fields(c, ts)->Some_0;
            let rest = apply_fields(c, ts.drop_first())->Some_0;
            assert forall|i: int| 0 <= i < ts.len() implies out[i] == ts[i] by {
                if i > 0 {
                    assert(out[i] == rest[i - 1]);
                    assert(ts.drop_first()[i - 1] == ts[i]);
                }
            }
        }
    }
}

/// The names of the declared fields whose storage is a wrapped plain
/// value, in order.
pub open spec fn wrapped_names(ds: Seq<crate::processor::fields::CFDeclV>) -> Seq<Seq<char>>
    decreases ds,
{
    if ds.len() == 0 {
        Seq::empty()
    } else {
        wrapped_names(ds.drop_last()) + (match ds.last().storage {
            crate::processor::fields::StorageVw::WrapW(_) => seq![ds.last().name],
            crate::processor::fields::StorageVw::WrapOptionW(_) => seq![ds.last().name],
            _ => Seq::empty(),
        })
    }
}

/// The names of the declared fields whose storage is a bare plain value.
pub open spec fn unwrapped_names(ds: Seq<crate::processor::fields::CFDeclV>) -> Seq<Seq<char>>
    decreases ds,
{
    if ds.len() == 0 {
        Seq::empty()
    } else {
        unwrapped_names(ds.drop_last()) + (match ds.last().storage {
            crate::processor::fields::StorageVw::BareW(_) => seq![ds.last().name],
            _ => Seq::empty(),
        })
    }
}

/// The names of the declared structured-payload fields.
pub open spec fn json_names(ds: Seq<crate::processor::fields::CFDeclV>) -> Seq<Seq<char>>
    decreases ds,
{
    if ds.len() == 0 {
        Seq::empty()
    } else {
        json_names(ds.drop_last()) + (match ds.last().storage {
            crate::processor::fields::StorageVw::PayloadW => seq![ds.last().name],
            _ => Seq::empty(),
        })
    }
}

/// The names of the declared nested fields.
pub open spec fn nested_names(ds: Seq<crate::processor::fields::CFDeclV>) -> Seq<Seq<char>>
    decreases ds,
{
    if ds.len() == 0 {
        Seq::empty()
    } else {
        nested_names(ds.drop_last()) + (match ds.last().storage {
            crate::processor::fields::StorageVw::NestedW(_) => seq![ds.last().name],
            _ => Seq::empty(),
        })
    }
}

/// The names of the declared fields, in order.
pub open spec fn decl_names(ds: Seq<crate::processor::fields::CFDeclV>) -> Seq<Seq<char>>
    decreases ds,
{
    if ds.len() == 0 {
        Seq::empty()
    } else {
        decl_names(ds.drop_last()).push(ds.last().name)
    }
}

/// The storages of the declared fields, in order.
pub open spec fn decl_storages(ds: Seq<crate::processor::fields::CFDeclV>) -> Seq<
    crate::processor::fields::StorageVw,
>
    decreases ds,
{
    if ds.len() == 0 {
        Seq::empty()
    } else {
        decl_storages(ds.drop_last()).push(ds.last().storage)
    }
}

/// The accumulator's own invariant: the constructor parameter lists run
/// parallel to the declaration list, and the four kind-partitioned name
/// sets hold exactly the names whose storage is of their kind — so each
/// retained field stands in the declaration list once and in exactly one
/// kind set.
pub open spec fn ctx_partitioned(c: crate::processor::fields::ContextV) -> bool {
    &&& c.field_names == decl_names(c.updatable_fields)
    &&& c.field_types == decl_storages(c.updatable_fields)
    &&& c.wrapped_field_names == wrapped_names(c.updatable_fields)
    &&& c.unwrapped_field_names == unwrapped_names(c.updatable_fields)
    &&& c.json_field_names == json_names(c.updatable_fields)
    &&& c.nested_field_names == nested_names(c.updatable_fields)
}

/// Appending one declaration extends each projection by its own part.
proof fn lemma_push_partition(
    ds: Seq<crate::processor::fields::CFDeclV>,
    d: crate::processor::fields::CFDeclV,
)
    ensures
        decl_names(ds.push(d)) == decl_names(ds).push(d.name),
        decl_storages(ds.push(d)) == decl_storages(ds).push(d.storage),
        wrapped_names(ds.push(d)) == wrapped_names(ds) + (match d.storage {
            crate::processor::fields::StorageVw::WrapW(_) => seq![d.name],
            crate::processor::fields::StorageVw::WrapOptionW(_) => seq![d.name],
            _ => Seq::empty(),
        }),
        unwrapped_names(ds.push(d)) == unwrapped_names(ds) + (match d.storage {
            crate::processor::fields::StorageVw::BareW(_) => seq![d.name],
            _ => Seq::empty(),
        }),
        json_names(ds.push(d)) == json_names(ds) + (match d.storage {
            crate::processor::fields::StorageVw::PayloadW => seq![d.name],
            _ => Seq::empty(),
        }),
        nested_names(ds.push(d)) == nested_names(ds) + (match d.storage {
            crate::processor::fields::StorageVw::NestedW(_) => seq![d.name],
            _ => Seq::empty(),
        }),
{
    assert(ds.push(d).drop_last() =~= ds);
}

/// One classification step preserves the accumulator invariant.
proof fn lemma_field_step_partitioned(
    c: crate::processor::fields::ContextV,
    f: crate::processor::fields::FieldDecl,
)
    requires
        ctx_partitioned(c),
    ensures
        crate::processor::fields::field_step(c, f) matches Result::Ok(c2) ==> ctx_partitioned(c2),
{
    let ds = c.updatable_fields;
    let nm = match f.name {
        Option::Some(nm) => nm,
        Option::None => {
            return ;
        },
    };
    match crate::processor::fields::kind_of_attrs(f.attrs@) {
        crate::processor::fields::FieldKind::Primitive { wrap } => {
            let d = crate::processor::fields::CFDeclV {
                name: nm@,
                storage: crate::processor::fields::primitive_storage(f.ty, wrap),
            };
            lemma_push_partition(ds, d);
            lemma_bucket_push_shapes(c, nm@);
        },
        crate::processor::fields::FieldKind::Json => {
            if !(f.ty is JsonDesc) {
                let d = crate::processor::fields::CFDeclV {
                    name: nm@,
                    storage: crate::processor::fields::StorageVw::PayloadW,
                };
                lemma_push_partition(ds, d);
                lemma_bucket_push_shapes(c, nm@);
            }
        },
        crate::processor::fields::FieldKind::Nested { nested_type } => {
            if let Option::Some(n) = crate::processor::fields::nested_name(f.ty, nested_type) {
                let d = crate::processor::fields::CFDeclV {
                    name: nm@,
                    storage: crate::processor::fields::StorageVw::NestedW(n),
                };
                lemma_push_partition(ds, d);
                lemma_bucket_push_shapes(c, nm@);
            }
        },
        _ => {
        },
    }
}

/// Appending to one bucket and leaving the others alone, written both as
/// a push and as a concatenation.
proof fn lemma_bucket_push_shapes(c: crate::processor::fields::ContextV, name: Seq<char>)
    ensures
        c.wrapped_field_names.push(name) == c.wrapped_field_names + seq![name],
        c.unwrapped_field_names.push(name) == c.unwrapped_field_names + seq![name],
        c.json_field_names.push(name) == c.json_field_names + seq![name],
        c.nested_field_names.push(name) == c.nested_field_names + seq![name],
        c.wrapped_field_names + Seq::<Seq<char>>::empty() == c.wrapped_field_names,
        c.unwrapped_field_names + Seq::<Seq<char>>::empty() == c.unwrapped_field_names,
        c.json_field_names + Seq::<Seq<char>>::empty() == c.json_field_names,
        c.nested_field_names + Seq::<Seq<char>>::empty() == c.nested_field_names,
{
    assert(c.wrapped_field_names.push(name) =~= c.wrapped_field_names + seq![name]);
    assert(c.unwrapped_field_names.push(name) =~= c.unwrapped_field_names + seq![name]);
    assert(c.json_field_names.push(name) =~= c.json_field_names + seq![name]);
    assert(c.nested_field_names.push(name) =~= c.nested_field_names + seq![name]);
    assert(c.wrapped_field_names + Seq::<Seq<char>>::empty() =~= c.wrapped_field_names);
    assert(c.unwrapped_field_names + Seq::<Seq<char>>::empty() =~= c.unwrapped_field_names);
    assert(c.json_field_names + Seq::<Seq<char>>::empty() =~= c.json_field_names);
    assert(c.nested_field_names + Seq::<Seq<char>>::empty() =~= c.nested_field_names);
}

/// Law: classification populates the accumulator consistently — after a
/// successful run over all fields, the parameter lists run parallel to
/// the declaration list, and each retained field's name stands in exactly
/// the kind set its storage dictates.
pub proof fn lemma_classification_partitions(
    c: crate::processor::fields::ContextV,
    fields: Seq<crate::processor::fields::FieldDecl>,
)
    requires
        ctx_partitioned(c),
    ensures
        crate::processor::fields::ctx_fold(c, fields) matches Result::Ok(c2) ==> ctx_partitioned(
            c2,
        ),
    decreases fields,
{
    if fields.len() > 0 {
        lemma_field_step_partitioned(c, fields[0]);
        if let Result::Ok(c1) = crate::processor::fields::field_step(c, fields[0]) {
            lemma_classification_partitions(c1, fields.drop_first());
        }
    }
}

/// The empty accumulator satisfies the invariant.
pub proof fn lemma_empty_ctx_partitioned()
    ensures
        ctx_partitioned(crate::processor::fields::empty_ctx()),
{
}

/// Law: the no-change companion built from a source record applies to
/// that record successfully, and leaves every plain and nested field
/// unchanged; only structured-payload fields are rewritten, to their
/// snapshot's decoding.
pub proof fn lemma_from_source_round_trip(d: DeclV, t: ValV)
    requires
        decl_source_compat(d, t),
        wf_val(t),
    ensures
        apply_v(CompanionV { fields: init_fields(d.fields, record_fields(t), true) }, t)
            is Some,
        ({
            let c = CompanionV { fields: init_fields(d.fields, record_fields(t), true) };
            let t2 = apply_v(c, t)->Some_0;
            let ts = record_fields(t);
            &&& t2 is RecordV
            &&& record_fields(t2).len() == ts.len()
            &&& forall|i: int|
                0 <= i < ts.len() ==> {
                    let k = find_cfield(c.fields, (#[trigger] ts[i]).name);
                    (k < 0 || !(c.fields[k].state is PayloadV)) ==> record_fields(t2)[i] == ts[i]
                }
        }),
{
    let ts = record_fields(t);
    let c = CompanionV { fields: init_fields(d.fields, ts, true) };
    lemma_init_fields_len(d.fields, ts, true);
    let out = Seq::new(
        ts.len(),
        |i: int|
            FieldV {
                name: ts[i].name,
                value: {
                    let k = find_cfield(c.fields, ts[i].name);
                    if k < 0 {
                        ts[i].value
                    } else {
                        apply_state(c.fields[k].state, ts[i].value)->Some_0
                    }
                },
            },
    );
    assert forall|i: int| 0 <= i < ts.len() implies elem_apply_ok(c, #[trigger] ts[i], out[i])
        && ({
        let k = find_cfield(c.fields, ts[i].name);
        (k < 0 || !(c.fields[k].state is PayloadV)) ==> out[i] == ts[i]
    }) by {
        let k = find_cfield(c.fields, ts[i].name);
        if k >= 0 {
            lemma_find_cfield_found(c.fields, ts[i].name);
            lemma_init_fields_index(d.fields, ts, true, k);
            let kk = find_field(ts, d.fields[k].name);
            if kk >= 0 {
                crate::value::lemma_find_field_found(ts, d.fields[k].name);
                lemma_find_field_self(ts, i);
                assert(d.fields[k].name == ts[i].name);
                assert(kk == i);
                match c.fields[k].state {
                    StateV::UnwrappedV(u) => {
                        lemma_default_is_default(ts[i].value);
                    },
                    StateV::PayloadV(o) => {
                        lemma_dec_enc(ts[i].value);
                    },
                    _ => {
                    },
                }
            }
        }
    }
    lemma_apply_fields_pointwise(c, ts, out);
}

} // verus!
