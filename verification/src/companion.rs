//! Companion record instances and their operations.
//!
//! A companion record pairs with one source record and carries, for each
//! retained field, an update state: a wrapped replacement value, a bare
//! value whose default means "no update", a structured payload, or a
//! nested companion for a sub-record.

use vstd::prelude::*;

use crate::codec::dec;
use crate::codec::enc;
use crate::value::default_of;
use crate::value::is_default;
use crate::value::FieldV;
use crate::value::FieldVal;
use crate::value::JVal;
use crate::value::JsonVal;
use crate::value::ValV;
use crate::value::Value;

verus! {

/// The update state of one companion field.
///
/// `Wrapped` is a plain field with an absence state: absent means no
/// update, present replaces the target's value.  `Unwrapped` is a plain
/// field without an absence state: the type's default value means no
/// update.  `Payload` carries a structured-data snapshot to decode into
/// the target.  `NestedSub` recursively updates a sub-record.
#[derive(Debug, PartialEq)]
pub enum FieldState {
    Wrapped(Option<Value>),
    Unwrapped(Value),
    Payload(Option<JsonVal>),
    NestedSub(Option<Companion>),
}

/// One named field of a companion record.
#[derive(Debug, PartialEq)]
pub struct CompanionField {
    pub name: String,
    pub state: FieldState,
}

/// A companion record instance: the retained fields, in declaration
/// order, each with its update state.
#[derive(Debug, PartialEq)]
pub struct Companion {
    pub fields: Vec<CompanionField>,
}

/// The ghost model of one update state.
pub enum StateV {
    WrappedV(Option<ValV>),
    UnwrappedV(ValV),
    PayloadV(Option<JVal>),
    NestedV(Option<CompanionV>),
}

/// The ghost model of one companion field.
pub struct CFieldV {
    pub name: Seq<char>,
    pub state: StateV,
}

/// The ghost model of a companion record.
pub struct CompanionV {
    pub fields: Seq<CFieldV>,
}

/// The ghost model of an update state.
pub open spec fn state_view(s: FieldState) -> StateV
    decreases s,
{
    match s {
        FieldState::Wrapped(o) => StateV::WrappedV(
            match o {
                Option::None => Option::None,
                Option::Some(v) => Option::Some(v@),
            },
        ),
        FieldState::Unwrapped(v) => StateV::UnwrappedV(v@),
        FieldState::Payload(o) => StateV::PayloadV(
            match o {
                Option::None => Option::None,
                Option::Some(j) => Option::Some(j@),
            },
        ),
        FieldState::NestedSub(o) => StateV::NestedV(
            match o {
                Option::None => Option::None,
                Option::Some(c) => Option::Some(companion_view(c)),
            },
        ),
    }
}

/// The ghost model of one companion field.
pub open spec fn cfield_view(f: CompanionField) -> CFieldV
    decreases f,
{
    CFieldV { name: f.name@, state: state_view(f.state) }
}

/// The ghost model of a companion field list, element for element.
pub open spec fn cfields_view(s: Seq<CompanionField>) -> Seq<CFieldV>
    decreases s,
{
    if s.len() == 0 {
        Seq::empty()
    } else {
        cfields_view(s.drop_last()).push(cfield_view(s.last()))
    }
}

/// The ghost model of a companion record.
pub open spec fn companion_view(c: Companion) -> CompanionV
    decreases c,
{
    CompanionV { fields: cfields_view(c.fields@) }
}

impl View for FieldState {
    type V = StateV;

    open spec fn view(&self) -> StateV {
        state_view(*self)
    }
}

impl View for CompanionField {
    type V = CFieldV;

    open spec fn view(&self) -> CFieldV {
        cfield_view(*self)
    }
}

impl View for Companion {
    type V = CompanionV;

    open spec fn view(&self) -> CompanionV {
        companion_view(*self)
    }
}

/// A companion field list's model has one element per field.
pub broadcast proof fn lemma_cfields_view_len(s: Seq<CompanionField>)
    ensures
        (#[trigger] cfields_view(s)).len() == s.len(),
    decreases s,
{
    if s.len() > 0 {
        lemma_cfields_view_len(s.drop_last());
    }
}

/// A companion field list's model is the model of each field, in order.
pub broadcast proof fn lemma_cfields_view_index(s: Seq<CompanionField>, i: int)
    requires
        0 <= i < s.len(),
    ensures
        #[trigger] cfields_view(s)[i] == cfield_view(s[i]),
    decreases s,
{
    lemma_cfields_view_len(s.drop_last());
    if i < s.len() - 1 {
        lemma_cfields_view_index(s.drop_last(), i);
    }
}

/// Whether a state would update something when applied: a wrapped,
/// payload or nested field is present, an unwrapped field is not its
/// type's default.
pub open spec fn state_present(s: StateV) -> bool {
    match s {
        StateV::WrappedV(o) => o is Some,
        StateV::UnwrappedV(u) => !is_default(u),
        StateV::PayloadV(o) => o is Some,
        StateV::NestedV(o) => o is Some,
    }
}

/// Whether every field of a companion is in its no-update state.
pub open spec fn empty_v(c: CompanionV) -> bool {
    forall|i: int| 0 <= i < c.fields.len() ==> !state_present(#[trigger] c.fields[i].state)
}

/// The number of fields not in their no-update state.
pub open spec fn count_v(fs: Seq<CFieldV>) -> nat
    decreases fs,
{
    if fs.len() == 0 {
        0
    } else {
        count_v(fs.drop_last()) + if state_present(fs.last().state) {
            1nat
        } else {
            0nat
        }
    }
}

/// The no-update state of a state's kind.
pub open spec fn cleared_state(s: StateV) -> StateV {
    match s {
        StateV::WrappedV(_) => StateV::WrappedV(Option::None),
        StateV::UnwrappedV(u) => StateV::UnwrappedV(default_of(u)),
        StateV::PayloadV(_) => StateV::PayloadV(Option::None),
        StateV::NestedV(_) => StateV::NestedV(Option::None),
    }
}

/// Each field reset to its no-update state, keeping names and order.
pub open spec fn cleared_fields(fs: Seq<CFieldV>) -> Seq<CFieldV>
    decreases fs,
{
    if fs.len() == 0 {
        Seq::empty()
    } else {
        cleared_fields(fs.drop_last()).push(
            CFieldV { name: fs.last().name, state: cleared_state(fs.last().state) },
        )
    }
}

/// A cleared field list has one element per field.
pub broadcast proof fn lemma_cleared_fields_len(fs: Seq<CFieldV>)
    ensures
        (#[trigger] cleared_fields(fs)).len() == fs.len(),
    decreases fs,
{
    if fs.len() > 0 {
        lemma_cleared_fields_len(fs.drop_last());
    }
}

/// A cleared field list clears each field, in order.
pub broadcast proof fn lemma_cleared_fields_index(fs: Seq<CFieldV>, i: int)
    requires
        0 <= i < fs.len(),
    ensures
        #[trigger] cleared_fields(fs)[i] == (CFieldV {
            name: fs[i].name,
            state: cleared_state(fs[i].state),
        }),
    decreases fs,
{
    lemma_cleared_fields_len(fs.drop_last());
    if i < fs.len() - 1 {
        lemma_cleared_fields_index(fs.drop_last(), i);
    }
}

/// The companion with every field reset to its no-update state.
pub open spec fn cleared_v(c: CompanionV) -> CompanionV {
    CompanionV { fields: cleared_fields(c.fields) }
}

/// The position of the first companion field with the given name, or -1.
pub open spec fn find_cfield(fs: Seq<CFieldV>, name: Seq<char>) -> int
    decreases fs,
{
    if fs.len() == 0 {
        -1
    } else if fs[0].name == name {
        0
    } else {
        let r = find_cfield(fs.drop_first(), name);
        if r < 0 {
            -1
        } else {
            r + 1
        }
    }
}

/// Where there is no field with the name, the position is -1.
pub proof fn lemma_find_cfield_none(fs: Seq<CFieldV>, name: Seq<char>)
    requires
        forall|i: int| 0 <= i < fs.len() ==> (#[trigger] fs[i]).name != name,
    ensures
        find_cfield(fs, name) == -1,
    decreases fs,
{
    if fs.len() > 0 {
        lemma_find_cfield_none(fs.drop_first(), name);
    }
}

/// The position of the first field whose name matches.
pub proof fn lemma_find_cfield_at(fs: Seq<CFieldV>, name: Seq<char>, i: int)
    requires
        0 <= i < fs.len(),
        fs[i].name == name,
        forall|j: int| 0 <= j < i ==> (#[trigger] fs[j]).name != name,
    ensures
        find_cfield(fs, name) == i,
    decreases fs,
{
    if i > 0 {
        lemma_find_cfield_at(fs.drop_first(), name, i - 1);
    }
}

/// A found position lies in the list, matches the name, and is the first
/// that does.
pub proof fn lemma_find_cfield_found(fs: Seq<CFieldV>, name: Seq<char>)
    requires
        find_cfield(fs, name) != -1,
    ensures
        0 <= find_cfield(fs, name) < fs.len(),
        fs[find_cfield(fs, name)].name == name,
        forall|j: int| 0 <= j < find_cfield(fs, name) ==> (#[trigger] fs[j]).name != name,
    decreases fs,
{
    if fs.len() > 0 && fs[0].name != name {
        lemma_find_cfield_found(fs.drop_first(), name);
        assert forall|j: int| 0 <= j < find_cfield(fs, name) implies (#[trigger] fs[j]).name
            != name by {
            if j > 0 {
                assert(fs[j] == fs.drop_first()[j - 1]);
            }
        }
    }
}

/// Whether the named field exists and is not in its no-update state.
pub open spec fn has_field_v(c: CompanionV, name: Seq<char>) -> bool {
    let k = find_cfield(c.fields, name);
    k >= 0 && state_present(c.fields[k].state)
}

/// Whether applying one state would alter the given target value: a
/// present wrapped value that differs, a non-default unwrapped value that
/// differs, a present payload that differs from the target's encoding, or
/// a present nested companion that would change the sub-record.
pub open spec fn state_changes(s: StateV, v: ValV) -> bool
    decreases v, 1int,
{
    match s {
        StateV::WrappedV(o) => match o {
            Option::None => false,
            Option::Some(w) => w != v,
        },
        StateV::UnwrappedV(u) => !is_default(u) && u != v,
        StateV::PayloadV(o) => match o {
            Option::None => false,
            Option::Some(j) => j != enc(v),
        },
        StateV::NestedV(o) => match o {
            Option::None => false,
            Option::Some(c2) => changes_v(c2, v),
        },
    }
}

/// Whether some target field would be altered.
pub open spec fn changes_fields(c: CompanionV, ts: Seq<FieldV>) -> bool
    decreases ts, 2int,
{
    if ts.len() == 0 {
        false
    } else {
        let k = find_cfield(c.fields, ts[0].name);
        (k >= 0 && state_changes(c.fields[k].state, ts[0].value)) || changes_fields(
            c,
            ts.drop_first(),
        )
    }
}

/// Whether applying the companion would alter the target record.
pub open spec fn changes_v(c: CompanionV, t: ValV) -> bool
    decreases t, 0int,
{
    match t {
        ValV::RecordV(ts) => changes_fields(c, ts),
        _ => false,
    }
}

/// The companion's field for the given target field would alter it.
pub open spec fn elem_changes(c: CompanionV, f: FieldV) -> bool {
    let k = find_cfield(c.fields, f.name);
    k >= 0 && state_changes(c.fields[k].state, f.value)
}

/// A companion changes a field list exactly when it changes some field.
pub proof fn lemma_changes_fields_iff(c: CompanionV, ts: Seq<FieldV>)
    ensures
        changes_fields(c, ts) == exists|i: int| 0 <= i < ts.len() && elem_changes(c, #[trigger] ts[i]),
    decreases ts,
{
    if ts.len() > 0 {
        lemma_changes_fields_iff(c, ts.drop_first());
        if changes_fields(c, ts) {
            if elem_changes(c, ts[0]) {
                assert(0 <= 0 < ts.len() && elem_changes(c, ts[0]));
            } else {
                let i = choose|i: int|
                    0 <= i < ts.drop_first().len() && elem_changes(c, #[trigger] ts.drop_first()[i]);
                assert(ts.drop_first()[i] == ts[i + 1]);
            }
        } else {
            assert forall|i: int| 0 <= i < ts.len() implies !elem_changes(c, #[trigger] ts[i]) by {
                if i > 0 {
                    assert(ts[i] == ts.drop_first()[i - 1]);
                }
            }
        }
    }
}

/// The result of applying one state to a target value: an absent state
/// keeps the value; a present wrapped or non-default unwrapped value
/// replaces it; a present payload decodes into it; a present nested
/// companion applies recursively.  `None` reports a payload that does not
/// decode, or a nested companion over a target that is not a record.
pub open spec fn apply_state(s: StateV, v: ValV) -> Option<ValV>
    decreases v, 1int,
{
    match s {
        StateV::WrappedV(o) => match o {
            Option::None => Option::Some(v),
            Option::Some(w) => Option::Some(w),
        },
        StateV::UnwrappedV(u) => if is_default(u) {
            Option::Some(v)
        } else {
            Option::Some(u)
        },
        StateV::PayloadV(o) => match o {
            Option::None => Option::Some(v),
            Option::Some(j) => dec(j, v),
        },
        StateV::NestedV(o) => match o {
            Option::None => Option::Some(v),
            Option::Some(c2) => apply_v(c2, v),
        },
    }
}

/// The result of applying the companion to each target field: a target
/// field without a companion field is kept as it is.
pub open spec fn apply_fields(c: CompanionV, ts: Seq<FieldV>) -> Option<Seq<FieldV>>
    decreases ts, 2int,
{
    if ts.len() == 0 {
        Option::Some(Seq::empty())
    } else {
        let k = find_cfield(c.fields, ts[0].name);
        let hd = if k < 0 {
            Option::Some(ts[0].value)
        } else {
            apply_state(c.fields[k].state, ts[0].value)
        };
        match hd {
            Option::Some(v) => match apply_fields(c, ts.drop_first()) {
                Option::Some(rest) => Option::Some(
                    seq![FieldV { name: ts[0].name, value: v }] + rest,
                ),
                Option::None => Option::None,
            },
            Option::None => Option::None,
        }
    }
}

/// The result of applying the companion to a target record.
pub open spec fn apply_v(c: CompanionV, t: ValV) -> Option<ValV>
    decreases t, 0int,
{
    match t {
        ValV::RecordV(ts) => match apply_fields(c, ts) {
            Option::Some(vs) => Option::Some(ValV::RecordV(vs)),
            Option::None => Option::None,
        },
        _ => Option::None,
    }
}

/// One target field applies pointwise to the given output.
pub open spec fn elem_apply_ok(c: CompanionV, f: FieldV, out: FieldV) -> bool {
    let k = find_cfield(c.fields, f.name);
    &&& out.name == f.name
    &&& if k < 0 {
        out.value == f.value
    } else {
        apply_state(c.fields[k].state, f.value) == Option::Some(out.value)
    }
}

/// One target field fails to apply.
pub open spec fn elem_apply_fails(c: CompanionV, f: FieldV) -> bool {
    let k = find_cfield(c.fields, f.name);
    k >= 0 && apply_state(c.fields[k].state, f.value) is None
}

/// Where every target field applies pointwise to the output, the whole
/// record applies to the output.
pub proof fn lemma_apply_fields_pointwise(c: CompanionV, ts: Seq<FieldV>, out: Seq<FieldV>)
    requires
        out.len() == ts.len(),
        forall|i: int| 0 <= i < ts.len() ==> elem_apply_ok(c, #[trigger] ts[i], out[i]),
    ensures
        apply_fields(c, ts) == Option::Some(out),
    decreases ts,
{
    if ts.len() == 0 {
        assert(out =~= Seq::<FieldV>::empty());
    } else {
        assert(elem_apply_ok(c, ts[0], out[0]));
        lemma_apply_fields_pointwise(c, ts.drop_first(), out.drop_first());
        assert(seq![FieldV { name: ts[0].name, value: out[0].value }] + out.drop_first() =~= out);
    }
}

/// Where some target field fails to apply, the whole record fails.
pub proof fn lemma_apply_fields_fail(c: CompanionV, ts: Seq<FieldV>, i: int)
    requires
        0 <= i < ts.len(),
        elem_apply_fails(c, ts[i]),
    ensures
        apply_fields(c, ts) is None,
    decreases ts,
{
    if i > 0 {
        lemma_apply_fields_fail(c, ts.drop_first(), i - 1);
    }
}

/// Whether two states are of the same kind.
pub open spec fn same_kind(a: StateV, b: StateV) -> bool {
    match (a, b) {
        (StateV::WrappedV(_), StateV::WrappedV(_)) => true,
        (StateV::UnwrappedV(_), StateV::UnwrappedV(_)) => true,
        (StateV::PayloadV(_), StateV::PayloadV(_)) => true,
        (StateV::NestedV(_), StateV::NestedV(_)) => true,
        _ => false,
    }
}

/// Whether two companions are for the same declaration: the same field
/// names and kinds, in the same order.
pub open spec fn congruent(a: CompanionV, b: CompanionV) -> bool {
    &&& a.fields.len() == b.fields.len()
    &&& forall|i: int|
        0 <= i < a.fields.len() ==> (#[trigger] a.fields[i]).name == b.fields[i].name && same_kind(
            a.fields[i].state,
            b.fields[i].state,
        )
}

/// The field-wise combination of two states: the right state wins where
/// it is present (or, for an unwrapped field, not the default), the left
/// is kept otherwise.
pub open spec fn merge_state(a: StateV, b: StateV) -> StateV {
    match (a, b) {
        (StateV::WrappedV(x), StateV::WrappedV(y)) => StateV::WrappedV(
            if y is Some {
                y
            } else {
                x
            },
        ),
        (StateV::UnwrappedV(x), StateV::UnwrappedV(y)) => StateV::UnwrappedV(
            if !is_default(y) {
                y
            } else {
                x
            },
        ),
        (StateV::PayloadV(x), StateV::PayloadV(y)) => StateV::PayloadV(
            if y is Some {
                y
            } else {
                x
            },
        ),
        (StateV::NestedV(x), StateV::NestedV(y)) => StateV::NestedV(
            if y is Some {
                y
            } else {
                x
            },
        ),
        _ => a,
    }
}

/// The field-wise combination of two congruent field lists.
pub open spec fn merge_fields(a: Seq<CFieldV>, b: Seq<CFieldV>) -> Seq<CFieldV>
    decreases a,
{
    if a.len() == 0 {
        Seq::empty()
    } else {
        merge_fields(a.drop_last(), b.drop_last()).push(
            CFieldV { name: a.last().name, state: merge_state(a.last().state, b.last().state) },
        )
    }
}

/// A merged field list has one element per field.
pub broadcast proof fn lemma_merge_fields_len(a: Seq<CFieldV>, b: Seq<CFieldV>)
    ensures
        (#[trigger] merge_fields(a, b)).len() == a.len(),
    decreases a,
{
    if a.len() > 0 {
        lemma_merge_fields_len(a.drop_last(), b.drop_last());
    }
}

/// A merged field list merges each field pair, in order.
pub broadcast proof fn lemma_merge_fields_index(a: Seq<CFieldV>, b: Seq<CFieldV>, i: int)
    requires
        a.len() == b.len(),
        0 <= i < a.len(),
    ensures
        #[trigger] merge_fields(a, b)[i] == (CFieldV {
            name: a[i].name,
            state: merge_state(a[i].state, b[i].state),
        }),
    decreases a,
{
    lemma_merge_fields_len(a.drop_last(), b.drop_last());
    if i < a.len() - 1 {
        lemma_merge_fields_index(a.drop_last(), b.drop_last(), i);
    }
}

/// The field-wise combination of two congruent companions.
pub open spec fn merge_v(a: CompanionV, b: CompanionV) -> CompanionV {
    CompanionV { fields: merge_fields(a.fields, b.fields) }
}

/// The fields of a record value; an empty list for any other value.
pub open spec fn record_fields(t: ValV) -> Seq<FieldV> {
    match t {
        ValV::RecordV(fs) => fs,
        _ => Seq::empty(),
    }
}

/// Whether a source record value carries every field a companion
/// declaration retains.
pub open spec fn decl_source_compat(d: crate::generator::DeclV, t: ValV) -> bool {
    &&& t is RecordV
    &&& forall|i: int|
        0 <= i < d.fields.len() ==> crate::value::find_field(
            record_fields(t),
            (#[trigger] d.fields[i]).name,
        ) >= 0
}

/// The initial state of one companion field built from a source record:
/// wrapped and nested fields start absent, an unwrapped field starts at
/// its type's default (the default of the source value's shape), and a
/// payload field either snapshots the source value's encoding or starts
/// absent.
pub open spec fn init_state(
    storage: crate::processor::fields::StorageVw,
    sv: ValV,
    snapshot: bool,
) -> StateV {
    match storage {
        crate::processor::fields::StorageVw::WrapW(_) => StateV::WrappedV(Option::None),
        crate::processor::fields::StorageVw::WrapOptionW(_) => StateV::WrappedV(Option::None),
        crate::processor::fields::StorageVw::BareW(_) => StateV::UnwrappedV(default_of(sv)),
        crate::processor::fields::StorageVw::PayloadW => StateV::PayloadV(
            if snapshot {
                Option::Some(enc(sv))
            } else {
                Option::None
            },
        ),
        crate::processor::fields::StorageVw::NestedW(_) => StateV::NestedV(Option::None),
    }
}

/// The companion fields built from a declaration and a source record:
/// one per declared field, in order, each from the source field with its
/// name (a missing source field, which a compatible source never has,
/// contributes an absent wrapped state).
pub open spec fn init_fields(
    ds: Seq<crate::processor::fields::CFDeclV>,
    ts: Seq<FieldV>,
    snapshot: bool,
) -> Seq<CFieldV>
    decreases ds,
{
    if ds.len() == 0 {
        Seq::empty()
    } else {
        let d = ds.last();
        let k = crate::value::find_field(ts, d.name);
        init_fields(ds.drop_last(), ts, snapshot).push(
            CFieldV {
                name: d.name,
                state: if k >= 0 {
                    init_state(d.storage, ts[k].value, snapshot)
                } else {
                    StateV::WrappedV(Option::None)
                },
            },
        )
    }
}

/// An initial field list has one element per declared field.
pub broadcast proof fn lemma_init_fields_len(
    ds: Seq<crate::processor::fields::CFDeclV>,
    ts: Seq<FieldV>,
    snapshot: bool,
)
    ensures
        (#[trigger] init_fields(ds, ts, snapshot)).len() == ds.len(),
    decreases ds,
{
    if ds.len() > 0 {
        lemma_init_fields_len(ds.drop_last(), ts, snapshot);
    }
}

/// An initial field list initializes each declared field, in order.
pub broadcast proof fn lemma_init_fields_index(
    ds: Seq<crate::processor::fields::CFDeclV>,
    ts: Seq<FieldV>,
    snapshot: bool,
    i: int,
)
    requires
        0 <= i < ds.len(),
    ensures
        #[trigger] init_fields(ds, ts, snapshot)[i] == (CFieldV {
            name: ds[i].name,
            state: if crate::value::find_field(ts, ds[i].name) >= 0 {
                init_state(ds[i].storage, ts[crate::value::find_field(ts, ds[i].name)].value, snapshot)
            } else {
                StateV::WrappedV(Option::None)
            },
        }),
    decreases ds,
{
    lemma_init_fields_len(ds.drop_last(), ts, snapshot);
    if i < ds.len() - 1 {
        lemma_init_fields_index(ds.drop_last(), ts, snapshot, i);
    }
}

/// The default value of a declared type, where the descriptor alone
/// determines it: a record's fields, a floating-point value or an
/// unnameable type cannot be defaulted from the descriptor.
pub open spec fn default_for_type(ty: crate::processor::fields::TypeDesc) -> Option<ValV> {
    match ty {
        crate::processor::fields::TypeDesc::BoolDesc => Option::Some(ValV::BoolV(false)),
        crate::processor::fields::TypeDesc::IntDesc { .. } => Option::Some(ValV::IntV(0)),
        crate::processor::fields::TypeDesc::FloatDesc { .. } => Option::None,
        crate::processor::fields::TypeDesc::TextDesc => Option::Some(ValV::TextV(Seq::empty())),
        crate::processor::fields::TypeDesc::JsonDesc => Option::Some(ValV::JsonV(JVal::NullJ)),
        crate::processor::fields::TypeDesc::OptionDesc(_) => Option::Some(
            ValV::OptV(Option::None),
        ),
        crate::processor::fields::TypeDesc::RecordDesc { .. } => Option::None,
        crate::processor::fields::TypeDesc::OtherDesc => Option::None,
    }
}

/// The no-update state of one declared field, where the declaration
/// alone determines it.
pub open spec fn default_state_of(storage: crate::processor::fields::StorageVw) -> Option<StateV> {
    match storage {
        crate::processor::fields::StorageVw::WrapW(_) => Option::Some(
            StateV::WrappedV(Option::None),
        ),
        crate::processor::fields::StorageVw::WrapOptionW(_) => Option::Some(
            StateV::WrappedV(Option::None),
        ),
        crate::processor::fields::StorageVw::BareW(ty) => match default_for_type(ty) {
            Option::Some(v) => Option::Some(StateV::UnwrappedV(v)),
            Option::None => Option::None,
        },
        crate::processor::fields::StorageVw::PayloadW => Option::Some(
            StateV::PayloadV(Option::None),
        ),
        crate::processor::fields::StorageVw::NestedW(_) => Option::Some(
            StateV::NestedV(Option::None),
        ),
    }
}

/// The all-absent companion of a declaration, where every declared field
/// can be defaulted from the declaration alone.
pub open spec fn default_fields_of(ds: Seq<crate::processor::fields::CFDeclV>) -> Option<
    Seq<CFieldV>,
>
    decreases ds,
{
    if ds.len() == 0 {
        Option::Some(Seq::empty())
    } else {
        match (default_fields_of(ds.drop_last()), default_state_of(ds.last().storage)) {
            (Option::Some(rest), Option::Some(st)) => Option::Some(
                rest.push(CFieldV { name: ds.last().name, state: st }),
            ),
            _ => Option::None,
        }
    }
}

/// Once some prefix cannot be defaulted, the whole list cannot.
proof fn lemma_default_fields_of_none(ds: Seq<crate::processor::fields::CFDeclV>, i: int)
    requires
        0 <= i <= ds.len(),
        default_fields_of(ds.take(i)) is None,
    ensures
        default_fields_of(ds) is None,
    decreases ds.len() - i,
{
    if i == ds.len() {
        assert(ds.take(i) =~= ds);
    } else {
        assert(ds.take(i + 1).drop_last() =~= ds.take(i));
        lemma_default_fields_of_none(ds, i + 1);
    }
}

/// The joined rendering of exported entries, comma-separated.
pub open spec fn entries_join(ps: Seq<(Seq<char>, Seq<char>)>) -> Seq<char>
    decreases ps,
{
    if ps.len() == 0 {
        Seq::empty()
    } else {
        entries_join(ps.drop_last()) + (if ps.len() == 1 {
            Seq::<char>::empty()
        } else {
            ", "@
        }) + ps.last().0 + ": "@ + ps.last().1
    }
}

/// The rendering of one set field's value in the export: wrapped and
/// unwrapped values render as values, payloads as their serialized text,
/// and a nested companion as its own export's rendering.
pub open spec fn state_render(s: StateV) -> Seq<char>
    decreases s,
{
    match s {
        StateV::WrappedV(o) => match o {
            Option::Some(v) => crate::render::render_of(v),
            Option::None => Seq::empty(),
        },
        StateV::UnwrappedV(u) => crate::render::render_of(u),
        StateV::PayloadV(o) => match o {
            Option::Some(j) => crate::render::json_render(j),
            Option::None => Seq::empty(),
        },
        StateV::NestedV(o) => match o {
            Option::Some(c) => partial_render(c),
            Option::None => Seq::empty(),
        },
    }
}

/// The exported entries: one (name, rendered value) pair per set field,
/// in declaration order.
pub open spec fn partial_entries(fs: Seq<CFieldV>) -> Seq<(Seq<char>, Seq<char>)>
    decreases fs,
{
    if fs.len() == 0 {
        Seq::empty()
    } else {
        partial_entries(fs.drop_last()) + (if state_present(fs.last().state) {
            seq![(fs.last().name, state_render(fs.last().state))]
        } else {
            Seq::empty()
        })
    }
}

/// The rendering of a whole companion's export.
pub open spec fn partial_render(c: CompanionV) -> Seq<char>
    decreases c,
{
    "{"@ + entries_join(partial_entries(c.fields)) + "}"@
}

/// A run-time failure of applying a companion to a target.
#[derive(Debug, PartialEq)]
pub enum UpdateError {
    /// A structured payload did not decode at the target field's shape.
    PayloadDecode,
}

/// Finds the first companion field with the given name.
pub fn find_companion_index(fs: &Vec<CompanionField>, name: &String) -> (r: Option<usize>)
    ensures
        match r {
            Option::Some(k) => find_cfield(cfields_view(fs@), name@) == k as int,
            Option::None => find_cfield(cfields_view(fs@), name@) == -1,
        },
{
    proof {
        lemma_cfields_view_len(fs@);
    }
    let n = fs.len();
    let mut i: usize = 0;
    while i < n
        invariant
            n == fs@.len(),
            i <= n,
            cfields_view(fs@).len() == n,
            forall|j: int| 0 <= j < i ==> (#[trigger] cfields_view(fs@)[j]).name != name@,
        decreases n - i,
    {
        proof {
            lemma_cfields_view_index(fs@, i as int);
        }
        if crate::value::string_eq(&fs[i].name, name) {
            proof {
                lemma_find_cfield_at(cfields_view(fs@), name@, i as int);
            }
            return Option::Some(i);
        }
        i = i + 1;
    }
    proof {
        lemma_find_cfield_none(cfields_view(fs@), name@);
    }
    Option::None
}

/// Produces an update state with the same model as the given one.
pub fn state_dup(s: &FieldState) -> (r: FieldState)
    ensures
        r@ == s@,
    decreases *s,
{
    match s {
        FieldState::Wrapped(o) => FieldState::Wrapped(
            match o {
                Option::None => Option::None,
                Option::Some(v) => Option::Some(crate::value::value_dup(v)),
            },
        ),
        FieldState::Unwrapped(v) => FieldState::Unwrapped(crate::value::value_dup(v)),
        FieldState::Payload(o) => FieldState::Payload(
            match o {
                Option::None => Option::None,
                Option::Some(j) => Option::Some(crate::value::json_dup(j)),
            },
        ),
        FieldState::NestedSub(o) => FieldState::NestedSub(
            match o {
                Option::None => Option::None,
                Option::Some(c) => Option::Some(companion_dup(c)),
            },
        ),
    }
}

/// Produces a companion with the same model as the given one.
pub fn companion_dup(c: &Companion) -> (r: Companion)
    ensures
        r@ == c@,
    decreases *c,
{
    Companion { fields: cfields_dup(&c.fields) }
}

/// Produces a companion field list with the same model as the given one.
pub fn cfields_dup(fs: &Vec<CompanionField>) -> (r: Vec<CompanionField>)
    ensures
        cfields_view(r@) == cfields_view(fs@),
    decreases fs@,
{
    proof {
        lemma_cfields_view_len(fs@);
    }
    let n = fs.len();
    let mut r: Vec<CompanionField> = Vec::new();
    let mut i: usize = 0;
    while i < n
        invariant
            n == fs@.len(),
            i <= n,
            r@.len() == i,
            cfields_view(fs@).len() == n,
            cfields_view(r@).len() == i,
            forall|j: int| 0 <= j < i ==> cfields_view(r@)[j] == cfields_view(fs@)[j],
        decreases n - i,
    {
        let f = CompanionField { name: fs[i].name.clone(), state: state_dup(&fs[i].state) };
        proof {
            lemma_cfields_view_index(fs@, i as int);
            lemma_cfields_view_len(r@.push(f));
            assert(r@.push(f).drop_last() =~= r@);
            assert forall|j: int| 0 <= j < i + 1 implies cfields_view(r@.push(f))[j]
                == cfields_view(fs@)[j] by {
                lemma_cfields_view_index(r@.push(f), j);
                if j < i {
                    lemma_cfields_view_index(r@, j);
                }
            }
        }
        r.push(f);
        i = i + 1;
    }
    proof {
        assert(cfields_view(r@) =~= cfields_view(fs@));
    }
    r
}

/// Decides whether applying one state would alter the given target value.
pub fn state_would_change(s: &FieldState, v: &Value) -> (r: bool)
    ensures
        r == state_changes(s@, v@),
    decreases *v, 1int,
{
    match s {
        FieldState::Wrapped(o) => match o {
            Option::None => false,
            Option::Some(w) => !crate::value::value_eq(w, v),
        },
        FieldState::Unwrapped(u) => {
            if crate::value::is_default_value(u) {
                false
            } else {
                !crate::value::value_eq(u, v)
            }
        },
        FieldState::Payload(o) => match o {
            Option::None => false,
            Option::Some(j) => {
                let ev = crate::codec::encode(v);
                !crate::value::json_eq(j, &ev)
            },
        },
        FieldState::NestedSub(o) => match o {
            Option::None => false,
            Option::Some(c2) => match v {
                Value::RecordV(ts) => changes_fields_exec(c2, ts),
                _ => false,
            },
        },
    }
}

/// Decides whether the companion would alter some of the target fields.
pub fn changes_fields_exec(c: &Companion, ts: &Vec<FieldVal>) -> (r: bool)
    ensures
        r == changes_fields(c@, crate::value::fields_view(ts@)),
    decreases ts@, 2int,
{
    proof {
        crate::value::lemma_fields_view_len(ts@);
        lemma_changes_fields_iff(c@, crate::value::fields_view(ts@));
    }
    let n = ts.len();
    let mut i: usize = 0;
    while i < n
        invariant
            n == ts@.len(),
            i <= n,
            crate::value::fields_view(ts@).len() == n,
            forall|j: int| 0 <= j < i ==> !elem_changes(
                c@,
                #[trigger] crate::value::fields_view(ts@)[j],
            ),
        decreases n - i,
    {
        proof {
            crate::value::lemma_fields_view_index(ts@, i as int);
        }
        match find_companion_index(&c.fields, &ts[i].name) {
            Option::Some(k) => {
                proof {
                    lemma_cfields_view_len(c.fields@);
                    lemma_find_cfield_found(cfields_view(c.fields@), ts@[i as int].name@);
                    lemma_cfields_view_index(c.fields@, k as int);
                }
                if state_would_change(&c.fields[k].state, &ts[i].value) {
                    proof {
                        assert(elem_changes(c@, crate::value::fields_view(ts@)[i as int]));
                        lemma_changes_fields_iff(c@, crate::value::fields_view(ts@));
                    }
                    return true;
                }
            },
            Option::None => {
            },
        }
        i = i + 1;
    }
    proof {
        lemma_changes_fields_iff(c@, crate::value::fields_view(ts@));
    }
    false
}

/// Applies one state to a target value; `None` reports a payload that
/// does not decode, or a nested companion over a target that is not a
/// record.
pub fn apply_state_exec(s: &FieldState, v: &Value) -> (r: Option<Value>)
    ensures
        match r {
            Option::Some(w) => apply_state(s@, v@) == Option::Some(w@),
            Option::None => apply_state(s@, v@) is None,
        },
    decreases *v, 1int,
{
    match s {
        FieldState::Wrapped(o) => match o {
            Option::None => Option::Some(crate::value::value_dup(v)),
            Option::Some(w) => Option::Some(crate::value::value_dup(w)),
        },
        FieldState::Unwrapped(u) => {
            if crate::value::is_default_value(u) {
                Option::Some(crate::value::value_dup(v))
            } else {
                Option::Some(crate::value::value_dup(u))
            }
        },
        FieldState::Payload(o) => match o {
            Option::None => Option::Some(crate::value::value_dup(v)),
            Option::Some(j) => crate::codec::decode(j, v),
        },
        FieldState::NestedSub(o) => match o {
            Option::None => Option::Some(crate::value::value_dup(v)),
            Option::Some(c2) => match v {
                Value::RecordV(ts) => match apply_fields_exec(c2, ts) {
                    Option::Some(vs) => Option::Some(Value::RecordV(vs)),
                    Option::None => Option::None,
                },
                _ => Option::None,
            },
        },
    }
}

/// Applies the companion to each target field; `None` reports a failing
/// field.
pub fn apply_fields_exec(c: &Companion, ts: &Vec<FieldVal>) -> (r: Option<Vec<FieldVal>>)
    ensures
        match r {
            Option::Some(vs) => apply_fields(c@, crate::value::fields_view(ts@)) == Option::Some(
                crate::value::fields_view(vs@),
            ),
            Option::None => apply_fields(c@, crate::value::fields_view(ts@)) is None,
        },
    decreases ts@, 2int,
{
    proof {
        crate::value::lemma_fields_view_len(ts@);
    }
    let n = ts.len();
    let mut out: Vec<FieldVal> = Vec::new();
    let mut i: usize = 0;
    while i < n
        invariant
            n == ts@.len(),
            i <= n,
            out@.len() == i,
            crate::value::fields_view(ts@).len() == n,
            crate::value::fields_view(out@).len() == i,
            forall|j: int| 0 <= j < i ==> elem_apply_ok(
                c@,
                #[trigger] crate::value::fields_view(ts@)[j],
                crate::value::fields_view(out@)[j],
            ),
        decreases n - i,
    {
        proof {
            crate::value::lemma_fields_view_index(ts@, i as int);
        }
        let w = match find_companion_index(&c.fields, &ts[i].name) {
            Option::None => crate::value::value_dup(&ts[i].value),
            Option::Some(k) => {
                proof {
                    lemma_cfields_view_len(c.fields@);
                    lemma_find_cfield_found(cfields_view(c.fields@), ts@[i as int].name@);
                    lemma_cfields_view_index(c.fields@, k as int);
                }
                match apply_state_exec(&c.fields[k].state, &ts[i].value) {
                    Option::Some(w) => w,
                    Option::None => {
                        proof {
                            lemma_apply_fields_fail(
                                c@,
                                crate::value::fields_view(ts@),
                                i as int,
                            );
                        }
                        return Option::None;
                    },
                }
            },
        };
        let f = FieldVal { name: ts[i].name.clone(), value: w };
        proof {
            crate::value::lemma_fields_view_len(out@.push(f));
            assert(out@.push(f).drop_last() =~= out@);
            assert forall|j: int| 0 <= j < i + 1 implies elem_apply_ok(
                c@,
                crate::value::fields_view(ts@)[j],
                crate::value::fields_view(out@.push(f))[j],
            ) by {
                crate::value::lemma_fields_view_index(out@.push(f), j);
                if j < i {
                    crate::value::lemma_fields_view_index(out@, j);
                }
            }
        }
        out.push(f);
        i = i + 1;
    }
    proof {
        lemma_apply_fields_pointwise(
            c@,
            crate::value::fields_view(ts@),
            crate::value::fields_view(out@),
        );
    }
    Option::Some(out)
}

/// Appends the rendering of one set field's value.
fn push_state(s: &FieldState, out: &mut String)
    ensures
        final(out)@ == old(out)@ + state_render(s@),
    decreases *s,
{
    match s {
        FieldState::Wrapped(o) => match o {
            Option::Some(v) => crate::render::push_value(v, out),
            Option::None => {
                proof {
                    assert(out@ + Seq::<char>::empty() =~= out@);
                }
            },
        },
        FieldState::Unwrapped(u) => crate::render::push_value(u, out),
        FieldState::Payload(o) => match o {
            Option::Some(j) => crate::render::push_json(j, out),
            Option::None => {
                proof {
                    assert(out@ + Seq::<char>::empty() =~= out@);
                }
            },
        },
        FieldState::NestedSub(o) => match o {
            Option::Some(c) => push_partial(c, out),
            Option::None => {
                proof {
                    assert(out@ + Seq::<char>::empty() =~= out@);
                }
            },
        },
    }
}

/// Appends the rendering of a companion's export.
fn push_partial(c: &Companion, out: &mut String)
    ensures
        final(out)@ == old(out)@ + partial_render(c@),
    decreases *c,
{
    out.append("{");
    push_partial_fields(&c.fields, out);
    out.append("}");
    proof {
        assert(old(out)@ + "{"@ + entries_join(partial_entries(cfields_view(c.fields@))) + "}"@
            =~= old(out)@ + partial_render(c@));
    }
}

/// Appends the joined renderings of the set fields.
fn push_partial_fields(fs: &Vec<CompanionField>, out: &mut String)
    ensures
        final(out)@ == old(out)@ + entries_join(partial_entries(cfields_view(fs@))),
    decreases fs@,
{
    proof {
        lemma_cfields_view_len(fs@);
        assert(partial_entries(cfields_view(fs@).take(0int)) =~= Seq::<(Seq<char>, Seq<char>)>::empty());
    }
    let n = fs.len();
    let mut first: bool = true;
    let mut i: usize = 0;
    while i < n
        invariant
            n == fs@.len(),
            i <= n,
            cfields_view(fs@).len() == n,
            first == (partial_entries(cfields_view(fs@).take(i as int)).len() == 0),
            out@ == old(out)@ + entries_join(partial_entries(cfields_view(fs@).take(i as int))),
        decreases n - i,
    {
        proof {
            lemma_cfields_view_index(fs@, i as int);
            assert(cfields_view(fs@).take(i as int + 1).drop_last() =~= cfields_view(fs@).take(
                i as int,
            ));
            assert(cfields_view(fs@).take(i as int + 1).last() == cfields_view(fs@)[i as int]);
        }
        let ghost prev = partial_entries(cfields_view(fs@).take(i as int));
        let ghost next = partial_entries(cfields_view(fs@).take(i as int + 1));
        if !Companion::state_is_absent(&fs[i].state) {
            proof {
                assert(next =~= prev + seq![
                    (
                        cfields_view(fs@)[i as int].name,
                        state_render(cfields_view(fs@)[i as int].state),
                    ),
                ]);
                assert(next.drop_last() =~= prev);
            }
            if !first {
                out.append(", ");
            }
            out.append(fs[i].name.as_str());
            out.append(": ");
            push_state(&fs[i].state, out);
            first = false;
            proof {
                if prev.len() == 0 {
                    assert(entries_join(prev) =~= Seq::<char>::empty());
                    assert(out@ =~= old(out)@ + entries_join(next));
                } else {
                    assert(out@ =~= old(out)@ + entries_join(next));
                }
            }
        } else {
            proof {
                assert(next =~= prev + Seq::<(Seq<char>, Seq<char>)>::empty());
                assert(next =~= prev);
            }
        }
        i = i + 1;
    }
    proof {
        assert(cfields_view(fs@).take(n as int) =~= cfields_view(fs@));
    }
}

impl Companion {
    /// Builds a companion from its field states, one per retained field,
    /// in declaration order.
    pub fn new(fields: Vec<CompanionField>) -> (c: Companion)
        ensures
            c.fields == fields,
    {
        Companion { fields }
    }

    /// Decides whether one state is in its no-update state.
    fn state_is_absent(s: &FieldState) -> (r: bool)
        ensures
            r == !state_present(s@),
    {
        match s {
            FieldState::Wrapped(o) => o.is_none(),
            FieldState::Unwrapped(v) => crate::value::is_default_value(v),
            FieldState::Payload(o) => o.is_none(),
            FieldState::NestedSub(o) => o.is_none(),
        }
    }

    /// True when no field would be changed by this update: every wrapped,
    /// payload and nested field is absent and every unwrapped field holds
    /// its type's default.
    pub fn is_empty(&self) -> (r: bool)
        ensures
            r == empty_v(self@),
    {
        proof {
            lemma_cfields_view_len(self.fields@);
        }
        let n = self.fields.len();
        let mut i: usize = 0;
        while i < n
            invariant
                n == self.fields@.len(),
                i <= n,
                cfields_view(self.fields@).len() == n,
                forall|j: int| 0 <= j < i ==> !state_present(
                    #[trigger] cfields_view(self.fields@)[j].state,
                ),
            decreases n - i,
        {
            proof {
                lemma_cfields_view_index(self.fields@, i as int);
            }
            if !Self::state_is_absent(&self.fields[i].state) {
                proof {
                    assert(state_present(self@.fields[i as int].state));
                }
                return false;
            }
            i = i + 1;
        }
        true
    }

    /// The number of fields that would change something when applied.
    pub fn field_count(&self) -> (r: usize)
        ensures
            r as nat == count_v(self@.fields),
    {
        proof {
            lemma_cfields_view_len(self.fields@);
        }
        let n = self.fields.len();
        let mut count: usize = 0;
        let mut i: usize = 0;
        while i < n
            invariant
                n == self.fields@.len(),
                i <= n,
                count <= i,
                cfields_view(self.fields@).len() == n,
                count as nat == count_v(cfields_view(self.fields@).take(i as int)),
            decreases n - i,
        {
            proof {
                lemma_cfields_view_index(self.fields@, i as int);
                assert(cfields_view(self.fields@).take(i + 1).drop_last() =~= cfields_view(
                    self.fields@,
                ).take(i as int));
                assert(cfields_view(self.fields@).take(i + 1).last() == cfields_view(
                    self.fields@,
                )[i as int]);
            }
            if !Self::state_is_absent(&self.fields[i].state) {
                count = count + 1;
            }
            i = i + 1;
        }
        proof {
            assert(cfields_view(self.fields@).take(n as int) =~= cfields_view(self.fields@));
        }
        count
    }

    /// Resets every field to its no-update state: wrapped, payload and
    /// nested fields become absent, unwrapped fields take their type's
    /// default.
    pub fn clear(&mut self)
        ensures
            final(self)@ == cleared_v(old(self)@),
    {
        proof {
            lemma_cfields_view_len(self.fields@);
            lemma_cleared_fields_len(cfields_view(self.fields@));
        }
        let n = self.fields.len();
        let mut r: Vec<CompanionField> = Vec::new();
        let mut i: usize = 0;
        while i < n
            invariant
                n == self.fields@.len(),
                i <= n,
                r@.len() == i,
                cfields_view(self.fields@).len() == n,
                cleared_fields(cfields_view(self.fields@)).len() == n,
                cfields_view(r@).len() == i,
                forall|j: int| 0 <= j < i ==> cfields_view(r@)[j] == cleared_fields(
                    cfields_view(self.fields@),
                )[j],
            decreases n - i,
        {
            let cleared = match &self.fields[i].state {
                FieldState::Wrapped(_) => FieldState::Wrapped(Option::None),
                FieldState::Unwrapped(v) => FieldState::Unwrapped(crate::value::default_value(v)),
                FieldState::Payload(_) => FieldState::Payload(Option::None),
                FieldState::NestedSub(_) => FieldState::NestedSub(Option::None),
            };
            let f = CompanionField { name: self.fields[i].name.clone(), state: cleared };
            proof {
                lemma_cfields_view_index(self.fields@, i as int);
                lemma_cleared_fields_index(cfields_view(self.fields@), i as int);
                lemma_cfields_view_len(r@.push(f));
                assert(r@.push(f).drop_last() =~= r@);
                assert forall|j: int| 0 <= j < i + 1 implies cfields_view(r@.push(f))[j]
                    == cleared_fields(cfields_view(self.fields@))[j] by {
                    lemma_cfields_view_index(r@.push(f), j);
                    if j < i {
                        lemma_cfields_view_index(r@, j);
                    }
                }
            }
            r.push(f);
            i = i + 1;
        }
        proof {
            assert(cfields_view(r@) =~= cleared_fields(cfields_view(self.fields@)));
        }
        self.fields = r;
    }

    /// Builds the no-change companion for a source record: wrapped and
    /// nested fields absent, unwrapped fields at their type's default,
    /// and every structured-payload field snapshotting the source field's
    /// current encoding — the one deliberate asymmetry, so that a later
    /// change check against a drifted source is meaningful.
    pub fn from_source(decl: &crate::generator::CompanionDecl, source: &Value) -> (c: Companion)
        requires
            decl_source_compat(decl@, source@),
        ensures
            c@.fields == init_fields(decl@.fields, record_fields(source@), true),
    {
        Self::init_from(decl, source, true)
    }

    /// Builds the all-default companion from an owned source record:
    /// every field starts in its no-update state, structured-payload
    /// fields included.
    pub fn from_owned(decl: &crate::generator::CompanionDecl, source: Value) -> (c: Companion)
        requires
            decl_source_compat(decl@, source@),
        ensures
            c@.fields == init_fields(decl@.fields, record_fields(source@), false),
    {
        Self::init_from(decl, &source, false)
    }

    /// Builds the initial companion for a source record.
    fn init_from(decl: &crate::generator::CompanionDecl, source: &Value, snapshot: bool) -> (c:
        Companion)
        requires
            decl_source_compat(decl@, source@),
        ensures
            c@.fields == init_fields(decl@.fields, record_fields(source@), snapshot),
    {
        let ts: &Vec<FieldVal> = match source {
            Value::RecordV(fs) => fs,
            _ => vstd::pervasive::unreached(),
        };
        proof {
            crate::processor::fields::lemma_cfdecls_view_len(decl.fields@);
            crate::value::lemma_fields_view_len(ts@);
            lemma_init_fields_len(decl@.fields, record_fields(source@), snapshot);
        }
        let n = decl.fields.len();
        let mut out: Vec<CompanionField> = Vec::new();
        let mut i: usize = 0;
        while i < n
            invariant
                n == decl.fields@.len(),
                decl_source_compat(decl@, source@),
                source@ == ValV::RecordV(crate::value::fields_view(ts@)),
                crate::value::fields_view(ts@).len() == ts@.len(),
                i <= n,
                out@.len() == i,
                decl@.fields.len() == n,
                init_fields(decl@.fields, record_fields(source@), snapshot).len() == n,
                cfields_view(out@).len() == i,
                forall|j: int| 0 <= j < i ==> cfields_view(out@)[j] == init_fields(
                    decl@.fields,
                    record_fields(source@),
                    snapshot,
                )[j],
            decreases n - i,
        {
            proof {
                crate::processor::fields::lemma_cfdecls_view_index(decl.fields@, i as int);
            }
            let k = match crate::value::find_field_index(ts, &decl.fields[i].name) {
                Option::Some(k) => k,
                Option::None => vstd::pervasive::unreached(),
            };
            proof {
                crate::value::lemma_find_field_found(
                    crate::value::fields_view(ts@),
                    decl.fields@[i as int].name@,
                );
                crate::value::lemma_fields_view_index(ts@, k as int);
            }
            let state = match &decl.fields[i].storage {
                crate::processor::fields::StorageTy::Wrap(_) => FieldState::Wrapped(Option::None),
                crate::processor::fields::StorageTy::WrapOption(_) => FieldState::Wrapped(
                    Option::None,
                ),
                crate::processor::fields::StorageTy::Bare(_) => FieldState::Unwrapped(
                    crate::value::default_value(&ts[k].value),
                ),
                crate::processor::fields::StorageTy::PayloadStorage => FieldState::Payload(
                    if snapshot {
                        Option::Some(crate::codec::encode(&ts[k].value))
                    } else {
                        Option::None
                    },
                ),
                crate::processor::fields::StorageTy::NestedStorage(_) => FieldState::NestedSub(
                    Option::None,
                ),
            };
            let f = CompanionField { name: decl.fields[i].name.clone(), state };
            proof {
                lemma_init_fields_index(
                    decl@.fields,
                    record_fields(source@),
                    snapshot,
                    i as int,
                );
                lemma_cfields_view_len(out@.push(f));
                assert(out@.push(f).drop_last() =~= out@);
                assert forall|j: int| 0 <= j < i + 1 implies cfields_view(out@.push(f))[j]
                    == init_fields(decl@.fields, record_fields(source@), snapshot)[j] by {
                    lemma_cfields_view_index(out@.push(f), j);
                    if j < i {
                        lemma_cfields_view_index(out@, j);
                    }
                }
            }
            out.push(f);
            i = i + 1;
        }
        proof {
            assert(cfields_view(out@) =~= init_fields(
                decl@.fields,
                record_fields(source@),
                snapshot,
            ));
        }
        Companion { fields: out }
    }

    /// Builds the all-absent companion of a declaration, where every
    /// declared field can be defaulted from the declaration alone: the
    /// default of a record-typed, floating-point or unnameable bare field
    /// is not determined by its descriptor.
    pub fn default_companion(decl: &crate::generator::CompanionDecl) -> (r: Option<Companion>)
        ensures
            match r {
                Option::Some(c) => default_fields_of(decl@.fields) == Option::Some(c@.fields),
                Option::None => default_fields_of(decl@.fields) is None,
            },
    {
        proof {
            crate::processor::fields::lemma_cfdecls_view_len(decl.fields@);
        }
        let n = decl.fields.len();
        let mut out: Vec<CompanionField> = Vec::new();
        let mut i: usize = 0;
        while i < n
            invariant
                n == decl.fields@.len(),
                i <= n,
                out@.len() == i,
                decl@.fields.len() == n,
                default_fields_of(decl@.fields.take(i as int)) == Option::Some(cfields_view(out@)),
            decreases n - i,
        {
            proof {
                crate::processor::fields::lemma_cfdecls_view_index(decl.fields@, i as int);
                assert(decl@.fields.take(i as int + 1).drop_last() =~= decl@.fields.take(i as int));
                assert(decl@.fields.take(i as int + 1).last() == decl@.fields[i as int]);
            }
            let state = match &decl.fields[i].storage {
                crate::processor::fields::StorageTy::Wrap(_) => FieldState::Wrapped(Option::None),
                crate::processor::fields::StorageTy::WrapOption(_) => FieldState::Wrapped(
                    Option::None,
                ),
                crate::processor::fields::StorageTy::Bare(ty) => {
                    let v = match ty {
                        crate::processor::fields::TypeDesc::BoolDesc => Value::BoolV(false),
                        crate::processor::fields::TypeDesc::IntDesc { .. } => Value::IntV(0),
                        crate::processor::fields::TypeDesc::TextDesc => Value::TextV(String::new()),
                        crate::processor::fields::TypeDesc::JsonDesc => Value::JsonV(
                            JsonVal::JNull,
                        ),
                        crate::processor::fields::TypeDesc::OptionDesc(_) => Value::OptV(
                            Option::None,
                        ),
                        _ => {
                            proof {
                                lemma_default_fields_of_none(decl@.fields, i as int + 1);
                            }
                            return Option::None;
                        },
                    };
                    FieldState::Unwrapped(v)
                },
                crate::processor::fields::StorageTy::PayloadStorage => FieldState::Payload(
                    Option::None,
                ),
                crate::processor::fields::StorageTy::NestedStorage(_) => FieldState::NestedSub(
                    Option::None,
                ),
            };
            let f = CompanionField { name: decl.fields[i].name.clone(), state };
            proof {
                lemma_cfields_view_len(out@.push(f));
                assert(out@.push(f).drop_last() =~= out@);
                lemma_cfields_view_index(out@.push(f), i as int);
            }
            out.push(f);
            i = i + 1;
        }
        proof {
            assert(decl@.fields.take(n as int) =~= decl@.fields);
        }
        Option::Some(Companion { fields: out })
    }

    /// Whether applying this companion would alter the target record:
    /// true exactly when some field's update differs from the target's
    /// current value.  Every model value has an encoding, so the
    /// comparison of a structured payload with the target's re-serialized
    /// value cannot itself fail here.
    pub fn would_change(&self, target: &Value) -> (r: bool)
        requires
            target@ is RecordV,
        ensures
            r == changes_v(self@, target@),
    {
        match target {
            Value::RecordV(ts) => changes_fields_exec(self, ts),
            _ => vstd::pervasive::unreached(),
        }
    }

    /// Applies the updates to the target record in place.  Absent fields
    /// and unknown target fields are left as they are; a structured
    /// payload that does not decode at the target field's shape fails the
    /// whole application and leaves the target unchanged.
    pub fn apply_to(&self, target: &mut Value) -> (r: Result<(), UpdateError>)
        requires
            old(target)@ is RecordV,
        ensures
            r is Ok <==> apply_v(self@, old(target)@) is Some,
            r is Ok ==> apply_v(self@, old(target)@) == Option::Some(final(target)@),
            r is Err ==> final(target)@ == old(target)@ && r == Result::<(), UpdateError>::Err(
                UpdateError::PayloadDecode,
            ),
    {
        let res = match &*target {
            Value::RecordV(ts) => apply_fields_exec(self, ts),
            _ => vstd::pervasive::unreached(),
        };
        match res {
            Option::Some(vs) => {
                *target = Value::RecordV(vs);
                Result::Ok(())
            },
            Option::None => Result::Err(UpdateError::PayloadDecode),
        }
    }

    /// Combines two companions for the same declaration; the other one's
    /// present (or, for an unwrapped field, non-default) values win.
    pub fn merge(self, other: Self) -> (r: Self)
        requires
            congruent(self@, other@),
        ensures
            r@ == merge_v(self@, other@),
    {
        proof {
            lemma_cfields_view_len(self.fields@);
            lemma_cfields_view_len(other.fields@);
            lemma_merge_fields_len(cfields_view(self.fields@), cfields_view(other.fields@));
        }
        let n = self.fields.len();
        let mut r: Vec<CompanionField> = Vec::new();
        let mut i: usize = 0;
        while i < n
            invariant
                n == self.fields@.len(),
                n == other.fields@.len(),
                congruent(companion_view(self), companion_view(other)),
                i <= n,
                r@.len() == i,
                cfields_view(self.fields@).len() == n,
                cfields_view(other.fields@).len() == n,
                merge_fields(cfields_view(self.fields@), cfields_view(other.fields@)).len() == n,
                cfields_view(r@).len() == i,
                forall|j: int| 0 <= j < i ==> cfields_view(r@)[j] == merge_fields(
                    cfields_view(self.fields@),
                    cfields_view(other.fields@),
                )[j],
            decreases n - i,
        {
            proof {
                lemma_cfields_view_index(self.fields@, i as int);
                lemma_cfields_view_index(other.fields@, i as int);
                assert(same_kind(
                    cfields_view(self.fields@)[i as int].state,
                    cfields_view(other.fields@)[i as int].state,
                ));
            }
            let merged = match (&self.fields[i].state, &other.fields[i].state) {
                (FieldState::Wrapped(x), FieldState::Wrapped(y)) => FieldState::Wrapped(
                    match y {
                        Option::Some(w) => Option::Some(crate::value::value_dup(w)),
                        Option::None => match x {
                            Option::Some(w) => Option::Some(crate::value::value_dup(w)),
                            Option::None => Option::None,
                        },
                    },
                ),
                (FieldState::Unwrapped(x), FieldState::Unwrapped(y)) => FieldState::Unwrapped(
                    if !crate::value::is_default_value(y) {
                        crate::value::value_dup(y)
                    } else {
                        crate::value::value_dup(x)
                    },
                ),
                (FieldState::Payload(x), FieldState::Payload(y)) => FieldState::Payload(
                    match y {
                        Option::Some(j) => Option::Some(crate::value::json_dup(j)),
                        Option::None => match x {
                            Option::Some(j) => Option::Some(crate::value::json_dup(j)),
                            Option::None => Option::None,
                        },
                    },
                ),
                (FieldState::NestedSub(x), FieldState::NestedSub(y)) => FieldState::NestedSub(
                    match y {
                        Option::Some(c) => Option::Some(companion_dup(c)),
                        Option::None => match x {
                            Option::Some(c) => Option::Some(companion_dup(c)),
                            Option::None => Option::None,
                        },
                    },
                ),
                _ => vstd::pervasive::unreached(),
            };
            let f = CompanionField { name: self.fields[i].name.clone(), state: merged };
            proof {
                lemma_merge_fields_index(
                    cfields_view(self.fields@),
                    cfields_view(other.fields@),
                    i as int,
                );
                lemma_cfields_view_len(r@.push(f));
                assert(r@.push(f).drop_last() =~= r@);
                assert forall|j: int| 0 <= j < i + 1 implies cfields_view(r@.push(f))[j]
                    == merge_fields(cfields_view(self.fields@), cfields_view(other.fields@))[j] by {
                    lemma_cfields_view_index(r@.push(f), j);
                    if j < i {
                        lemma_cfields_view_index(r@, j);
                    }
                }
            }
            r.push(f);
            i = i + 1;
        }
        proof {
            assert(cfields_view(r@) =~= merge_fields(
                cfields_view(self.fields@),
                cfields_view(other.fields@),
            ));
        }
        Companion { fields: r }
    }

    /// Exports the set fields as (name, rendered value) pairs, in
    /// declaration order: a lossy, display-oriented projection — payload
    /// values as their serialized text, nested companions flattened into
    /// their own export's rendering — not meant for round trips.
    pub fn into_partial(self) -> (r: Vec<(String, String)>)
        ensures
            r@.len() == partial_entries(self@.fields).len(),
            forall|i: int|
                0 <= i < r@.len() ==> ((#[trigger] r@[i]).0@, r@[i].1@) == partial_entries(
                    self@.fields,
                )[i],
    {
        proof {
            lemma_cfields_view_len(self.fields@);
            assert(partial_entries(cfields_view(self.fields@).take(0int)) =~= Seq::<
                (Seq<char>, Seq<char>),
            >::empty());
        }
        let n = self.fields.len();
        let mut r: Vec<(String, String)> = Vec::new();
        let mut i: usize = 0;
        while i < n
            invariant
                n == self.fields@.len(),
                i <= n,
                cfields_view(self.fields@).len() == n,
                r@.len() == partial_entries(cfields_view(self.fields@).take(i as int)).len(),
                forall|j: int|
                    0 <= j < r@.len() ==> ((#[trigger] r@[j]).0@, r@[j].1@) == partial_entries(
                        cfields_view(self.fields@).take(i as int),
                    )[j],
            decreases n - i,
        {
            proof {
                lemma_cfields_view_index(self.fields@, i as int);
                assert(cfields_view(self.fields@).take(i as int + 1).drop_last() =~= cfields_view(
                    self.fields@,
                ).take(i as int));
                assert(cfields_view(self.fields@).take(i as int + 1).last() == cfields_view(
                    self.fields@,
                )[i as int]);
            }
            let ghost prev = partial_entries(cfields_view(self.fields@).take(i as int));
            let ghost next = partial_entries(cfields_view(self.fields@).take(i as int + 1));
            if !Companion::state_is_absent(&self.fields[i].state) {
                proof {
                    assert(next =~= prev + seq![
                        (
                            cfields_view(self.fields@)[i as int].name,
                            state_render(cfields_view(self.fields@)[i as int].state),
                        ),
                    ]);
                }
                let mut rendered = String::new();
                push_state(&self.fields[i].state, &mut rendered);
                proof {
                    assert(Seq::<char>::empty() + state_render(self.fields@[i as int].state@)
                        =~= state_render(self.fields@[i as int].state@));
                }
                r.push((self.fields[i].name.clone(), rendered));
            } else {
                proof {
                    assert(next =~= prev + Seq::<(Seq<char>, Seq<char>)>::empty());
                    assert(next =~= prev);
                }
            }
            i = i + 1;
        }
        proof {
            assert(cfields_view(self.fields@).take(n as int) =~= cfields_view(self.fields@));
        }
        r
    }

    /// The named field's update state, where the companion has the field.
    pub fn state_of(&self, field_name: &str) -> (r: Option<&FieldState>)
        ensures
            match r {
                Option::Some(s) => {
                    let k = find_cfield(self@.fields, field_name@);
                    k >= 0 && s@ == self@.fields[k].state
                },
                Option::None => find_cfield(self@.fields, field_name@) == -1,
            },
    {
        let key = field_name.to_owned();
        match find_companion_index(&self.fields, &key) {
            Option::Some(k) => {
                proof {
                    lemma_cfields_view_len(self.fields@);
                    lemma_find_cfield_found(cfields_view(self.fields@), field_name@);
                    lemma_cfields_view_index(self.fields@, k as int);
                }
                Option::Some(&self.fields[k].state)
            },
            Option::None => Option::None,
        }
    }

    /// Whether the named field is set to something that would change the
    /// target; an unknown name answers false.
    pub fn has_field(&self, field_name: &str) -> (r: bool)
        ensures
            r == has_field_v(self@, field_name@),
    {
        proof {
            lemma_cfields_view_len(self.fields@);
        }
        let key = field_name.to_owned();
        let n = self.fields.len();
        let mut i: usize = 0;
        while i < n
            invariant
                n == self.fields@.len(),
                key@ == field_name@,
                cfields_view(self.fields@).len() == n,
                i <= n,
                forall|j: int| 0 <= j < i ==> (#[trigger] cfields_view(self.fields@)[j]).name
                    != field_name@,
            decreases n - i,
        {
            proof {
                lemma_cfields_view_index(self.fields@, i as int);
            }
            if crate::value::string_eq(&self.fields[i].name, &key) {
                proof {
                    lemma_find_cfield_at(cfields_view(self.fields@), field_name@, i as int);
                }
                return !Self::state_is_absent(&self.fields[i].state);
            }
            i = i + 1;
        }
        proof {
            lemma_find_cfield_none(cfields_view(self.fields@), field_name@);
        }
        false
    }
}

} // verus!
