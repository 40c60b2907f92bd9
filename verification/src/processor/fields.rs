//! Field classification: each declared field's annotation is read into a
//! `FieldKind`, and classified fields accumulate into a `FieldContext`,
//! the intermediate representation that the synthesis stages consume.

use vstd::prelude::*;

use vstd::string::StringExecFns;

use crate::processor::attributes::strs_view;
use crate::processor::attributes::AttrDecl;
use crate::processor::attributes::MetaItem;

verus! {

/// The resolved descriptor of a field's declared type, as the declaration
/// front end supplies it: scalar shapes are distinguished, an optional
/// type carries its inner type, a named record or custom type carries its
/// name, and a type with no name (a tuple, say) is `OtherDesc`.
#[derive(Debug, PartialEq)]
pub enum TypeDesc {
    BoolDesc,
    IntDesc { name: String },
    FloatDesc { name: String },
    TextDesc,
    JsonDesc,
    OptionDesc(Box<TypeDesc>),
    RecordDesc { name: String },
    OtherDesc,
}

/// The classification of one field: a plain value (optionally wrapped to
/// signal "no update"), a nested sub-record (with an optional companion
/// type name override), a structured payload, an explicitly skipped
/// field, or a field with no relevant annotation at all.
#[derive(Debug, PartialEq)]
pub enum FieldKind {
    Primitive { wrap: bool },
    Nested { nested_type: Option<String> },
    Json,
    Skip,
    Untagged,
}

/// One field declaration: its name (absent for unnamed members, which
/// are skipped), its resolved type descriptor, and its attributes.
#[derive(Debug, PartialEq)]
pub struct FieldDecl {
    pub name: Option<String>,
    pub ty: TypeDesc,
    pub attrs: Vec<AttrDecl>,
}

/// The synthesized storage of one companion field: the source type
/// wrapped in an absence state, an optional source type wrapped once
/// more, the source type kept bare, the structured-payload carrier, or
/// an absence-wrapped nested companion type with the given name.
#[derive(Debug, PartialEq)]
pub enum StorageTy {
    Wrap(TypeDesc),
    WrapOption(TypeDesc),
    Bare(TypeDesc),
    PayloadStorage,
    NestedStorage(String),
}

/// One synthesized companion field declaration.
#[derive(Debug, PartialEq)]
pub struct CompanionFieldDecl {
    pub name: String,
    pub storage: StorageTy,
}

/// A generation-time failure.
#[derive(Debug, PartialEq)]
pub enum GenError {
    /// A structured-payload annotation on a field whose declared type is
    /// already the generic structured-data value type.
    MisusedPayloadAnnotation { field: String },
    /// A nested annotation on a field whose declared type has no name.
    UnsupportedNestedFieldType { field: String },
    /// No field survived classification.
    NoUpdatableFields { source: String },
}

/// The accumulator that classification populates: the companion field
/// declarations, the constructor parameter names and types, the four
/// kind-partitioned name sets, and the two trait-suppression flags.
#[derive(Debug, PartialEq)]
pub struct FieldContext {
    pub updatable_fields: Vec<CompanionFieldDecl>,
    pub field_names: Vec<String>,
    pub field_types: Vec<StorageTy>,
    pub wrapped_field_names: Vec<String>,
    pub unwrapped_field_names: Vec<String>,
    pub json_field_names: Vec<String>,
    pub nested_field_names: Vec<String>,
    pub contains_f64: bool,
    pub contains_string: bool,
}

/// The ghost model of a synthesized storage: as `StorageTy`, with the
/// nested companion name as a character sequence.
pub enum StorageVw {
    WrapW(TypeDesc),
    WrapOptionW(TypeDesc),
    BareW(TypeDesc),
    PayloadW,
    NestedW(Seq<char>),
}

/// The ghost model of one companion field declaration.
pub struct CFDeclV {
    pub name: Seq<char>,
    pub storage: StorageVw,
}

/// The ghost model of the accumulator.
pub struct ContextV {
    pub updatable_fields: Seq<CFDeclV>,
    pub field_names: Seq<Seq<char>>,
    pub field_types: Seq<StorageVw>,
    pub wrapped_field_names: Seq<Seq<char>>,
    pub unwrapped_field_names: Seq<Seq<char>>,
    pub json_field_names: Seq<Seq<char>>,
    pub nested_field_names: Seq<Seq<char>>,
    pub contains_f64: bool,
    pub contains_string: bool,
}

/// The ghost model of a storage.
pub open spec fn storage_view(s: StorageTy) -> StorageVw {
    match s {
        StorageTy::Wrap(t) => StorageVw::WrapW(t),
        StorageTy::WrapOption(t) => StorageVw::WrapOptionW(t),
        StorageTy::Bare(t) => StorageVw::BareW(t),
        StorageTy::PayloadStorage => StorageVw::PayloadW,
        StorageTy::NestedStorage(n) => StorageVw::NestedW(n@),
    }
}

/// The ghost model of one companion field declaration.
pub open spec fn cfdecl_view(d: CompanionFieldDecl) -> CFDeclV {
    CFDeclV { name: d.name@, storage: storage_view(d.storage) }
}

/// The ghost model of a declaration list, element for element.
pub open spec fn cfdecls_view(s: Seq<CompanionFieldDecl>) -> Seq<CFDeclV>
    decreases s,
{
    if s.len() == 0 {
        Seq::empty()
    } else {
        cfdecls_view(s.drop_last()).push(cfdecl_view(s.last()))
    }
}

/// The ghost model of a storage list, element for element.
pub open spec fn storages_view(s: Seq<StorageTy>) -> Seq<StorageVw>
    decreases s,
{
    if s.len() == 0 {
        Seq::empty()
    } else {
        storages_view(s.drop_last()).push(storage_view(s.last()))
    }
}

/// A declaration list's model grows by one on a push.
pub broadcast proof fn lemma_cfdecls_view_push(s: Seq<CompanionFieldDecl>, d: CompanionFieldDecl)
    ensures
        #[trigger] cfdecls_view(s.push(d)) == cfdecls_view(s).push(cfdecl_view(d)),
{
    assert(s.push(d).drop_last() =~= s);
}

/// A declaration list's model has one element per declaration.
pub broadcast proof fn lemma_cfdecls_view_len(s: Seq<CompanionFieldDecl>)
    ensures
        (#[trigger] cfdecls_view(s)).len() == s.len(),
    decreases s,
{
    if s.len() > 0 {
        lemma_cfdecls_view_len(s.drop_last());
    }
}

/// A declaration list's model is the model of each declaration, in order.
pub broadcast proof fn lemma_cfdecls_view_index(s: Seq<CompanionFieldDecl>, i: int)
    requires
        0 <= i < s.len(),
    ensures
        #[trigger] cfdecls_view(s)[i] == cfdecl_view(s[i]),
    decreases s,
{
    lemma_cfdecls_view_len(s.drop_last());
    if i < s.len() - 1 {
        lemma_cfdecls_view_index(s.drop_last(), i);
    }
}

/// A storage list's model grows by one on a push.
pub broadcast proof fn lemma_storages_view_push(s: Seq<StorageTy>, t: StorageTy)
    ensures
        #[trigger] storages_view(s.push(t)) == storages_view(s).push(storage_view(t)),
{
    assert(s.push(t).drop_last() =~= s);
}

/// A string list's model grows by one on a push.
pub broadcast proof fn lemma_strs_view_push(s: Seq<String>, x: String)
    ensures
        #[trigger] strs_view(s.push(x)) == strs_view(s).push(x@),
{
    assert(s.push(x).drop_last() =~= s);
}

/// The ghost model of the accumulator.
pub open spec fn ctx_view(c: FieldContext) -> ContextV {
    ContextV {
        updatable_fields: cfdecls_view(c.updatable_fields@),
        field_names: strs_view(c.field_names@),
        field_types: storages_view(c.field_types@),
        wrapped_field_names: strs_view(c.wrapped_field_names@),
        unwrapped_field_names: strs_view(c.unwrapped_field_names@),
        json_field_names: strs_view(c.json_field_names@),
        nested_field_names: strs_view(c.nested_field_names@),
        contains_f64: c.contains_f64,
        contains_string: c.contains_string,
    }
}

impl View for FieldContext {
    type V = ContextV;

    open spec fn view(&self) -> ContextV {
        ctx_view(*self)
    }
}

/// The empty accumulator.
pub open spec fn empty_ctx() -> ContextV {
    ContextV {
        updatable_fields: Seq::empty(),
        field_names: Seq::empty(),
        field_types: Seq::empty(),
        wrapped_field_names: Seq::empty(),
        unwrapped_field_names: Seq::empty(),
        json_field_names: Seq::empty(),
        nested_field_names: Seq::empty(),
        contains_f64: false,
        contains_string: false,
    }
}

/// Whether a marker is one of the recognized kind markers.
pub open spec fn recognized_marker(m: Seq<char>) -> bool {
    m == "primitive"@ || m == "nested"@ || m == "json"@ || m == "skip"@
}

/// The last recognized kind marker of an argument list, if any.
pub open spec fn last_marker(items: Seq<MetaItem>) -> Option<Seq<char>>
    decreases items,
{
    if items.len() == 0 {
        Option::None
    } else {
        match items.last() {
            MetaItem::Marker(m) => if recognized_marker(m@) {
                Option::Some(m@)
            } else {
                last_marker(items.drop_last())
            },
            _ => last_marker(items.drop_last()),
        }
    }
}

/// The last `wrap = <bool>` argument, defaulting to true.
pub open spec fn last_wrap(items: Seq<MetaItem>) -> bool
    decreases items,
{
    if items.len() == 0 {
        true
    } else {
        match items.last() {
            MetaItem::BoolArg { key, value } => if key@ == "wrap"@ {
                value
            } else {
                last_wrap(items.drop_last())
            },
            _ => last_wrap(items.drop_last()),
        }
    }
}

/// The last `nested_type = "..."` argument, if any.
pub open spec fn last_nested_type(items: Seq<MetaItem>) -> Option<String>
    decreases items,
{
    if items.len() == 0 {
        Option::None
    } else {
        match items.last() {
            MetaItem::TextArg { key, value } => if key@ == "nested_type"@ {
                Option::Some(value)
            } else {
                last_nested_type(items.drop_last())
            },
            _ => last_nested_type(items.drop_last()),
        }
    }
}

/// The classification an argument list yields: the last recognized kind
/// marker decides, with the `wrap` and `nested_type` modifiers read from
/// their last occurrences; an argument list without a recognized marker
/// means the field is skipped.
pub open spec fn kind_of_items(items: Seq<MetaItem>) -> FieldKind {
    match last_marker(items) {
        Option::None => FieldKind::Skip,
        Option::Some(m) => if m == "primitive"@ {
            FieldKind::Primitive { wrap: last_wrap(items) }
        } else if m == "nested"@ {
            FieldKind::Nested { nested_type: last_nested_type(items) }
        } else if m == "json"@ {
            FieldKind::Json
        } else {
            FieldKind::Skip
        },
    }
}

/// The classification of a field from its attributes: the first
/// `substruct_field` attribute decides; arguments that do not parse fall
/// back to a wrapped plain field; no such attribute leaves the field
/// untagged.
pub open spec fn kind_of_attrs(attrs: Seq<AttrDecl>) -> FieldKind
    decreases attrs,
{
    if attrs.len() == 0 {
        FieldKind::Untagged
    } else if attrs[0].key@ == "substruct_field"@ {
        match attrs[0].args {
            Option::None => FieldKind::Primitive { wrap: true },
            Option::Some(items) => kind_of_items(items@),
        }
    } else {
        kind_of_attrs(attrs.drop_first())
    }
}

/// The storage of a plain field: bare when unwrapped; otherwise the
/// optional source type wrapped once more, or the source type wrapped.
pub open spec fn primitive_storage(ty: TypeDesc, wrap: bool) -> StorageVw {
    if !wrap {
        StorageVw::BareW(ty)
    } else {
        match ty {
            TypeDesc::OptionDesc(inner) => StorageVw::WrapOptionW(*inner),
            _ => StorageVw::WrapW(ty),
        }
    }
}

/// The surface name of a declared type, if it has one.
pub open spec fn type_name_of(ty: TypeDesc) -> Option<Seq<char>> {
    match ty {
        TypeDesc::BoolDesc => Option::Some("bool"@),
        TypeDesc::IntDesc { name } => Option::Some(name@),
        TypeDesc::FloatDesc { name } => Option::Some(name@),
        TypeDesc::TextDesc => Option::Some("String"@),
        TypeDesc::JsonDesc => Option::Some("Value"@),
        TypeDesc::OptionDesc(_) => Option::Some("Option"@),
        TypeDesc::RecordDesc { name } => Option::Some(name@),
        TypeDesc::OtherDesc => Option::None,
    }
}

/// The nested companion type's name: the annotation's override, or the
/// field's type name with the fixed suffix appended.
pub open spec fn nested_name(ty: TypeDesc, over: Option<String>) -> Option<Seq<char>> {
    match over {
        Option::Some(n) => Option::Some(n@),
        Option::None => match type_name_of(ty) {
            Option::Some(b) => Option::Some(b + "Substruct"@),
            Option::None => Option::None,
        },
    }
}

/// The accumulator after one plain field: the declaration, parameter and
/// type lists grow by the synthesized storage, the name joins the
/// wrapped or unwrapped set, and a floating-point or text declared type
/// sets its flag.
pub open spec fn prim_step(c: ContextV, name: Seq<char>, ty: TypeDesc, wrap: bool) -> ContextV {
    ContextV {
        updatable_fields: c.updatable_fields.push(
            CFDeclV { name: name, storage: primitive_storage(ty, wrap) },
        ),
        field_names: c.field_names.push(name),
        field_types: c.field_types.push(primitive_storage(ty, wrap)),
        wrapped_field_names: if wrap {
            c.wrapped_field_names.push(name)
        } else {
            c.wrapped_field_names
        },
        unwrapped_field_names: if wrap {
            c.unwrapped_field_names
        } else {
            c.unwrapped_field_names.push(name)
        },
        json_field_names: c.json_field_names,
        nested_field_names: c.nested_field_names,
        contains_f64: c.contains_f64 || ty is FloatDesc,
        contains_string: c.contains_string || ty is TextDesc,
    }
}

/// The accumulator after one structured-payload field.
pub open spec fn json_step(c: ContextV, name: Seq<char>) -> ContextV {
    ContextV {
        updatable_fields: c.updatable_fields.push(
            CFDeclV { name: name, storage: StorageVw::PayloadW },
        ),
        field_names: c.field_names.push(name),
        field_types: c.field_types.push(StorageVw::PayloadW),
        wrapped_field_names: c.wrapped_field_names,
        unwrapped_field_names: c.unwrapped_field_names,
        json_field_names: c.json_field_names.push(name),
        nested_field_names: c.nested_field_names,
        contains_f64: c.contains_f64,
        contains_string: c.contains_string,
    }
}

/// The accumulator after one nested field with the given companion name.
pub open spec fn nested_step(c: ContextV, name: Seq<char>, companion: Seq<char>) -> ContextV {
    ContextV {
        updatable_fields: c.updatable_fields.push(
            CFDeclV { name: name, storage: StorageVw::NestedW(companion) },
        ),
        field_names: c.field_names.push(name),
        field_types: c.field_types.push(StorageVw::NestedW(companion)),
        wrapped_field_names: c.wrapped_field_names,
        unwrapped_field_names: c.unwrapped_field_names,
        json_field_names: c.json_field_names,
        nested_field_names: c.nested_field_names.push(name),
        contains_f64: c.contains_f64,
        contains_string: c.contains_string,
    }
}

/// The accumulator after one field of the given classification: unnamed,
/// skipped and untagged fields leave it unchanged; a misused payload
/// annotation or an unnameable nested field type fails.
pub open spec fn process_step(c: ContextV, f: FieldDecl, kind: FieldKind) -> Result<
    ContextV,
    GenError,
> {
    match f.name {
        Option::None => Result::Ok(c),
        Option::Some(nm) => match kind {
            FieldKind::Untagged => Result::Ok(c),
            FieldKind::Skip => Result::Ok(c),
            FieldKind::Primitive { wrap } => Result::Ok(prim_step(c, nm@, f.ty, wrap)),
            FieldKind::Json => if f.ty is JsonDesc {
                Result::Err(GenError::MisusedPayloadAnnotation { field: nm })
            } else {
                Result::Ok(json_step(c, nm@))
            },
            FieldKind::Nested { nested_type } => match nested_name(f.ty, nested_type) {
                Option::Some(n) => Result::Ok(nested_step(c, nm@, n)),
                Option::None => Result::Err(GenError::UnsupportedNestedFieldType { field: nm }),
            },
        },
    }
}

/// The accumulator after one field, its classification read from its
/// attributes.
pub open spec fn field_step(c: ContextV, f: FieldDecl) -> Result<ContextV, GenError> {
    process_step(c, f, kind_of_attrs(f.attrs@))
}

/// The accumulator after a run over all fields, stopping at the first
/// failure.
pub open spec fn ctx_fold(c: ContextV, fields: Seq<FieldDecl>) -> Result<ContextV, GenError>
    decreases fields,
{
    if fields.len() == 0 {
        Result::Ok(c)
    } else {
        match field_step(c, fields[0]) {
            Result::Ok(c2) => ctx_fold(c2, fields.drop_first()),
            Result::Err(e) => Result::Err(e),
        }
    }
}

/// Unfolding step for the fold over the field list.
pub proof fn lemma_ctx_fold_skip(c: ContextV, fields: Seq<FieldDecl>, i: int)
    requires
        0 <= i < fields.len(),
    ensures
        ctx_fold(c, fields.skip(i)) == (match field_step(c, fields[i]) {
            Result::Ok(c2) => ctx_fold(c2, fields.skip(i + 1)),
            Result::Err(e) => Result::<ContextV, GenError>::Err(e),
        }),
{
    assert(fields.skip(i)[0] == fields[i]);
    assert(fields.skip(i).drop_first() =~= fields.skip(i + 1));
}

impl FieldContext {
    /// The empty accumulator.
    pub fn new() -> (r: FieldContext)
        ensures
            r@ == empty_ctx(),
    {
        FieldContext {
            updatable_fields: Vec::new(),
            field_names: Vec::new(),
            field_types: Vec::new(),
            wrapped_field_names: Vec::new(),
            unwrapped_field_names: Vec::new(),
            json_field_names: Vec::new(),
            nested_field_names: Vec::new(),
            contains_f64: false,
            contains_string: false,
        }
    }
}

/// Produces a type descriptor equal to the given one.
pub fn type_desc_dup(ty: &TypeDesc) -> (r: TypeDesc)
    ensures
        r == *ty,
    decreases *ty,
{
    match ty {
        TypeDesc::BoolDesc => TypeDesc::BoolDesc,
        TypeDesc::IntDesc { name } => TypeDesc::IntDesc { name: name.clone() },
        TypeDesc::FloatDesc { name } => TypeDesc::FloatDesc { name: name.clone() },
        TypeDesc::TextDesc => TypeDesc::TextDesc,
        TypeDesc::JsonDesc => TypeDesc::JsonDesc,
        TypeDesc::OptionDesc(inner) => TypeDesc::OptionDesc(Box::new(type_desc_dup(&**inner))),
        TypeDesc::RecordDesc { name } => TypeDesc::RecordDesc { name: name.clone() },
        TypeDesc::OtherDesc => TypeDesc::OtherDesc,
    }
}

/// Reads a field's classification from its attributes: the first
/// `substruct_field` attribute decides; within it, the last recognized
/// kind marker wins, with `wrap` and `nested_type` modifiers read from
/// their last occurrences; arguments that do not parse fall back to a
/// wrapped plain field.
pub fn get_redis_updatable_kind(attrs: &Vec<AttrDecl>) -> (r: FieldKind)
    ensures
        r == kind_of_attrs(attrs@),
{
    proof {
        assert(attrs@.skip(0) =~= attrs@);
    }
    let n = attrs.len();
    let mut i: usize = 0;
    while i < n
        invariant
            n == attrs@.len(),
            i <= n,
            kind_of_attrs(attrs@) == kind_of_attrs(attrs@.skip(i as int)),
        decreases n - i,
    {
        proof {
            assert(attrs@.skip(i as int)[0] == attrs@[i as int]);
            assert(attrs@.skip(i as int).drop_first() =~= attrs@.skip(i as int + 1));
        }
        let field_attr = "substruct_field".to_owned();
        if crate::value::string_eq(&attrs[i].key, &field_attr) {
            match &attrs[i].args {
                Option::None => {
                    return FieldKind::Primitive { wrap: true };
                },
                Option::Some(items) => {
                    return kind_from_items(items);
                },
            }
        }
        i = i + 1;
    }
    proof {
        assert(attrs@.skip(n as int) =~= Seq::<AttrDecl>::empty());
    }
    FieldKind::Untagged
}

/// Reads the classification an argument list yields.
fn kind_from_items(items: &Vec<MetaItem>) -> (r: FieldKind)
    ensures
        r == kind_of_items(items@),
{
    let marker_primitive = "primitive".to_owned();
    let marker_nested = "nested".to_owned();
    let marker_json = "json".to_owned();
    let marker_skip = "skip".to_owned();
    let key_wrap = "wrap".to_owned();
    let key_nested_type = "nested_type".to_owned();
    let n = items.len();
    let mut marker: Option<String> = Option::None;
    let mut wrap: bool = true;
    let mut nested_type: Option<String> = Option::None;
    let mut i: usize = 0;
    while i < n
        invariant
            n == items@.len(),
            i <= n,
            marker_primitive@ == "primitive"@,
            marker_nested@ == "nested"@,
            marker_json@ == "json"@,
            marker_skip@ == "skip"@,
            key_wrap@ == "wrap"@,
            key_nested_type@ == "nested_type"@,
            match marker {
                Option::Some(m) => last_marker(items@.take(i as int)) == Option::Some(m@),
                Option::None => last_marker(items@.take(i as int)) is None,
            },
            wrap == last_wrap(items@.take(i as int)),
            nested_type == last_nested_type(items@.take(i as int)),
        decreases n - i,
    {
        proof {
            assert(items@.take(i as int + 1).drop_last() =~= items@.take(i as int));
            assert(items@.take(i as int + 1).last() == items@[i as int]);
        }
        match &items[i] {
            MetaItem::Marker(m) => {
                let is_recognized = crate::value::string_eq(m, &marker_primitive)
                    || crate::value::string_eq(m, &marker_nested) || crate::value::string_eq(
                    m,
                    &marker_json,
                ) || crate::value::string_eq(m, &marker_skip);
                if is_recognized {
                    marker = Option::Some(m.clone());
                }
            },
            MetaItem::BoolArg { key, value } => {
                if crate::value::string_eq(key, &key_wrap) {
                    wrap = *value;
                }
            },
            MetaItem::TextArg { key, value } => {
                if crate::value::string_eq(key, &key_nested_type) {
                    nested_type = Option::Some(value.clone());
                }
            },
            MetaItem::OtherMeta => {
            },
        }
        i = i + 1;
    }
    proof {
        assert(items@.take(n as int) =~= items@);
    }
    match marker {
        Option::None => FieldKind::Skip,
        Option::Some(m) => {
            if crate::value::string_eq(&m, &marker_primitive) {
                FieldKind::Primitive { wrap }
            } else if crate::value::string_eq(&m, &marker_nested) {
                FieldKind::Nested { nested_type }
            } else if crate::value::string_eq(&m, &marker_json) {
                FieldKind::Json
            } else {
                FieldKind::Skip
            }
        },
    }
}

/// The surface name of a declared type, if it has one.
fn type_name_exec(ty: &TypeDesc) -> (r: Option<String>)
    ensures
        match r {
            Option::Some(n) => type_name_of(*ty) == Option::Some(n@),
            Option::None => type_name_of(*ty) is None,
        },
{
    match ty {
        TypeDesc::BoolDesc => Option::Some("bool".to_owned()),
        TypeDesc::IntDesc { name } => Option::Some(name.clone()),
        TypeDesc::FloatDesc { name } => Option::Some(name.clone()),
        TypeDesc::TextDesc => Option::Some("String".to_owned()),
        TypeDesc::JsonDesc => Option::Some("Value".to_owned()),
        TypeDesc::OptionDesc(_) => Option::Some("Option".to_owned()),
        TypeDesc::RecordDesc { name } => Option::Some(name.clone()),
        TypeDesc::OtherDesc => Option::None,
    }
}

/// Accumulates one plain field: synthesizes its storage, adds it to the
/// declaration, parameter and kind lists, and records a floating-point
/// or text declared type in the trait-suppression flags.
pub fn handle_primitive_field(
    ident: &String,
    ty: &TypeDesc,
    wrap: bool,
    context: &mut FieldContext,
)
    ensures
        final(context)@ == prim_step(old(context)@, ident@, *ty, wrap),
{
    let storage = if !wrap {
        StorageTy::Bare(type_desc_dup(ty))
    } else {
        match ty {
            TypeDesc::OptionDesc(inner) => StorageTy::WrapOption(type_desc_dup(&**inner)),
            _ => StorageTy::Wrap(type_desc_dup(ty)),
        }
    };
    let storage2 = match &storage {
        StorageTy::Wrap(t) => StorageTy::Wrap(type_desc_dup(t)),
        StorageTy::WrapOption(t) => StorageTy::WrapOption(type_desc_dup(t)),
        StorageTy::Bare(t) => StorageTy::Bare(type_desc_dup(t)),
        StorageTy::PayloadStorage => StorageTy::PayloadStorage,
        StorageTy::NestedStorage(n) => StorageTy::NestedStorage(n.clone()),
    };
    if matches!(ty, TypeDesc::FloatDesc { .. }) {
        context.contains_f64 = true;
    }
    if matches!(ty, TypeDesc::TextDesc) {
        context.contains_string = true;
    }
    proof {
        lemma_cfdecls_view_push(
            context.updatable_fields@,
            CompanionFieldDecl { name: *ident, storage: storage },
        );
        lemma_strs_view_push(context.field_names@, *ident);
        lemma_storages_view_push(context.field_types@, storage2);
        if wrap {
            lemma_strs_view_push(context.wrapped_field_names@, *ident);
        } else {
            lemma_strs_view_push(context.unwrapped_field_names@, *ident);
        }
    }
    context.updatable_fields.push(CompanionFieldDecl { name: ident.clone(), storage });
    context.field_names.push(ident.clone());
    context.field_types.push(storage2);
    if wrap {
        context.wrapped_field_names.push(ident.clone());
    } else {
        context.unwrapped_field_names.push(ident.clone());
    }
}

/// Accumulates one nested field: resolves the companion type name from
/// the override or the field's type name with the fixed suffix, and adds
/// the field to the declaration, parameter and nested lists; a field
/// whose declared type has no name is rejected.
pub fn handle_nested_field(
    ident: &String,
    ty: &TypeDesc,
    nested_type: Option<String>,
    context: &mut FieldContext,
) -> (r: Result<(), GenError>)
    ensures
        match nested_name(*ty, nested_type) {
            Option::Some(companion) => r is Ok && final(context)@ == nested_step(
                old(context)@,
                ident@,
                companion,
            ),
            Option::None => r == Result::<(), GenError>::Err(
                GenError::UnsupportedNestedFieldType { field: *ident },
            ) && *final(context) == *old(context),
        },
{
    let companion: String = match nested_type {
        Option::Some(n) => n,
        Option::None => match type_name_exec(ty) {
            Option::Some(base) => {
                let mut s = base;
                s.append("Substruct");
                s
            },
            Option::None => {
                return Result::Err(GenError::UnsupportedNestedFieldType { field: ident.clone() });
            },
        },
    };
    let companion2 = companion.clone();
    proof {
        lemma_cfdecls_view_push(
            context.updatable_fields@,
            CompanionFieldDecl { name: *ident, storage: StorageTy::NestedStorage(companion) },
        );
        lemma_strs_view_push(context.field_names@, *ident);
        lemma_storages_view_push(context.field_types@, StorageTy::NestedStorage(companion2));
        lemma_strs_view_push(context.nested_field_names@, *ident);
    }
    context.updatable_fields.push(
        CompanionFieldDecl { name: ident.clone(), storage: StorageTy::NestedStorage(companion) },
    );
    context.field_names.push(ident.clone());
    context.field_types.push(StorageTy::NestedStorage(companion2));
    context.nested_field_names.push(ident.clone());
    Result::Ok(())
}

/// Accumulates one structured-payload field; a field whose declared type
/// is already the generic structured-data value type is rejected, since
/// a plain annotation is correct there.
pub fn handle_json_field(ident: &String, ty: &TypeDesc, context: &mut FieldContext) -> (r: Result<
    (),
    GenError,
>)
    ensures
        if *ty is JsonDesc {
            r == Result::<(), GenError>::Err(
                GenError::MisusedPayloadAnnotation { field: *ident },
            ) && *final(context) == *old(context)
        } else {
            r is Ok && final(context)@ == json_step(old(context)@, ident@)
        },
{
    if matches!(ty, TypeDesc::JsonDesc) {
        return Result::Err(GenError::MisusedPayloadAnnotation { field: ident.clone() });
    }
    proof {
        lemma_cfdecls_view_push(
            context.updatable_fields@,
            CompanionFieldDecl { name: *ident, storage: StorageTy::PayloadStorage },
        );
        lemma_strs_view_push(context.field_names@, *ident);
        lemma_storages_view_push(context.field_types@, StorageTy::PayloadStorage);
        lemma_strs_view_push(context.json_field_names@, *ident);
    }
    context.updatable_fields.push(
        CompanionFieldDecl { name: ident.clone(), storage: StorageTy::PayloadStorage },
    );
    context.field_names.push(ident.clone());
    context.field_types.push(StorageTy::PayloadStorage);
    context.json_field_names.push(ident.clone());
    Result::Ok(())
}

/// Dispatches one field to its kind's handler; unnamed, skipped and
/// untagged fields leave the accumulator unchanged.
pub fn process_field(
    field: &FieldDecl,
    field_kind: &FieldKind,
    context: &mut FieldContext,
) -> (r: Result<(), GenError>)
    ensures
        match r {
            Result::Ok(()) => process_step(old(context)@, *field, *field_kind) == Result::<
                ContextV,
                GenError,
            >::Ok(final(context)@),
            Result::Err(e) => process_step(old(context)@, *field, *field_kind) == Result::<
                ContextV,
                GenError,
            >::Err(e) && *final(context) == *old(context),
        },
{
    let ident = match &field.name {
        Option::Some(ident) => ident,
        Option::None => {
            return Result::Ok(());
        },
    };
    match field_kind {
        FieldKind::Skip => Result::Ok(()),
        FieldKind::Untagged => Result::Ok(()),
        FieldKind::Primitive { wrap } => {
            handle_primitive_field(ident, &field.ty, *wrap, context);
            Result::Ok(())
        },
        FieldKind::Nested { nested_type } => {
            let over = match nested_type {
                Option::Some(n) => Option::Some(n.clone()),
                Option::None => Option::None,
            };
            handle_nested_field(ident, &field.ty, over, context)
        },
        FieldKind::Json => handle_json_field(ident, &field.ty, context),
    }
}

} // verus!
