//! Partial-update companion records for plain data records.
//!
//! A source record declaration, with per-field annotations, is classified
//! field by field into an intermediate representation, from which the
//! companion record declaration is synthesized: its name, its derived
//! capabilities, and one absence-capable storage per retained field.
//! Companion record instances over a dynamic value model carry the
//! verified operation suite: construction, emptiness, counting, clearing,
//! application to a target record, change detection, merging, lookup and
//! export.

use vstd::prelude::*;

pub mod codec;
pub mod companion;
pub mod generator;
pub mod laws;
pub mod processor;
pub mod render;
pub mod value;

pub use companion::Companion;
pub use companion::CompanionField;
pub use companion::FieldState;
pub use companion::UpdateError;
pub use generator::CompanionDecl;
pub use generator::TraitConfig;
pub use processor::attributes::AttrDecl;
pub use processor::attributes::MetaItem;
pub use processor::fields::FieldContext;
pub use processor::fields::FieldDecl;
pub use processor::fields::FieldKind;
pub use processor::fields::GenError;
pub use processor::fields::TypeDesc;
pub use codec::decode;
pub use codec::encode;
pub use value::value_dup;
pub use value::value_eq;
pub use value::FieldVal;
pub use value::JsonEntry;
pub use value::JsonVal;
pub use value::Value;

use vstd::string::StringExecFns;

use generator::baseline_traits;
use generator::decl_view;
use generator::derive_traits;
use generator::DeclV;
use processor::attributes::strs_view;
use processor::attributes::struct_name_of;
use processor::attributes::trait_idents_of;
use processor::fields::ctx_fold;
use processor::fields::empty_ctx;
use processor::fields::lemma_ctx_fold_skip;

verus! {

/// The companion declaration a source record declaration yields: the
/// fields are classified in order, stopping at the first failure; a
/// declaration in which no field survives classification is rejected;
/// the companion's name is the struct-level override or the source name
/// with the fixed suffix; the derive list starts from the declared
/// traits, takes the baseline, and drops the equality capabilities the
/// classification flags make incompatible.
pub open spec fn synth_decl(
    struct_name: String,
    attrs: Seq<AttrDecl>,
    fields: Seq<FieldDecl>,
) -> Result<DeclV, GenError> {
    match ctx_fold(empty_ctx(), fields) {
        Result::Err(e) => Result::Err(e),
        Result::Ok(c) => if c.updatable_fields.len() == 0 {
            Result::Err(GenError::NoUpdatableFields { source: struct_name })
        } else {
            Result::Ok(
                DeclV {
                    name: match struct_name_of(attrs) {
                        Option::Some(n) => n@,
                        Option::None => struct_name@ + "Substruct"@,
                    },
                    source_name: struct_name@,
                    derives: derive_traits(
                        strs_view(trait_idents_of(attrs)),
                        baseline_traits(),
                        c.contains_f64,
                        c.contains_string,
                    ),
                    fields: c.updatable_fields,
                },
            )
        },
    }
}

/// Derives the companion declaration for one source record declaration.
pub fn derive_updatable_struct(
    struct_name: &String,
    attrs: &Vec<AttrDecl>,
    fields: &Vec<FieldDecl>,
) -> (r: Result<CompanionDecl, GenError>)
    ensures
        match r {
            Result::Ok(d) => synth_decl(*struct_name, attrs@, fields@) == Result::<
                DeclV,
                GenError,
            >::Ok(decl_view(d)),
            Result::Err(e) => synth_decl(*struct_name, attrs@, fields@) == Result::<
                DeclV,
                GenError,
            >::Err(e),
        },
{
    let update_struct_name: String = match processor::attributes::extract_struct_name(attrs) {
        Option::Some(n) => n,
        Option::None => {
            let mut s = struct_name.clone();
            s.append("Substruct");
            s
        },
    };
    let mut trait_idents = processor::attributes::extract_trait_idents(attrs);
    let mut context = FieldContext::new();
    let n = fields.len();
    proof {
        assert(fields@.skip(0) =~= fields@);
    }
    let mut i: usize = 0;
    while i < n
        invariant
            n == fields@.len(),
            i <= n,
            ctx_fold(empty_ctx(), fields@) == ctx_fold(context@, fields@.skip(i as int)),
        decreases n - i,
    {
        proof {
            lemma_ctx_fold_skip(context@, fields@, i as int);
        }
        let kind = processor::fields::get_redis_updatable_kind(&fields[i].attrs);
        match processor::fields::process_field(&fields[i], &kind, &mut context) {
            Result::Ok(()) => {
            },
            Result::Err(e) => {
                return Result::Err(e);
            },
        }
        i = i + 1;
    }
    proof {
        assert(fields@.skip(n as int) =~= Seq::<FieldDecl>::empty());
    }
    generator::generate_complete_output(
        struct_name,
        &update_struct_name,
        &mut trait_idents,
        &context,
    )
}

} // verus!
