//! Synthesis of the companion declaration: the derived-trait list with
//! its baseline and incompatibility filters, and the assembled companion
//! type declaration.

use vstd::prelude::*;

use crate::processor::attributes::lemma_strs_view_index;
use crate::processor::attributes::lemma_strs_view_len;
use crate::processor::attributes::strs_view;
use crate::processor::fields::cfdecls_view;
use crate::processor::fields::lemma_strs_view_push;
use crate::processor::fields::CFDeclV;
use crate::processor::fields::CompanionFieldDecl;
use crate::processor::fields::FieldContext;
use crate::processor::fields::GenError;
use crate::processor::fields::StorageTy;

verus! {

/// Configuration for the derived-trait list: the baseline capabilities
/// every companion gets, and the two flags classification gathered.
#[derive(Debug, PartialEq)]
pub struct TraitConfig {
    pub required_traits: Vec<String>,
    pub contains_f64: bool,
    pub contains_string: bool,
}

/// The baseline capability names.
pub open spec fn baseline_traits() -> Seq<Seq<char>> {
    seq!["Clone"@, "Debug"@, "Serialize"@, "Deserialize"@]
}

impl Default for TraitConfig {
    /// The baseline: clone-ability, debuggability, serialize and
    /// deserialize, with both suppression flags off.
    fn default() -> (r: TraitConfig)
        ensures
            strs_view(r.required_traits@) == baseline_traits(),
            !r.contains_f64,
            !r.contains_string,
    {
        let mut required: Vec<String> = Vec::new();
        required.push("Clone".to_owned());
        required.push("Debug".to_owned());
        required.push("Serialize".to_owned());
        required.push("Deserialize".to_owned());
        proof {
            assert(strs_view(required@) =~= baseline_traits()) by {
                assert(required@.len() == 4);
                lemma_strs_view_len(required@);
                lemma_strs_view_index(required@, 0);
                lemma_strs_view_index(required@, 1);
                lemma_strs_view_index(required@, 2);
                lemma_strs_view_index(required@, 3);
            }
        }
        TraitConfig { required_traits: required, contains_f64: false, contains_string: false }
    }
}

/// Whether a name occurs in a name list.
pub open spec fn contains_name(ts: Seq<Seq<char>>, x: Seq<char>) -> bool {
    exists|i: int| 0 <= i < ts.len() && ts[i] == x
}

/// The list with each required name appended, in order, where missing.
pub open spec fn with_required(ts: Seq<Seq<char>>, req: Seq<Seq<char>>) -> Seq<Seq<char>>
    decreases req,
{
    if req.len() == 0 {
        ts
    } else {
        let prev = with_required(ts, req.drop_last());
        if contains_name(prev, req.last()) {
            prev
        } else {
            prev.push(req.last())
        }
    }
}

/// The list with every occurrence of a name removed.
pub open spec fn without_name(ts: Seq<Seq<char>>, x: Seq<char>) -> Seq<Seq<char>>
    decreases ts,
{
    if ts.len() == 0 {
        Seq::empty()
    } else {
        without_name(ts.drop_last(), x) + if ts.last() == x {
            Seq::empty()
        } else {
            seq![ts.last()]
        }
    }
}

/// The derived-trait list: the baseline is ensured, then a
/// floating-point field suppresses total equality, and a text field
/// suppresses both equality capabilities.
pub open spec fn derive_traits(
    ts: Seq<Seq<char>>,
    req: Seq<Seq<char>>,
    contains_f64: bool,
    contains_string: bool,
) -> Seq<Seq<char>> {
    let ts1 = with_required(ts, req);
    let ts2 = if contains_f64 {
        without_name(ts1, "Eq"@)
    } else {
        ts1
    };
    if contains_string {
        without_name(without_name(ts2, "PartialEq"@), "Eq"@)
    } else {
        ts2
    }
}

/// Whether a name occurs in a string list, by characters.
fn contains_trait(ts: &Vec<String>, x: &String) -> (r: bool)
    ensures
        r == contains_name(strs_view(ts@), x@),
{
    proof {
        lemma_strs_view_len(ts@);
    }
    let n = ts.len();
    let mut i: usize = 0;
    while i < n
        invariant
            n == ts@.len(),
            i <= n,
            strs_view(ts@).len() == n,
            forall|j: int| 0 <= j < i ==> #[trigger] strs_view(ts@)[j] != x@,
        decreases n - i,
    {
        proof {
            lemma_strs_view_index(ts@, i as int);
        }
        if crate::value::string_eq(&ts[i], x) {
            return true;
        }
        i = i + 1;
    }
    false
}

/// Removes every occurrence of a name from a string list.
fn remove_trait(ts: &mut Vec<String>, x: &String)
    ensures
        strs_view(final(ts)@) == without_name(strs_view(old(ts)@), x@),
{
    proof {
        lemma_strs_view_len(ts@);
    }
    let n = ts.len();
    let mut r: Vec<String> = Vec::new();
    let mut i: usize = 0;
    while i < n
        invariant
            n == ts@.len(),
            i <= n,
            strs_view(ts@).len() == n,
            strs_view(r@) == without_name(strs_view(ts@).take(i as int), x@),
        decreases n - i,
    {
        proof {
            lemma_strs_view_index(ts@, i as int);
            assert(strs_view(ts@).take(i as int + 1).drop_last() =~= strs_view(ts@).take(
                i as int,
            ));
            assert(strs_view(ts@).take(i as int + 1).last() == strs_view(ts@)[i as int]);
        }
        if !crate::value::string_eq(&ts[i], x) {
            proof {
                lemma_strs_view_push(r@, ts@[i as int]);
                assert(strs_view(r@).push(ts@[i as int]@) =~= strs_view(r@) + seq![
                    strs_view(ts@)[i as int],
                ]);
            }
            r.push(ts[i].clone());
        } else {
            proof {
                assert(without_name(strs_view(ts@).take(i as int + 1), x@) =~= without_name(
                    strs_view(ts@).take(i as int),
                    x@,
                ));
            }
        }
        i = i + 1;
    }
    proof {
        assert(strs_view(ts@).take(n as int) =~= strs_view(ts@));
    }
    *ts = r;
}

/// Ensures the baseline capabilities are present, then removes the
/// equality capabilities that the flags make incompatible: a
/// floating-point field suppresses total equality, and a text field
/// suppresses both equality capabilities.
pub fn generate_derive_clause(trait_idents: &mut Vec<String>, config: &TraitConfig)
    ensures
        strs_view(final(trait_idents)@) == derive_traits(
            strs_view(old(trait_idents)@),
            strs_view(config.required_traits@),
            config.contains_f64,
            config.contains_string,
        ),
{
    proof {
        lemma_strs_view_len(config.required_traits@);
    }
    let n = config.required_traits.len();
    let mut i: usize = 0;
    while i < n
        invariant
            n == config.required_traits@.len(),
            i <= n,
            strs_view(config.required_traits@).len() == n,
            strs_view(trait_idents@) == with_required(
                strs_view(old(trait_idents)@),
                strs_view(config.required_traits@).take(i as int),
            ),
        decreases n - i,
    {
        proof {
            lemma_strs_view_index(config.required_traits@, i as int);
            assert(strs_view(config.required_traits@).take(i as int + 1).drop_last() =~= strs_view(
                config.required_traits@,
            ).take(i as int));
            assert(strs_view(config.required_traits@).take(i as int + 1).last() == strs_view(
                config.required_traits@,
            )[i as int]);
        }
        if !contains_trait(trait_idents, &config.required_traits[i]) {
            proof {
                lemma_strs_view_push(trait_idents@, config.required_traits@[i as int]);
            }
            trait_idents.push(config.required_traits[i].clone());
        }
        i = i + 1;
    }
    proof {
        assert(strs_view(config.required_traits@).take(n as int) =~= strs_view(
            config.required_traits@,
        ));
    }
    if config.contains_f64 {
        let eq_name = "Eq".to_owned();
        remove_trait(trait_idents, &eq_name);
    }
    if config.contains_string {
        let partial_eq_name = "PartialEq".to_owned();
        remove_trait(trait_idents, &partial_eq_name);
        let eq_name = "Eq".to_owned();
        remove_trait(trait_idents, &eq_name);
    }
}

/// The generated companion type declaration: its name, its source record
/// name, its derived traits, and its field declarations.
#[derive(Debug, PartialEq)]
pub struct CompanionDecl {
    pub name: String,
    pub source_name: String,
    pub derives: Vec<String>,
    pub fields: Vec<CompanionFieldDecl>,
}

/// The ghost model of a companion type declaration.
pub struct DeclV {
    pub name: Seq<char>,
    pub source_name: Seq<char>,
    pub derives: Seq<Seq<char>>,
    pub fields: Seq<CFDeclV>,
}

/// The ghost model of a companion type declaration.
pub open spec fn decl_view(d: CompanionDecl) -> DeclV {
    DeclV {
        name: d.name@,
        source_name: d.source_name@,
        derives: strs_view(d.derives@),
        fields: cfdecls_view(d.fields@),
    }
}

impl View for CompanionDecl {
    type V = DeclV;

    open spec fn view(&self) -> DeclV {
        decl_view(*self)
    }
}

/// Rejects an accumulator in which no field survived classification.
pub fn validate_context(context: &FieldContext, struct_name: &String) -> (r: Result<(), GenError>)
    ensures
        r is Ok <==> context@.updatable_fields.len() > 0,
        r is Err ==> r == Result::<(), GenError>::Err(
            GenError::NoUpdatableFields { source: *struct_name },
        ),
{
    proof {
        crate::processor::fields::lemma_cfdecls_view_len(context.updatable_fields@);
    }
    if context.updatable_fields.len() == 0 {
        Result::Err(GenError::NoUpdatableFields { source: struct_name.clone() })
    } else {
        Result::Ok(())
    }
}

/// Copies the synthesized companion field declarations out of the
/// accumulator: the generated type's own field list.
pub fn generate_struct_definition(context: &FieldContext) -> (r: Vec<CompanionFieldDecl>)
    ensures
        cfdecls_view(r@) == context@.updatable_fields,
{
    proof {
        crate::processor::fields::lemma_cfdecls_view_len(context.updatable_fields@);
    }
    let n = context.updatable_fields.len();
    let mut r: Vec<CompanionFieldDecl> = Vec::new();
    let mut i: usize = 0;
    while i < n
        invariant
            n == context.updatable_fields@.len(),
            i <= n,
            r@.len() == i,
            cfdecls_view(context.updatable_fields@).len() == n,
            cfdecls_view(r@).len() == i,
            forall|j: int| 0 <= j < i ==> cfdecls_view(r@)[j] == cfdecls_view(
                context.updatable_fields@,
            )[j],
        decreases n - i,
    {
        let src = &context.updatable_fields[i];
        let storage = match &src.storage {
            StorageTy::Wrap(t) => StorageTy::Wrap(crate::processor::fields::type_desc_dup(t)),
            StorageTy::WrapOption(t) => StorageTy::WrapOption(
                crate::processor::fields::type_desc_dup(t),
            ),
            StorageTy::Bare(t) => StorageTy::Bare(crate::processor::fields::type_desc_dup(t)),
            StorageTy::PayloadStorage => StorageTy::PayloadStorage,
            StorageTy::NestedStorage(nm) => StorageTy::NestedStorage(nm.clone()),
        };
        let f = CompanionFieldDecl { name: src.name.clone(), storage };
        proof {
            crate::processor::fields::lemma_cfdecls_view_index(context.updatable_fields@, i as int);
            crate::processor::fields::lemma_cfdecls_view_push(r@, f);
            crate::processor::fields::lemma_cfdecls_view_len(r@.push(f));
            assert forall|j: int| 0 <= j < i + 1 implies cfdecls_view(r@.push(f))[j]
                == cfdecls_view(context.updatable_fields@)[j] by {
                crate::processor::fields::lemma_cfdecls_view_index(r@.push(f), j);
                if j < i {
                    crate::processor::fields::lemma_cfdecls_view_index(r@, j);
                }
            }
        }
        r.push(f);
        i = i + 1;
    }
    proof {
        assert(cfdecls_view(r@) =~= cfdecls_view(context.updatable_fields@));
    }
    r
}

/// The synthesized companion declaration from a completed accumulator:
/// fails where no field was retained; otherwise carries the companion
/// name, the source name, the filtered derive list, and the synthesized
/// fields.
pub fn generate_complete_output(
    struct_name: &String,
    update_struct_name: &String,
    trait_idents: &mut Vec<String>,
    context: &FieldContext,
) -> (r: Result<CompanionDecl, GenError>)
    ensures
        r is Ok <==> context@.updatable_fields.len() > 0,
        r matches Result::Ok(d) ==> d@ == (DeclV {
            name: update_struct_name@,
            source_name: struct_name@,
            derives: derive_traits(
                strs_view(old(trait_idents)@),
                baseline_traits(),
                context.contains_f64,
                context.contains_string,
            ),
            fields: context@.updatable_fields,
        }),
        r is Err ==> r == Result::<CompanionDecl, GenError>::Err(
            GenError::NoUpdatableFields { source: *struct_name },
        ),
{
    match validate_context(context, struct_name) {
        Result::Err(e) => {
            return Result::Err(e);
        },
        Result::Ok(()) => {
        },
    }
    let defaults = TraitConfig::default();
    let config = TraitConfig {
        required_traits: defaults.required_traits,
        contains_f64: context.contains_f64,
        contains_string: context.contains_string,
    };
    generate_derive_clause(trait_idents, &config);
    let mut derives: Vec<String> = Vec::new();
    let m = trait_idents.len();
    proof {
        lemma_strs_view_len(trait_idents@);
    }
    let mut i: usize = 0;
    while i < m
        invariant
            m == trait_idents@.len(),
            i <= m,
            strs_view(trait_idents@).len() == m,
            derives@.len() == i,
            strs_view(derives@).len() == i,
            forall|j: int| 0 <= j < i ==> strs_view(derives@)[j] == strs_view(trait_idents@)[j],
        decreases m - i,
    {
        let t = trait_idents[i].clone();
        proof {
            lemma_strs_view_index(trait_idents@, i as int);
            lemma_strs_view_push(derives@, t);
            crate::processor::attributes::lemma_strs_view_len(derives@.push(t));
            assert forall|j: int| 0 <= j < i + 1 implies strs_view(derives@.push(t))[j]
                == strs_view(trait_idents@)[j] by {
                lemma_strs_view_index(derives@.push(t), j);
                if j < i {
                    lemma_strs_view_index(derives@, j);
                }
            }
        }
        derives.push(t);
        i = i + 1;
    }
    proof {
        assert(strs_view(derives@) =~= strs_view(trait_idents@));
    }
    let fields = generate_struct_definition(context);
    Result::Ok(
        CompanionDecl {
            name: update_struct_name.clone(),
            source_name: struct_name.clone(),
            derives,
            fields,
        },
    )
}

} // verus!
