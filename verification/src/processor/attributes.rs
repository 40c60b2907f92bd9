//! The parsed annotation model that the declaration front end supplies,
//! and the struct-level annotation readers.

use vstd::prelude::*;

verus! {

/// One parsed argument of an annotation: a bare marker name, a keyed
/// boolean, a keyed string, or any other argument shape (ignored).
#[derive(Debug, PartialEq)]
pub enum MetaItem {
    Marker(String),
    BoolArg { key: String, value: bool },
    TextArg { key: String, value: String },
    OtherMeta,
}

/// One attribute of a declaration: its name, and its parsed arguments,
/// or `None` where the argument tokens did not parse.
#[derive(Debug, PartialEq)]
pub struct AttrDecl {
    pub key: String,
    pub args: Option<Vec<MetaItem>>,
}

/// The character sequences of a string list, element for element.
pub open spec fn strs_view(s: Seq<String>) -> Seq<Seq<char>>
    decreases s,
{
    if s.len() == 0 {
        Seq::empty()
    } else {
        strs_view(s.drop_last()).push(s.last()@)
    }
}

/// A string list's view has one element per string.
pub broadcast proof fn lemma_strs_view_len(s: Seq<String>)
    ensures
        (#[trigger] strs_view(s)).len() == s.len(),
    decreases s,
{
    if s.len() > 0 {
        lemma_strs_view_len(s.drop_last());
    }
}

/// A string list's view is each string's characters, in order.
pub broadcast proof fn lemma_strs_view_index(s: Seq<String>, i: int)
    requires
        0 <= i < s.len(),
    ensures
        #[trigger] strs_view(s)[i] == s[i]@,
    decreases s,
{
    lemma_strs_view_len(s.drop_last());
    if i < s.len() - 1 {
        lemma_strs_view_index(s.drop_last(), i);
    }
}

/// The first `name = "..."` argument of an argument list.
pub open spec fn first_name_arg(items: Seq<MetaItem>) -> Option<String>
    decreases items,
{
    if items.len() == 0 {
        Option::None
    } else {
        match items[0] {
            MetaItem::TextArg { key, value } => if key@ == "name"@ {
                Option::Some(value)
            } else {
                first_name_arg(items.drop_first())
            },
            _ => first_name_arg(items.drop_first()),
        }
    }
}

/// The companion name override: the first `name = "..."` argument of the
/// first `substruct_builder` attribute that parses and carries one.
pub open spec fn struct_name_of(attrs: Seq<AttrDecl>) -> Option<String>
    decreases attrs,
{
    if attrs.len() == 0 {
        Option::None
    } else {
        let rest = struct_name_of(attrs.drop_first());
        if attrs[0].key@ == "substruct_builder"@ {
            match attrs[0].args {
                Option::Some(items) => match first_name_arg(items@) {
                    Option::Some(n) => Option::Some(n),
                    Option::None => rest,
                },
                Option::None => rest,
            }
        } else {
            rest
        }
    }
}

/// The single-name markers of an argument list, in order.
pub open spec fn markers_of(items: Seq<MetaItem>) -> Seq<String>
    decreases items,
{
    if items.len() == 0 {
        Seq::empty()
    } else {
        markers_of(items.drop_last()) + match items.last() {
            MetaItem::Marker(m) => seq![m],
            _ => Seq::empty(),
        }
    }
}

/// The declared derive traits: every single-name entry of every `derive`
/// attribute that parses, in order.
pub open spec fn trait_idents_of(attrs: Seq<AttrDecl>) -> Seq<String>
    decreases attrs,
{
    if attrs.len() == 0 {
        Seq::empty()
    } else {
        trait_idents_of(attrs.drop_last()) + if attrs.last().key@ == "derive"@ {
            match attrs.last().args {
                Option::Some(items) => markers_of(items@),
                Option::None => Seq::empty(),
            }
        } else {
            Seq::empty()
        }
    }
}

/// Unfolding step for the scan of the attribute list.
proof fn lemma_struct_name_of_skip(attrs: Seq<AttrDecl>, i: int)
    requires
        0 <= i < attrs.len(),
    ensures
        struct_name_of(attrs.skip(i)) == {
            let rest = struct_name_of(attrs.skip(i + 1));
            if attrs[i].key@ == "substruct_builder"@ {
                match attrs[i].args {
                    Option::Some(items) => match first_name_arg(items@) {
                        Option::Some(n) => Option::Some(n),
                        Option::None => rest,
                    },
                    Option::None => rest,
                }
            } else {
                rest
            }
        },
{
    assert(attrs.skip(i)[0] == attrs[i]);
    assert(attrs.skip(i).drop_first() =~= attrs.skip(i + 1));
}

/// Unfolding step for the scan of an argument list.
proof fn lemma_first_name_arg_skip(items: Seq<MetaItem>, i: int)
    requires
        0 <= i < items.len(),
    ensures
        first_name_arg(items.skip(i)) == (match items[i] {
            MetaItem::TextArg { key, value } => if key@ == "name"@ {
                Option::Some(value)
            } else {
                first_name_arg(items.skip(i + 1))
            },
            _ => first_name_arg(items.skip(i + 1)),
        }),
{
    assert(items.skip(i)[0] == items[i]);
    assert(items.skip(i).drop_first() =~= items.skip(i + 1));
}

/// Reads the companion name override from the struct-level annotation:
/// the first `name = "..."` argument of the first `substruct_builder`
/// attribute that parses and carries one.
pub fn extract_struct_name(attrs: &Vec<AttrDecl>) -> (r: Option<String>)
    ensures
        r == struct_name_of(attrs@),
{
    proof {
        assert(attrs@.skip(0) =~= attrs@);
    }
    let n = attrs.len();
    let mut i: usize = 0;
    while i < n
        invariant
            n == attrs@.len(),
            i <= n,
            struct_name_of(attrs@) == struct_name_of(attrs@.skip(i as int)),
        decreases n - i,
    {
        proof {
            lemma_struct_name_of_skip(attrs@, i as int);
        }
        let marker = "substruct_builder".to_owned();
        if crate::value::string_eq(&attrs[i].key, &marker) {
            if let Option::Some(items) = &attrs[i].args {
                match first_name_item(items) {
                    Option::Some(found) => {
                        return Option::Some(found);
                    },
                    Option::None => {
                    },
                }
            }
        }
        i = i + 1;
    }
    proof {
        assert(attrs@.skip(n as int) =~= Seq::<AttrDecl>::empty());
    }
    Option::None
}

/// Finds the first `name = "..."` argument of an argument list.
fn first_name_item(items: &Vec<MetaItem>) -> (r: Option<String>)
    ensures
        r == first_name_arg(items@),
{
    proof {
        assert(items@.skip(0) =~= items@);
    }
    let n = items.len();
    let mut i: usize = 0;
    while i < n
        invariant
            n == items@.len(),
            i <= n,
            first_name_arg(items@) == first_name_arg(items@.skip(i as int)),
        decreases n - i,
    {
        proof {
            lemma_first_name_arg_skip(items@, i as int);
        }
        if let MetaItem::TextArg { key, value } = &items[i] {
            let name_key = "name".to_owned();
            if crate::value::string_eq(key, &name_key) {
                return Option::Some(value.clone());
            }
        }
        i = i + 1;
    }
    proof {
        assert(items@.skip(n as int) =~= Seq::<MetaItem>::empty());
    }
    Option::None
}

/// Collects the declared derive traits: every single-name entry of every
/// `derive` attribute that parses, in order.
pub fn extract_trait_idents(attrs: &Vec<AttrDecl>) -> (r: Vec<String>)
    ensures
        r@ == trait_idents_of(attrs@),
{
    let n = attrs.len();
    let mut r: Vec<String> = Vec::new();
    let mut i: usize = 0;
    while i < n
        invariant
            n == attrs@.len(),
            i <= n,
            r@ == trait_idents_of(attrs@.take(i as int)),
        decreases n - i,
    {
        proof {
            assert(attrs@.take(i + 1).drop_last() =~= attrs@.take(i as int));
            assert(attrs@.take(i + 1).last() == attrs@[i as int]);
        }
        let marker = "derive".to_owned();
        if crate::value::string_eq(&attrs[i].key, &marker) {
            if let Option::Some(items) = &attrs[i].args {
                let m = items.len();
                let mut j: usize = 0;
                while j < m
                    invariant
                        m == items@.len(),
                        j <= m,
                        r@ == trait_idents_of(attrs@.take(i as int)) + markers_of(
                            items@.take(j as int),
                        ),
                    decreases m - j,
                {
                    proof {
                        assert(items@.take(j + 1).drop_last() =~= items@.take(j as int));
                        assert(items@.take(j + 1).last() == items@[j as int]);
                    }
                    if let MetaItem::Marker(name) = &items[j] {
                        r.push(name.clone());
                    }
                    j = j + 1;
                }
                proof {
                    assert(items@.take(m as int) =~= items@);
                }
            }
        }
        i = i + 1;
    }
    proof {
        assert(attrs@.take(n as int) =~= attrs@);
    }
    r
}

} // verus!
