//! The compiled schema tree and its compiler. A schema document with a
//! "oneOf" array compiles into a `Layer` whose children carry dense tags
//! `0..n` in declaration order; a document without "oneOf" is a terminal
//! `Bottom`, stored verbatim.

use vstd::prelude::*;

use crate::error::Error;
use crate::error::ErrorView;
use crate::error::mk_parse_err;
use crate::error::parse_err;
use crate::value::JsonVal;
use crate::value::ValView;
use crate::value::clone_entries;
use crate::value::doc_view;
use crate::value::entries_view;
use crate::value::get_entry;
use crate::value::obj_get;

verus! {

broadcast use vstd::std_specs::vec::group_vec_axioms, vstd::seq::group_seq_axioms;

/// Schema representation within the parser. `Bottom` nodes are the actual
/// record schemas to transmit.
#[derive(Debug, PartialEq)]
pub enum MultiLayerSchema {
    /// A tagged union of named alternatives. The child at index `t` of
    /// `schemes` is selected by tag byte `t`; `lookup[t]` is its name.
    Layer {
        /// The subschema alternatives, indexed by tag byte.
        schemes: Vec<MultiLayerSchema>,
        /// The alternative names, indexed by tag byte.
        lookup: Vec<String>,
    },
    /// A terminal record schema, kept verbatim as its document's entries.
    Bottom(Vec<(String, JsonVal)>),
}

/// The mathematical model of a [`MultiLayerSchema`].
#[verifier::ext_equal]
pub enum SchemaView {
    Layer { schemes: Seq<SchemaView>, lookup: Seq<Seq<char>> },
    Bottom(Seq<(Seq<char>, ValView)>),
}

/// Model of a vector of schema nodes, node by node.
pub open spec fn schemes_view(s: Seq<MultiLayerSchema>) -> Seq<SchemaView>
    decreases s,
{
    Seq::new(
        s.len(),
        |i: int|
            if 0 <= i < s.len() {
                schema_view(s[i])
            } else {
                SchemaView::Bottom(Seq::empty())
            },
    )
}

/// Model of a vector of names.
pub open spec fn names_view(l: Seq<String>) -> Seq<Seq<char>> {
    Seq::new(l.len(), |i: int| l[i]@)
}

/// The model of a schema node.
pub open spec fn schema_view(s: MultiLayerSchema) -> SchemaView
    decreases s,
{
    match s {
        MultiLayerSchema::Layer { schemes, lookup } => SchemaView::Layer {
            schemes: schemes_view(schemes@),
            lookup: names_view(lookup@),
        },
        MultiLayerSchema::Bottom(entries) => SchemaView::Bottom(doc_view(entries@)),
    }
}

impl View for MultiLayerSchema {
    type V = SchemaView;

    open spec fn view(&self) -> SchemaView {
        schema_view(*self)
    }
}

/// The tag that a name selects: the last position of `name` in `lookup`,
/// as the name-to-tag table keeps the latest binding of a repeated name.
pub open spec fn lookup_tag(lookup: Seq<Seq<char>>, name: Seq<char>) -> Option<int>
    decreases lookup.len(),
{
    if lookup.len() == 0 {
        None
    } else if lookup.last() == name {
        Some(lookup.len() - 1)
    } else {
        lookup_tag(lookup.drop_last(), name)
    }
}

/// A found tag is a position of its name in the table.
pub proof fn lemma_lookup_tag_valid(lookup: Seq<Seq<char>>, name: Seq<char>)
    requires
        lookup_tag(lookup, name) is Some,
    ensures
        0 <= lookup_tag(lookup, name)->Some_0 < lookup.len(),
        lookup[lookup_tag(lookup, name)->Some_0] == name,
    decreases lookup.len(),
{
    if lookup.len() == 0 {
    } else if lookup.last() == name {
    } else {
        lemma_lookup_tag_valid(lookup.drop_last(), name);
    }
}

/// The identifying name of a subschema document: its "id" string.
pub open spec fn spec_child_id(sub: ValView) -> Result<Seq<char>, ErrorView> {
    match sub {
        ValView::Obj(entries) => match obj_get(entries, "id"@) {
            Some(idv) => match idv {
                ValView::Str(name) => Ok(name),
                _ => Err(parse_err("Could not find subschema with given key"@)),
            },
            None => Err(parse_err("Could not find subschema with given key"@)),
        },
        _ => Err(parse_err("Could not find subschema with given key"@)),
    }
}

/// What compiling a schema document yields: a `Layer` when the document
/// holds a "oneOf" array, a verbatim `Bottom` otherwise, or the first
/// error met walking the document.
pub open spec fn spec_parse(v: ValView) -> Result<SchemaView, ErrorView>
    decreases v,
    via spec_parse_dec
{
    match v {
        ValView::Obj(entries) => match obj_get(entries, "oneOf"@) {
            Some(one) => match one {
                ValView::Arr(subs) => if subs.len() > 256 {
                    Err(parse_err("Schema has more than 256 subschemas"@))
                } else {
                    match spec_parse_children(subs) {
                        Ok(pair) => Ok(SchemaView::Layer { schemes: pair.0, lookup: pair.1 }),
                        Err(e) => Err(e),
                    }
                },
                _ => Err(parse_err("oneOf is incorrectly declared, unable to parse array"@)),
            },
            None => Ok(SchemaView::Bottom(entries)),
        },
        _ => Err(parse_err("Provided Schema is not a valid Key-Value Map"@)),
    }
}

/// Compiles the elements of a "oneOf" array in declaration order, pairing
/// each compiled child with its "id" name.
pub open spec fn spec_parse_children(subs: Seq<ValView>) -> Result<
    (Seq<SchemaView>, Seq<Seq<char>>),
    ErrorView,
>
    decreases subs,
{
    if subs.len() == 0 {
        Ok((Seq::empty(), Seq::empty()))
    } else {
        match spec_parse(subs[0]) {
            Err(e) => Err(e),
            Ok(child) => match spec_child_id(subs[0]) {
                Err(e) => Err(e),
                Ok(name) => match spec_parse_children(subs.drop_first()) {
                    Err(e) => Err(e),
                    Ok(rest) => Ok((seq![child] + rest.0, seq![name] + rest.1)),
                },
            },
        }
    }
}

#[via_fn]
proof fn spec_parse_dec(v: ValView) {
    match v {
        ValView::Obj(entries) => match obj_get(entries, "oneOf"@) {
            Some(one) => {
                crate::value::lemma_obj_get_witness(entries, "oneOf"@);
                let j = choose|j: int| 0 <= j < entries.len() && entries[j].1 == one;
                match one {
                    ValView::Arr(subs) => {
                        assert(decreases_to!(v => entries));
                        assert(decreases_to!(entries => entries[j]));
                        assert(decreases_to!(entries[j] => entries[j].1));
                        assert(decreases_to!(one => subs));
                        assert(decreases_to!(v => subs));
                    },
                    _ => {},
                }
            },
            None => {},
        },
        _ => {},
    }
}

/// Compiles a schema document into a schema tree: a `Layer` for each
/// "oneOf" array met on the way down, a verbatim `Bottom` at each document
/// without one.
pub fn parse_multilayer_schema(schema: &JsonVal) -> (r: Result<MultiLayerSchema, Error>)
    ensures
        match (r, spec_parse(schema@)) {
            (Ok(s), Ok(sv)) => s@ == sv,
            (Err(e), Err(ev)) => e@ == ev,
            _ => false,
        },
    decreases schema,
{
    let entries = match schema {
        JsonVal::Obj(entries) => entries,
        _ => {
            return Err(mk_parse_err("Provided Schema is not a valid Key-Value Map"));
        },
    };
    proof {
        assert(schema@ matches ValView::Obj(s) && s =~= entries_view(entries));
    }
    let one_of_key: String = "oneOf".to_owned();
    let one = match get_entry(entries, &one_of_key) {
        Some(one) => one,
        None => {
            let copy = clone_entries(entries);
            let r = MultiLayerSchema::Bottom(copy);
            proof {
                assert(r@ matches SchemaView::Bottom(d) && d =~= entries_view(entries));
            }
            return Ok(r);
        },
    };
    let subs = match one {
        JsonVal::Arr(subs) => subs,
        _ => {
            return Err(mk_parse_err("oneOf is incorrectly declared, unable to parse array"));
        },
    };
    if subs.len() > 256 {
        return Err(mk_parse_err("Schema has more than 256 subschemas"));
    }
    let ghost sv: Seq<ValView> = one@->Arr_0;
    proof {
        assert(sv.len() == subs@.len() && forall|k: int|
            0 <= k < subs@.len() ==> sv[k] == subs@[k]@);
        assert(sv.skip(0) =~= sv);
    }
    let n = subs.len();
    let mut schemes: Vec<MultiLayerSchema> = Vec::new();
    let mut lookup: Vec<String> = Vec::new();
    let mut i: usize = 0;
    while i < n
        invariant
            0 <= i <= n,
            n == subs.len(),
            *schema == JsonVal::Obj(*entries),
            exists|j: int| 0 <= j < entries@.len() && entries@[j].1 == *one,
            *one == JsonVal::Arr(*subs),
            sv.len() == n,
            forall|k: int| 0 <= k < n ==> sv[k] == subs@[k]@,
            schemes@.len() == i,
            lookup@.len() == i,
            spec_parse(schema@) == (match spec_parse_children(sv) {
                Ok(pair) => Ok(SchemaView::Layer { schemes: pair.0, lookup: pair.1 }),
                Err(e) => Err(e),
            }),
            spec_parse_children(sv) == (match spec_parse_children(sv.skip(i as int)) {
                Ok(rest) => Ok(
                    (
                        schemes_view(schemes@) + rest.0,
                        names_view(lookup@) + rest.1,
                    ),
                ),
                Err(e) => Err(e),
            }),
        decreases n - i,
    {
        proof {
            let j = choose|j: int| 0 <= j < entries@.len() && entries@[j].1 == *one;
            assert(decreases_to!(*schema => *entries));
            assert(decreases_to!(*entries => entries@[j]));
            assert(decreases_to!(entries@[j] => entries@[j].1));
            assert(decreases_to!(*one => one->Arr_0));
            assert(one->Arr_0 == *subs);
            assert(decreases_to!(*subs => subs@[i as int]));
            assert(decreases_to!(*schema => subs@[i as int]));
            assert(sv.skip(i as int)[0] == subs@[i as int]@);
        }
        let child = match parse_multilayer_schema(&subs[i]) {
            Ok(c) => c,
            Err(e) => {
                return Err(e);
            },
        };
        let id_key: String = "id".to_owned();
        let sub = &subs[i];
        let name: String = match sub {
            JsonVal::Obj(sub_entries) => {
                proof {
                    assert(sub@ matches ValView::Obj(se) && se =~= entries_view(sub_entries));
                }
                match get_entry(sub_entries, &id_key) {
                    Some(idv) => match idv {
                        JsonVal::Str(s) => s.clone(),
                        _ => {
                            return Err(mk_parse_err("Could not find subschema with given key"));
                        },
                    },
                    None => {
                        return Err(mk_parse_err("Could not find subschema with given key"));
                    },
                }
            },
            _ => {
                proof {
                    assert(false);
                }
                return Err(mk_parse_err("Could not find subschema with given key"));
            },
        };
        proof {
            assert(spec_parse(sv.skip(i as int)[0]) matches Ok(c) && c == child@);
            assert(spec_child_id(sv.skip(i as int)[0]) == Ok::<Seq<char>, ErrorView>(name@));
            assert(sv.skip(i as int).drop_first() =~= sv.skip(i as int + 1));
            assert(schemes_view(schemes@.push(child)) =~= schemes_view(schemes@).push(child@));
            assert(names_view(lookup@.push(name)) =~= names_view(lookup@).push(name@));
            assert(schemes_view(schemes@).push(child@) =~= schemes_view(schemes@) + seq![child@]);
            assert(names_view(lookup@).push(name@) =~= names_view(lookup@) + seq![name@]);
            let next = sv.skip(i as int + 1);
            if spec_parse_children(next) is Ok {
                let rest = spec_parse_children(next)->Ok_0;
                assert((schemes_view(schemes@) + seq![child@]) + rest.0 =~= schemes_view(
                    schemes@,
                ) + (seq![child@] + rest.0));
                assert((names_view(lookup@) + seq![name@]) + rest.1 =~= names_view(lookup@)
                    + (seq![name@] + rest.1));
            }
        }
        schemes.push(child);
        lookup.push(name);
        i = i + 1;
    }
    proof {
        assert(sv.skip(n as int) =~= Seq::<ValView>::empty());
    }
    let r = MultiLayerSchema::Layer { schemes, lookup };
    proof {
        assert(spec_parse_children(sv) matches Ok(rest) && rest.0 =~= schemes_view(schemes@)
            && rest.1 =~= names_view(lookup@));
        assert(r@ matches SchemaView::Layer { schemes: rs, lookup: rl } && rs == schemes_view(
            schemes@,
        ) && rl == names_view(lookup@));
    }
    Ok(r)
}

} // verus!
