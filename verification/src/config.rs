//! The per-call view of a terminal record schema: the declared field order
//! (from "required") and the field-name-to-field-schema mapping (from
//! "properties"), both rebuilt from the leaf document on every call.

use vstd::prelude::*;

use crate::error::Error;
use crate::error::ErrorView;
use crate::error::enc_err_at;
use crate::error::mk_enc_err_at;
use crate::error::mk_parse_err;
use crate::error::parse_err;
use crate::value::JsonVal;
use crate::value::ValView;
use crate::value::clone_val;
use crate::value::entries_view;
use crate::value::get_entry;
use crate::value::items_view;
use crate::value::obj_get;
use crate::schema::names_view;

verus! {

broadcast use vstd::std_specs::vec::group_vec_axioms, vstd::seq::group_seq_axioms;

/// The identifying name of a leaf document: its "id" string.
pub open spec fn spec_doc_id(doc: Seq<(Seq<char>, ValView)>) -> Result<Seq<char>, ErrorView> {
    match obj_get(doc, "id"@) {
        None => Err(parse_err("Missing an ID value"@)),
        Some(idv) => match idv {
            ValView::Str(id) => Ok(id),
            _ => Err(parse_err("One of the ID values is not a string"@)),
        },
    }
}

/// The names of the "required" array, each of which must be a string.
pub open spec fn spec_req_names(items: Seq<ValView>, id: Seq<char>) -> Result<
    Seq<Seq<char>>,
    ErrorView,
>
    decreases items.len(),
{
    if items.len() == 0 {
        Ok(Seq::empty())
    } else {
        match items[0] {
            ValView::Str(s) => match spec_req_names(items.drop_first(), id) {
                Ok(rest) => Ok(seq![s] + rest),
                Err(e) => Err(e),
            },
            _ => Err(enc_err_at("Required Field entries must be strings"@, id)),
        }
    }
}

/// The declared field order of a leaf document: its "required" array. An
/// empty order is valid only when "properties" is empty too.
pub open spec fn spec_order(doc: Seq<(Seq<char>, ValView)>) -> Result<Seq<Seq<char>>, ErrorView> {
    match spec_doc_id(doc) {
        Err(e) => Err(e),
        Ok(id) => match obj_get(doc, "required"@) {
            None => Err(enc_err_at("Missing Required Field"@, id)),
            Some(req) => match req {
                ValView::Arr(items) => if items.len() == 0 {
                    match obj_get(doc, "properties"@) {
                        None => Err(enc_err_at("Missing properties Field"@, id)),
                        Some(props) => match props {
                            ValView::Obj(p) => if p.len() == 0 {
                                Ok(Seq::empty())
                            } else {
                                Err(enc_err_at("Required Field is empty!"@, id))
                            },
                            _ => Err(
                                enc_err_at("Properties Field is incorrectly formatted"@, id),
                            ),
                        },
                    }
                } else {
                    spec_req_names(items, id)
                },
                _ => Err(enc_err_at("Required Field must be an array"@, id)),
            },
        },
    }
}

/// The field-schema mapping of a leaf document: its "properties" value,
/// kept verbatim.
pub open spec fn spec_scheme(doc: Seq<(Seq<char>, ValView)>) -> Result<ValView, ErrorView> {
    match spec_doc_id(doc) {
        Err(e) => Err(e),
        Ok(id) => match obj_get(doc, "properties"@) {
            None => Err(enc_err_at("Missing properties Field"@, id)),
            Some(props) => Ok(props),
        },
    }
}

/// Field order and field-schema mapping together, in the order the two are
/// derived.
pub open spec fn spec_config(doc: Seq<(Seq<char>, ValView)>) -> Result<
    (Seq<Seq<char>>, ValView),
    ErrorView,
> {
    match spec_order(doc) {
        Err(e) => Err(e),
        Ok(order) => match spec_scheme(doc) {
            Err(e) => Err(e),
            Ok(scheme) => Ok((order, scheme)),
        },
    }
}

/// Ephemeral per-call view of a leaf schema: field order and field-schema
/// mapping. Rebuilt on every encode or decode call, never cached.
pub(crate) struct MessageConfig {
    /// The declared field names, in encoding order.
    pub(crate) order: Vec<String>,
    /// The "properties" value holding each field's schema.
    pub(crate) scheme: JsonVal,
}

impl MessageConfig {
    /// Derives the per-call view from a leaf document.
    pub(crate) fn new(doc: &Vec<(String, JsonVal)>) -> (r: Result<MessageConfig, Error>)
        ensures
            match (r, spec_config(entries_view(doc))) {
                (Ok(mc), Ok(p)) => names_view(mc.order@) == p.0 && mc.scheme@ == p.1,
                (Err(e), Err(ev)) => e@ == ev,
                _ => false,
            },
    {
        let order = match Self::order(doc) {
            Ok(o) => o,
            Err(e) => {
                return Err(e);
            },
        };
        let scheme = match Self::scheme(doc) {
            Ok(s) => s,
            Err(e) => {
                return Err(e);
            },
        };
        Ok(MessageConfig { order, scheme })
    }

    /// Reads the document's "id" string.
    fn doc_id(doc: &Vec<(String, JsonVal)>) -> (r: Result<String, Error>)
        ensures
            match (r, spec_doc_id(entries_view(doc))) {
                (Ok(s), Ok(sv)) => s@ == sv,
                (Err(e), Err(ev)) => e@ == ev,
                _ => false,
            },
    {
        let key: String = "id".to_owned();
        match get_entry(doc, &key) {
            None => Err(mk_parse_err("Missing an ID value")),
            Some(idv) => match idv {
                JsonVal::Str(s) => Ok(s.clone()),
                _ => Err(mk_parse_err("One of the ID values is not a string")),
            },
        }
    }

    /// Reads the declared field order from the document's "required" array.
    fn order(doc: &Vec<(String, JsonVal)>) -> (r: Result<Vec<String>, Error>)
        ensures
            match (r, spec_order(entries_view(doc))) {
                (Ok(o), Ok(ov)) => names_view(o@) == ov,
                (Err(e), Err(ev)) => e@ == ev,
                _ => false,
            },
    {
        let id = match Self::doc_id(doc) {
            Ok(i) => i,
            Err(e) => {
                return Err(e);
            },
        };
        let req_key: String = "required".to_owned();
        let req = match get_entry(doc, &req_key) {
            Some(r) => r,
            None => {
                return Err(mk_enc_err_at("Missing Required Field", id));
            },
        };
        let items = match req {
            JsonVal::Arr(items) => items,
            _ => {
                return Err(mk_enc_err_at("Required Field must be an array", id));
            },
        };
        proof {
            assert(req@ matches ValView::Arr(s) && s =~= items_view(items));
        }
        if items.len() == 0 {
            let props_key: String = "properties".to_owned();
            let props = match get_entry(doc, &props_key) {
                Some(p) => p,
                None => {
                    return Err(mk_enc_err_at("Missing properties Field", id));
                },
            };
            match props {
                JsonVal::Obj(p) => {
                    if p.len() == 0 {
                        proof {
                            assert(props@ matches ValView::Obj(pv) && pv.len() == p@.len());
                            assert(names_view(Seq::<String>::empty()) =~= Seq::<
                                Seq<char>,
                            >::empty());
                        }
                        return Ok(Vec::new());
                    }
                    proof {
                        assert(props@ matches ValView::Obj(pv) && pv.len() == p@.len());
                    }
                    return Err(mk_enc_err_at("Required Field is empty!", id));
                },
                _ => {
                    return Err(mk_enc_err_at("Properties Field is incorrectly formatted", id));
                },
            }
        }
        let ghost sv: Seq<ValView> = req@->Arr_0;
        let n = items.len();
        let mut out: Vec<String> = Vec::new();
        let mut i: usize = 0;
        proof {
            assert(sv.skip(0) =~= sv);
            assert(names_view(out@) + spec_req_names(sv, id@)->Ok_0 =~= spec_req_names(
                sv,
                id@,
            )->Ok_0) by {
                if spec_req_names(sv, id@) is Ok {
                    assert(names_view(out@) + spec_req_names(sv, id@)->Ok_0 =~= spec_req_names(
                        sv,
                        id@,
                    )->Ok_0);
                }
            }
        }
        while i < n
            invariant
                0 <= i <= n,
                n == items.len(),
                sv.len() == n,
                forall|k: int| 0 <= k < n ==> sv[k] == items@[k]@,
                out@.len() == i,
                spec_order(entries_view(doc)) == spec_req_names(sv, id@),
                spec_req_names(sv, id@) == (match spec_req_names(sv.skip(i as int), id@) {
                    Ok(rest) => Ok(names_view(out@) + rest),
                    Err(e) => Err(e),
                }),
            decreases n - i,
        {
            let s = match &items[i] {
                JsonVal::Str(s) => s.clone(),
                _ => {
                    proof {
                        assert(sv.skip(i as int)[0] == items@[i as int]@);
                    }
                    return Err(mk_enc_err_at("Required Field entries must be strings", id));
                },
            };
            proof {
                assert(sv.skip(i as int)[0] == items@[i as int]@);
                assert(sv.skip(i as int).drop_first() =~= sv.skip(i as int + 1));
                assert(names_view(out@.push(s)) =~= names_view(out@) + seq![s@]);
                let next = sv.skip(i as int + 1);
                if spec_req_names(next, id@) is Ok {
                    let rest = spec_req_names(next, id@)->Ok_0;
                    assert((names_view(out@) + seq![s@]) + rest =~= names_view(out@) + (
                    seq![s@] + rest));
                }
            }
            out.push(s);
            i = i + 1;
        }
        proof {
            assert(sv.skip(n as int) =~= Seq::<ValView>::empty());
            if spec_req_names(sv, id@) is Ok {
                assert(names_view(out@) + Seq::<Seq<char>>::empty() =~= names_view(out@));
            }
        }
        Ok(out)
    }

    /// Reads the field-schema mapping from the document's "properties".
    fn scheme(doc: &Vec<(String, JsonVal)>) -> (r: Result<JsonVal, Error>)
        ensures
            match (r, spec_scheme(entries_view(doc))) {
                (Ok(s), Ok(sv)) => s@ == sv,
                (Err(e), Err(ev)) => e@ == ev,
                _ => false,
            },
    {
        let id = match Self::doc_id(doc) {
            Ok(i) => i,
            Err(e) => {
                return Err(e);
            },
        };
        let props_key: String = "properties".to_owned();
        match get_entry(doc, &props_key) {
            Some(p) => Ok(clone_val(p)),
            None => Err(mk_enc_err_at("Missing properties Field", id)),
        }
    }
}

} // verus!
