//! The layer dispatchers, the record codec and the parser: encoding
//! descends tagged-union layers guided by the message's keys and emits one
//! tag byte per layer; decoding descends guided by leading bytes and
//! recovers the tag names; the record codec lays down or reads the ordered
//! field list at the leaf; the envelope reconstructor rewraps a decoded
//! record under the recovered names.

use vstd::prelude::*;

use crate::config::MessageConfig;
use crate::config::spec_config;
use crate::error::Error;
use crate::error::ErrorView;
use crate::error::enc_err;
use crate::error::enc_err_at;
use crate::error::mk_enc_err;
use crate::error::mk_enc_err_at;
use crate::error::mk_parse_err;
use crate::error::parse_err;
use crate::fields::decode_field;
use crate::fields::encode_field;
use crate::fields::spec_decode_field;
use crate::fields::spec_encode_field;
use crate::schema::MultiLayerSchema;
use crate::schema::SchemaView;
use crate::schema::lookup_tag;
use crate::schema::names_view;
use crate::schema::schemes_view;
use crate::schema::parse_multilayer_schema;
use crate::schema::spec_parse;
use crate::value::JsonVal;
use crate::value::ValView;
use crate::value::clone_entries;
use crate::value::doc_view;
use crate::value::entries_view;
use crate::value::get_entry;
use crate::value::obj_get;

verus! {

broadcast use vstd::std_specs::vec::group_vec_axioms, vstd::seq::group_seq_axioms;

/// The character of one decimal digit.
pub open spec fn dec_digit(d: nat) -> char {
    if d == 0 {
        '0'
    } else if d == 1 {
        '1'
    } else if d == 2 {
        '2'
    } else if d == 3 {
        '3'
    } else if d == 4 {
        '4'
    } else if d == 5 {
        '5'
    } else if d == 6 {
        '6'
    } else if d == 7 {
        '7'
    } else if d == 8 {
        '8'
    } else {
        '9'
    }
}

/// The decimal digits of `n`, most significant first, without leading
/// zeros.
pub open spec fn dec_str(n: nat) -> Seq<char>
    decreases n,
{
    if n < 10 {
        seq![dec_digit(n)]
    } else {
        dec_str(n / 10) + seq![dec_digit(n % 10)]
    }
}

/// Relies on `u8`'s `ToString`: the decimal digits of the value, most
/// significant first, without leading zeros.
#[verifier::external_body]
fn u8_to_string(n: u8) -> (r: String)
    ensures
        r@ == dec_str(n as nat),
{
    n.to_string()
}

/// What descending the layers on encode yields: the leaf document, the
/// innermost message value and the tag bytes, outer to inner. At each
/// layer the message must be an object with exactly one key, a member of
/// the layer's name table.
pub open spec fn spec_find_encoding(s: SchemaView, m: ValView) -> Result<
    (Seq<(Seq<char>, ValView)>, ValView, Seq<u8>),
    ErrorView,
>
    decreases s,
    via spec_find_encoding_dec
{
    match s {
        SchemaView::Layer { schemes, lookup } => match m {
            ValView::Obj(mes) => if mes.len() > 1 {
                Err(parse_err("Message has more than one signal key"@))
            } else if mes.len() == 0 {
                Err(parse_err("Message doesn't have a signal key"@))
            } else {
                let signal = mes[0].0;
                match lookup_tag(lookup, signal) {
                    None => Err(enc_err_at("Unable to get scheme id"@, signal)),
                    Some(t) => if t > 255 || t >= schemes.len() {
                        Err(enc_err_at("Unable to get scheme from scheme id"@, signal))
                    } else {
                        match spec_find_encoding(schemes[t], mes[0].1) {
                            Ok(p) => Ok((p.0, p.1, seq![t as u8] + p.2)),
                            Err(e) => Err(e),
                        }
                    },
                }
            },
            _ => Err(parse_err("Message doesn't have a signal key"@)),
        },
        SchemaView::Bottom(doc) => Ok((doc, m, Seq::empty())),
    }
}

#[via_fn]
proof fn spec_find_encoding_dec(s: SchemaView, m: ValView) {
    match s {
        SchemaView::Layer { schemes, lookup } => match m {
            ValView::Obj(mes) => {
                if mes.len() == 1 {
                    match lookup_tag(lookup, mes[0].0) {
                        Some(t) => {
                            crate::schema::lemma_lookup_tag_valid(lookup, mes[0].0);
                        },
                        None => {},
                    }
                }
            },
            _ => {},
        },
        _ => {},
    }
}

/// What descending the layers on decode yields: the leaf document, the
/// bytes left over and the recovered names, outer to inner. At each layer
/// one leading byte selects the child.
pub open spec fn spec_find_decoding(s: SchemaView, bytes: Seq<u8>) -> Result<
    (Seq<(Seq<char>, ValView)>, Seq<u8>, Seq<Seq<char>>),
    ErrorView,
>
    decreases s,
{
    match s {
        SchemaView::Layer { schemes, lookup } => if bytes.len() == 0 {
            Err(enc_err("Message is empty"@))
        } else {
            let t = bytes[0] as int;
            if t >= schemes.len() {
                Err(
                    enc_err_at(
                        "Provided Message Bit couldn't be found"@,
                        dec_str(bytes[0] as nat),
                    ),
                )
            } else {
                let names: Seq<Seq<char>> = if t < lookup.len() {
                    seq![lookup[t]]
                } else {
                    Seq::empty()
                };
                match spec_find_decoding(schemes[t], bytes.drop_first()) {
                    Ok(p) => Ok((p.0, p.1, names + p.2)),
                    Err(e) => Err(e),
                }
            }
        },
        SchemaView::Bottom(doc) => Ok((doc, bytes, Seq::empty())),
    }
}

/// Encoding of the ordered field list of the innermost message: the
/// per-field encodings, concatenated in declared order.
pub open spec fn spec_encode_record(order: Seq<Seq<char>>, scheme: ValView, msg: ValView) -> Result<
    Seq<u8>,
    ErrorView,
>
    decreases order.len(),
{
    if order.len() == 0 {
        Ok(Seq::empty())
    } else {
        match spec_encode_field(scheme, msg, order[0]) {
            Err(e) => Err(e),
            Ok(b) => match spec_encode_record(order.drop_first(), scheme, msg) {
                Err(e) => Err(e),
                Ok(rest) => Ok(b + rest),
            },
        }
    }
}

/// Decoding of the ordered field list from the front of `bytes`: one
/// entry per declared field, in order, and the bytes left over.
pub open spec fn spec_decode_record(order: Seq<Seq<char>>, scheme: ValView, bytes: Seq<u8>) -> Result<
    (Seq<(Seq<char>, ValView)>, Seq<u8>),
    ErrorView,
>
    decreases order.len(),
{
    if order.len() == 0 {
        Ok((Seq::empty(), bytes))
    } else {
        match spec_decode_field(scheme, order[0], bytes) {
            Err(e) => Err(e),
            Ok(p) => match spec_decode_record(order.drop_first(), scheme, p.1) {
                Err(e) => Err(e),
                Ok(rest) => Ok((seq![(order[0], p.0)] + rest.0, rest.1)),
            },
        }
    }
}

/// The decoded record rewrapped under the recovered names, outermost
/// first: each name wraps what follows it as the sole value of a
/// single-key object.
pub open spec fn spec_wrap(entries: Seq<(Seq<char>, ValView)>, names: Seq<Seq<char>>) -> ValView
    decreases names.len(),
{
    if names.len() == 0 {
        ValView::Obj(entries)
    } else {
        ValView::Obj(seq![(names[0], spec_wrap(entries, names.drop_first()))])
    }
}

/// What encoding a message against a compiled schema yields: the tag
/// bytes of the traversed layers followed by the per-field encodings of
/// the innermost record, or the first error met.
pub open spec fn spec_encode(s: SchemaView, m: ValView) -> Result<Seq<u8>, ErrorView> {
    match spec_find_encoding(s, m) {
        Err(e) => Err(e),
        Ok(found) => match spec_config(found.0) {
            Err(e) => Err(e),
            Ok(cfg) => match spec_encode_record(cfg.0, cfg.1, found.1) {
                Err(e) => Err(e),
                Ok(body) => Ok(found.2 + body),
            },
        },
    }
}

/// What decoding a byte sequence against a compiled schema yields: the
/// leaf record read after the tag bytes, rewrapped under the recovered
/// names, or the first error met. Bytes after the declared fields are
/// ignored.
pub open spec fn spec_decode(s: SchemaView, bytes: Seq<u8>) -> Result<ValView, ErrorView> {
    match spec_find_decoding(s, bytes) {
        Err(e) => Err(e),
        Ok(found) => match spec_config(found.0) {
            Err(e) => Err(e),
            Ok(cfg) => match spec_decode_record(cfg.0, cfg.1, found.1) {
                Err(e) => Err(e),
                Ok(rec) => Ok(spec_wrap(rec.0, found.2)),
            },
        },
    }
}


/// The tag that `name` selects: the last position of `name` in the
/// table, or `None`.
fn find_tag(lookup: &Vec<String>, name: &String) -> (r: Option<usize>)
    ensures
        match r {
            Some(t) => lookup_tag(names_view(lookup@), name@) == Some(t as int) && t
                < lookup@.len(),
            None => lookup_tag(names_view(lookup@), name@) is None,
        },
{
    let ghost nv: Seq<Seq<char>> = names_view(lookup@);
    let mut i: usize = lookup.len();
    proof {
        assert(nv.take(i as int) =~= nv);
    }
    while i > 0
        invariant
            0 <= i <= lookup@.len(),
            nv == names_view(lookup@),
            nv.len() == lookup@.len(),
            lookup_tag(nv, name@) == lookup_tag(nv.take(i as int), name@),
        decreases i,
    {
        proof {
            assert(nv.take(i as int).last() == lookup@[i - 1]@);
            assert(nv.take(i as int).drop_last() =~= nv.take(i - 1));
        }
        if lookup[i - 1] == *name {
            return Some(i - 1);
        }
        i = i - 1;
    }
    proof {
        assert(nv.take(0) =~= Seq::<Seq<char>>::empty());
    }
    None
}

/// Descends the layers guided by the message's keys, appending one tag
/// byte per layer to the carried list, down to the leaf.
fn find_schema_encoding<'a>(
    scheme: &'a MultiLayerSchema,
    message: &'a JsonVal,
    message_bits_carry: Vec<u8>,
) -> (r: Result<(&'a Vec<(String, JsonVal)>, &'a JsonVal, Vec<u8>), Error>)
    ensures
        match (r, spec_find_encoding(scheme@, message@)) {
            (Ok(p), Ok(sp)) => doc_view(p.0@) == sp.0 && p.1@ == sp.1 && p.2@
                == message_bits_carry@ + sp.2,
            (Err(e), Err(ev)) => e@ == ev,
            _ => false,
        },
    decreases scheme,
{
    match scheme {
        MultiLayerSchema::Layer { schemes, lookup } => {
            let mentries = match message {
                JsonVal::Obj(es) => es,
                _ => {
                    return Err(mk_parse_err("Message doesn't have a signal key"));
                },
            };
            proof {
                assert(message@ matches ValView::Obj(s) && s.len() == mentries@.len());
            }
            if mentries.len() > 1 {
                return Err(mk_parse_err("Message has more than one signal key"));
            }
            if mentries.len() == 0 {
                return Err(mk_parse_err("Message doesn't have a signal key"));
            }
            let signal: &String = &mentries[0].0;
            proof {
                assert(message@->Obj_0[0] == (mentries@[0].0@, mentries@[0].1@));
                assert(scheme@ matches SchemaView::Layer { schemes: sv, lookup: lv } && sv
                    == schemes_view(schemes@) && lv == names_view(lookup@));
            }
            let t = match find_tag(lookup, signal) {
                Some(t) => t,
                None => {
                    return Err(mk_enc_err_at("Unable to get scheme id", signal.clone()));
                },
            };
            if t > 255 || t >= schemes.len() {
                return Err(mk_enc_err_at("Unable to get scheme from scheme id", signal.clone()));
            }
            let mut carry = message_bits_carry;
            let tag: u8 = t as u8;
            carry.push(tag);
            proof {
                assert(schemes_view(schemes@)[t as int] == schemes@[t as int]@);
                assert(carry@ =~= message_bits_carry@ + seq![tag]);
            }
            let res = find_schema_encoding(&schemes[t], &mentries[0].1, carry);
            proof {
                match spec_find_encoding(schemes@[t as int]@, mentries@[0 as int].1@) {
                    Ok(sp) => {
                        assert((message_bits_carry@ + seq![tag]) + sp.2 =~= message_bits_carry@
                            + (seq![tag] + sp.2));
                    },
                    Err(e) => {},
                }
            }
            res
        },
        MultiLayerSchema::Bottom(entries) => {
            proof {
                assert(scheme@ matches SchemaView::Bottom(d) && d == doc_view(entries@));
                assert(message_bits_carry@ + Seq::<u8>::empty() =~= message_bits_carry@);
            }
            Ok((entries, message, message_bits_carry))
        },
    }
}

/// Descends the layers guided by leading bytes, appending the name each
/// tag byte selects, down to the leaf.
fn find_schema_decoding<'a>(
    scheme: &'a MultiLayerSchema,
    bytes: &Vec<u8>,
    pos: usize,
    message_values_carry: Vec<String>,
) -> (r: Result<(&'a Vec<(String, JsonVal)>, usize, Vec<String>), Error>)
    requires
        pos <= bytes@.len(),
    ensures
        match (r, spec_find_decoding(scheme@, bytes@.skip(pos as int))) {
            (Ok(p), Ok(sp)) => doc_view(p.0@) == sp.0 && pos <= p.1 <= bytes@.len() && sp.1
                == bytes@.skip(p.1 as int) && names_view(p.2@) == names_view(
                message_values_carry@,
            ) + sp.2,
            (Err(e), Err(ev)) => e@ == ev,
            _ => false,
        },
    decreases scheme,
{
    let ghost tail: Seq<u8> = bytes@.skip(pos as int);
    match scheme {
        MultiLayerSchema::Layer { schemes, lookup } => {
            proof {
                assert(scheme@ matches SchemaView::Layer { schemes: sv, lookup: lv } && sv
                    == schemes_view(schemes@) && lv == names_view(lookup@));
            }
            if pos >= bytes.len() {
                return Err(mk_enc_err("Message is empty"));
            }
            let t = bytes[pos];
            proof {
                assert(tail[0] == bytes@[pos as int]);
            }
            if (t as usize) >= schemes.len() {
                return Err(
                    mk_enc_err_at("Provided Message Bit couldn't be found", u8_to_string(t)),
                );
            }
            let mut carry = message_values_carry;
            let ghost carry0 = carry@;
            if (t as usize) < lookup.len() {
                carry.push(lookup[t as usize].clone());
                proof {
                    assert(names_view(lookup@)[t as int] == lookup@[t as int]@);
                    assert(names_view(carry@) =~= names_view(carry0) + seq![
                        lookup@[t as int]@,
                    ]);
                }
            } else {
                proof {
                    assert(names_view(carry@) =~= names_view(carry0) + Seq::<Seq<char>>::empty());
                }
            }
            proof {
                assert(schemes_view(schemes@)[t as int] == schemes@[t as int]@);
                assert(tail.drop_first() =~= bytes@.skip(pos + 1));
            }
            let ghost names_part: Seq<Seq<char>> = if (t as int) < lookup@.len() {
                seq![names_view(lookup@)[t as int]]
            } else {
                Seq::empty()
            };
            let res = find_schema_decoding(&schemes[t as usize], bytes, pos + 1, carry);
            proof {
                match spec_find_decoding(schemes@[t as int]@, bytes@.skip(pos + 1)) {
                    Ok(sp) => {
                        assert((names_view(carry0) + names_part) + sp.2 =~= names_view(carry0) + (
                        names_part + sp.2));
                    },
                    Err(e) => {},
                }
            }
            res
        },
        MultiLayerSchema::Bottom(entries) => {
            proof {
                assert(scheme@ matches SchemaView::Bottom(d) && d == doc_view(entries@));
                assert(names_view(message_values_carry@) + Seq::<Seq<char>>::empty()
                    =~= names_view(message_values_carry@));
            }
            Ok((entries, pos, message_values_carry))
        },
    }
}

/// Encodes the innermost message's fields in declared order and
/// concatenates their encodings.
fn encode_record(config: &MessageConfig, message: &JsonVal) -> (r: Result<Vec<u8>, Error>)
    ensures
        match (r, spec_encode_record(names_view(config.order@), config.scheme@, message@)) {
            (Ok(b), Ok(bv)) => b@ == bv,
            (Err(e), Err(ev)) => e@ == ev,
            _ => false,
        },
{
    let ghost ov: Seq<Seq<char>> = names_view(config.order@);
    let n = config.order.len();
    let mut out: Vec<u8> = Vec::new();
    let mut i: usize = 0;
    proof {
        assert(ov.skip(0) =~= ov);
        match spec_encode_record(ov, config.scheme@, message@) {
            Ok(bv) => {
                assert(out@ + bv =~= bv);
            },
            Err(e) => {},
        }
    }
    while i < n
        invariant
            0 <= i <= n,
            n == config.order.len(),
            ov == names_view(config.order@),
            ov.len() == n,
            spec_encode_record(ov, config.scheme@, message@) == (match spec_encode_record(
                ov.skip(i as int),
                config.scheme@,
                message@,
            ) {
                Ok(rest) => Ok(out@ + rest),
                Err(e) => Err(e),
            }),
        decreases n - i,
    {
        proof {
            assert(ov.skip(i as int)[0] == config.order@[i as int]@);
            assert(ov.skip(i as int).drop_first() =~= ov.skip(i as int + 1));
        }
        let mut b = match encode_field(&config.scheme, message, &config.order[i]) {
            Ok(b) => b,
            Err(e) => {
                return Err(e);
            },
        };
        let ghost out0 = out@;
        let ghost bseq = b@;
        out.append(&mut b);
        proof {
            assert(out@ =~= out0 + bseq);
            match spec_encode_record(ov.skip(i as int + 1), config.scheme@, message@) {
                Ok(rest) => {
                    assert((out0 + bseq) + rest =~= out0 + (bseq + rest));
                },
                Err(e) => {},
            }
        }
        i = i + 1;
    }
    proof {
        assert(ov.skip(n as int) =~= Seq::<Seq<char>>::empty());
        assert(out@ + Seq::<u8>::empty() =~= out@);
    }
    Ok(out)
}

/// Decodes the declared fields in order from `bytes` at `pos`, producing
/// one entry per field and the position after the last one.
fn decode_record(config: &MessageConfig, bytes: &Vec<u8>, pos: usize) -> (r: Result<
    (Vec<(String, JsonVal)>, usize),
    Error,
>)
    requires
        pos <= bytes@.len(),
    ensures
        match (
            r,
            spec_decode_record(
                names_view(config.order@),
                config.scheme@,
                bytes@.skip(pos as int),
            ),
        ) {
            (Ok(p), Ok(sp)) => doc_view(p.0@) == sp.0 && pos <= p.1 <= bytes@.len() && sp.1
                == bytes@.skip(p.1 as int),
            (Err(e), Err(ev)) => e@ == ev,
            _ => false,
        },
{
    let ghost ov: Seq<Seq<char>> = names_view(config.order@);
    let n = config.order.len();
    let mut out: Vec<(String, JsonVal)> = Vec::new();
    let mut cur: usize = pos;
    let mut i: usize = 0;
    proof {
        assert(ov.skip(0) =~= ov);
        match spec_decode_record(ov, config.scheme@, bytes@.skip(pos as int)) {
            Ok(sp) => {
                assert(doc_view(out@) + sp.0 =~= sp.0);
            },
            Err(e) => {},
        }
    }
    while i < n
        invariant
            0 <= i <= n,
            n == config.order.len(),
            ov == names_view(config.order@),
            ov.len() == n,
            pos <= cur <= bytes@.len(),
            spec_decode_record(ov, config.scheme@, bytes@.skip(pos as int)) == (match
                spec_decode_record(ov.skip(i as int), config.scheme@, bytes@.skip(cur as int)) {
                Ok(rest) => Ok((doc_view(out@) + rest.0, rest.1)),
                Err(e) => Err(e),
            }),
        decreases n - i,
    {
        proof {
            assert(ov.skip(i as int)[0] == config.order@[i as int]@);
            assert(ov.skip(i as int).drop_first() =~= ov.skip(i as int + 1));
        }
        let fv = match decode_field(&config.scheme, &config.order[i], bytes, cur) {
            Ok(p) => p,
            Err(e) => {
                return Err(e);
            },
        };
        let name = config.order[i].clone();
        let ghost out0 = out@;
        out.push((name, fv.0));
        proof {
            assert(doc_view(out@) =~= doc_view(out0) + seq![
                (config.order@[i as int]@, fv.0@),
            ]);
            match spec_decode_record(
                ov.skip(i as int + 1),
                config.scheme@,
                bytes@.skip(fv.1 as int),
            ) {
                Ok(rest) => {
                    assert((doc_view(out0) + seq![(config.order@[i as int]@, fv.0@)]) + rest.0
                        =~= doc_view(out0) + (seq![(config.order@[i as int]@, fv.0@)]
                        + rest.0));
                },
                Err(e) => {},
            }
        }
        cur = fv.1;
        i = i + 1;
    }
    proof {
        assert(ov.skip(n as int) =~= Seq::<Seq<char>>::empty());
        assert(doc_view(out@) + Seq::<(Seq<char>, ValView)>::empty() =~= doc_view(out@));
    }
    Ok((out, cur))
}

/// Rewraps the decoded record under the recovered names from `idx` on:
/// each name wraps what follows it as the sole value of a single-key
/// object.
fn create_output_package(
    message: Vec<(String, JsonVal)>,
    frontmatter: &Vec<String>,
    idx: usize,
) -> (r: JsonVal)
    requires
        idx <= frontmatter@.len(),
    ensures
        r@ == spec_wrap(doc_view(message@), names_view(frontmatter@).skip(idx as int)),
    decreases frontmatter@.len() - idx,
{
    let ghost nv: Seq<Seq<char>> = names_view(frontmatter@);
    if idx < frontmatter.len() {
        let header = frontmatter[idx].clone();
        let inner = create_output_package(message, frontmatter, idx + 1);
        let mut data: Vec<(String, JsonVal)> = Vec::new();
        let ghost header_v = header@;
        let ghost inner_v = inner@;
        data.push((header, inner));
        let r = JsonVal::Obj(data);
        proof {
            assert(nv.skip(idx as int)[0] == frontmatter@[idx as int]@);
            assert(nv.skip(idx as int).drop_first() =~= nv.skip(idx as int + 1));
            assert(r@ matches ValView::Obj(s) && s =~= seq![(header_v, inner_v)]);
        }
        r
    } else {
        let r = JsonVal::Obj(message);
        proof {
            assert(nv.skip(idx as int) =~= Seq::<Seq<char>>::empty());
            assert(r@ matches ValView::Obj(s) && s =~= doc_view(r->Obj_0@));
        }
        r
    }
}


/// A copy of a name table, name by name.
fn clone_strings(v: &Vec<String>) -> (r: Vec<String>)
    ensures
        r@.len() == v@.len(),
        names_view(r@) == names_view(v@),
{
    let n = v.len();
    let mut out: Vec<String> = Vec::new();
    let mut i: usize = 0;
    while i < n
        invariant
            0 <= i <= n,
            n == v.len(),
            out@.len() == i,
            forall|j: int| 0 <= j < i ==> out@[j]@ == v@[j]@,
        decreases n - i,
    {
        out.push(v[i].clone());
        i = i + 1;
    }
    proof {
        assert(names_view(out@) =~= names_view(v@));
    }
    out
}

/// A deep copy of a schema node, equal to the original in the model.
fn clone_schema(s: &MultiLayerSchema) -> (r: MultiLayerSchema)
    ensures
        r@ == s@,
    decreases s,
{
    match s {
        MultiLayerSchema::Layer { schemes, lookup } => {
            let n = schemes.len();
            let mut cs: Vec<MultiLayerSchema> = Vec::new();
            let mut i: usize = 0;
            while i < n
                invariant
                    0 <= i <= n,
                    n == schemes.len(),
                    s matches MultiLayerSchema::Layer { schemes: ss, .. } && ss == schemes,
                    cs@.len() == i,
                    forall|j: int| 0 <= j < i ==> cs@[j]@ == schemes@[j]@,
                decreases n - i,
            {
                cs.push(clone_schema(&schemes[i]));
                i = i + 1;
            }
            let cl = clone_strings(lookup);
            let r = MultiLayerSchema::Layer { schemes: cs, lookup: cl };
            proof {
                assert(schemes_view(cs@) =~= schemes_view(schemes@));
            }
            r
        },
        MultiLayerSchema::Bottom(entries) => {
            let copy = clone_entries(entries);
            let r = MultiLayerSchema::Bottom(copy);
            proof {
                assert(doc_view(r->Bottom_0@) =~= doc_view(entries@));
            }
            r
        },
    }
}

/// Main interface of the library, holding one compiled schema tree that
/// drives both encoding and decoding.
#[derive(Debug)]
pub struct Parser {
    schema: MultiLayerSchema,
}

impl View for Parser {
    type V = SchemaView;

    closed spec fn view(&self) -> SchemaView {
        self.schema@
    }
}

impl Parser {
    /// Compiles a schema document into a parser.
    pub fn new(scheme: JsonVal) -> (r: Result<Parser, Error>)
        ensures
            match (r, spec_parse(scheme@)) {
                (Ok(p), Ok(sv)) => p@ == sv,
                (Err(e), Err(ev)) => e@ == ev,
                _ => false,
            },
    {
        let schema = match parse_multilayer_schema(&scheme) {
            Ok(s) => s,
            Err(e) => {
                return Err(e);
            },
        };
        Ok(Parser { schema })
    }

    /// Encodes a structured message into its wire bytes: one tag byte per
    /// traversed layer, then the innermost record's fields in declared
    /// order.
    pub fn encode(&self, message: JsonVal) -> (r: Result<Vec<u8>, Error>)
        ensures
            match (r, spec_encode(self@, message@)) {
                (Ok(b), Ok(bv)) => b@ == bv,
                (Err(e), Err(ev)) => e@ == ev,
                _ => false,
            },
    {
        let found = match find_schema_encoding(&self.schema, &message, Vec::new()) {
            Ok(f) => f,
            Err(e) => {
                return Err(e);
            },
        };
        proof {
            match spec_find_encoding(self@, message@) {
                Ok(sp) => {
                    assert(entries_view(found.0) =~= doc_view(found.0@));
                },
                Err(e) => {},
            }
        }
        let config = match MessageConfig::new(found.0) {
            Ok(c) => c,
            Err(e) => {
                return Err(e);
            },
        };
        let mut body = match encode_record(&config, found.1) {
            Ok(b) => b,
            Err(e) => {
                return Err(e);
            },
        };
        let mut out = found.2;
        let ghost tags = out@;
        let ghost body_v = body@;
        out.append(&mut body);
        proof {
            assert(out@ =~= tags + body_v);
            match spec_find_encoding(self@, message@) {
                Ok(sp) => {
                    assert(Seq::<u8>::empty() + sp.2 =~= sp.2);
                },
                Err(e) => {},
            }
        }
        Ok(out)
    }

    /// Decodes wire bytes into a structured message: leading tag bytes
    /// select the leaf, its fields are read in declared order, and the
    /// result is rewrapped under the recovered names.
    pub fn decode(&self, message: Vec<u8>) -> (r: Result<JsonVal, Error>)
        ensures
            match (r, spec_decode(self@, message@)) {
                (Ok(v), Ok(sv)) => v@ == sv,
                (Err(e), Err(ev)) => e@ == ev,
                _ => false,
            },
    {
        proof {
            assert(message@.skip(0) =~= message@);
        }
        let found = match find_schema_decoding(&self.schema, &message, 0, Vec::new()) {
            Ok(f) => f,
            Err(e) => {
                return Err(e);
            },
        };
        proof {
            match spec_find_decoding(self@, message@) {
                Ok(sp) => {
                    assert(entries_view(found.0) =~= doc_view(found.0@));
                    assert(names_view(Seq::<String>::empty()) =~= Seq::<Seq<char>>::empty());
                    assert(Seq::<Seq<char>>::empty() + sp.2 =~= sp.2);
                },
                Err(e) => {},
            }
        }
        let config = match MessageConfig::new(found.0) {
            Ok(c) => c,
            Err(e) => {
                return Err(e);
            },
        };
        let rec = match decode_record(&config, &message, found.1) {
            Ok(p) => p,
            Err(e) => {
                return Err(e);
            },
        };
        let out = create_output_package(rec.0, &found.2, 0);
        proof {
            assert(names_view(found.2@).skip(0) =~= names_view(found.2@));
        }
        Ok(out)
    }

    /// Returns the subschema that a top-level name selects, as a deep
    /// copy. The root must be a layer and the name must be in its table.
    pub fn get_schema(&self, top_level_scheme: &String) -> (r: MultiLayerSchema)
        requires
            self@ matches SchemaView::Layer { schemes, lookup } && (lookup_tag(
                lookup,
                top_level_scheme@,
            ) matches Some(t) && t < schemes.len()),
        ensures
            self@ matches SchemaView::Layer { schemes, lookup } && (lookup_tag(
                lookup,
                top_level_scheme@,
            ) matches Some(t) && r@ == schemes[t]),
    {
        match &self.schema {
            MultiLayerSchema::Layer { schemes, lookup } => {
                match find_tag(lookup, top_level_scheme) {
                    Some(t) => {
                        if t < schemes.len() {
                            proof {
                                assert(schemes_view(schemes@)[t as int] == schemes@[t as int]@);
                            }
                            clone_schema(&schemes[t])
                        } else {
                            proof {
                                assert(false);
                            }
                            MultiLayerSchema::Bottom(Vec::new())
                        }
                    },
                    None => {
                        proof {
                            assert(false);
                        }
                        MultiLayerSchema::Bottom(Vec::new())
                    },
                }
            },
            MultiLayerSchema::Bottom(entries) => {
                proof {
                    assert(false);
                }
                MultiLayerSchema::Bottom(Vec::new())
            },
        }
    }

    /// Returns the top-level schema names: a layer's whole name table, or
    /// a leaf's single "id".
    pub fn get_top_level(&self) -> (r: Vec<String>)
        requires
            self@ matches SchemaView::Bottom(doc) ==> (obj_get(doc, "id"@) matches Some(idv)
                && idv is Str),
        ensures
            match self@ {
                SchemaView::Layer { lookup, .. } => names_view(r@) == lookup,
                SchemaView::Bottom(doc) => names_view(r@) == seq![
                    obj_get(doc, "id"@)->Some_0->Str_0,
                ],
            },
    {
        match &self.schema {
            MultiLayerSchema::Layer { schemes, lookup } => clone_strings(lookup),
            MultiLayerSchema::Bottom(entries) => {
                proof {
                    assert(self@ matches SchemaView::Bottom(d) && d =~= entries_view(entries));
                }
                let key: String = "id".to_owned();
                match get_entry(entries, &key) {
                    Some(idv) => match idv {
                        JsonVal::Str(s) => {
                            let out: Vec<String> = vec![s.clone()];
                            proof {
                                assert(names_view(out@) =~= seq![s@]);
                            }
                            out
                        },
                        _ => {
                            proof {
                                assert(false);
                            }
                            Vec::new()
                        },
                    },
                    None => {
                        proof {
                            assert(false);
                        }
                        Vec::new()
                    },
                }
            },
        }
    }
}

} // verus!
