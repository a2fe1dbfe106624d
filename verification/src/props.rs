//! The laws of the codec: encode and decode are mutual inverses on
//! well-formed schemas and messages, a compiled "oneOf" carries dense tags
//! in declaration order, and the length of an encoding is the sum of its
//! parts.

use vstd::arithmetic::power2::lemma2_to64;
use vstd::arithmetic::power2::pow2;
use vstd::prelude::*;
use vstd::utf8::encode_utf8;

use crate::codec::spec_decode;
use crate::codec::spec_decode_record;
use crate::codec::spec_encode;
use crate::codec::spec_encode_record;
use crate::codec::spec_find_decoding;
use crate::codec::spec_find_encoding;
use crate::codec::spec_wrap;
use crate::config::spec_config;
use crate::error::ErrorView;
use crate::fields::first_index;
use crate::fields::int_width;
use crate::fields::lemma_first_index_valid;
use crate::fields::spec_decode_field;
use crate::fields::spec_encode_field;
use crate::fields::spec_int_size;
use crate::schema::SchemaView;
use crate::schema::spec_child_id;
use crate::schema::spec_parse;
use crate::schema::spec_parse_children;
use crate::schema::lemma_lookup_tag_valid;
use crate::schema::lookup_tag;
use crate::value::ValView;
use crate::value::obj_get;
use crate::value::val_get;

verus! {

broadcast use vstd::seq::group_seq_axioms;

/// No element of `names` occurs twice.
pub open spec fn distinct_names(names: Seq<Seq<char>>) -> bool {
    forall|i: int, j: int| 0 <= i < j < names.len() ==> names[i] != names[j]
}

/// A field schema the codec can apply: an enum with at most 256 options,
/// or one of the five known kinds, an integer carrying a valid size.
pub open spec fn cfg_wf(cfg: ValView, name: Seq<char>) -> bool {
    match val_get(cfg, "enum"@) {
        Some(options) => options matches ValView::Arr(opts) && opts.len() <= 256,
        None => match val_get(cfg, "type"@) {
            Some(tv) => match tv {
                ValView::Str(t) => t == "boolean"@ || t == "number"@ || t == "string"@ || t
                    == "blob"@ || (t == "integer"@ && spec_int_size(cfg, name) is Ok),
                _ => false,
            },
            None => false,
        },
    }
}

/// The named field has a schema in the mapping, and it is one the codec
/// can apply.
pub open spec fn field_wf(scheme: ValView, name: Seq<char>) -> bool {
    match val_get(scheme, name) {
        Some(cfg) => cfg_wf(cfg, name),
        None => false,
    }
}

/// A leaf document the codec can work with: field order and field-schema
/// mapping derive without error, the declared names are distinct, and
/// every declared field has an applicable schema.
pub open spec fn bottom_wf(doc: Seq<(Seq<char>, ValView)>) -> bool {
    spec_config(doc) is Ok && {
        let order = spec_config(doc)->Ok_0.0;
        let scheme = spec_config(doc)->Ok_0.1;
        distinct_names(order) && forall|i: int|
            0 <= i < order.len() ==> field_wf(scheme, #[trigger] order[i])
    }
}

/// A well-formed compiled schema: at each layer the tag table and the
/// child list have one entry per alternative, at most 256 of them, and
/// every child and leaf is well-formed in turn.
pub open spec fn schema_wf(s: SchemaView) -> bool
    decreases s,
{
    match s {
        SchemaView::Layer { schemes, lookup } => schemes.len() == lookup.len() <= 256
            && forall|t: int| 0 <= t < schemes.len() ==> schema_wf(#[trigger] schemes[t]),
        SchemaView::Bottom(doc) => bottom_wf(doc),
    }
}

/// A field value the encoding rules accept and the decoding rules give
/// back unchanged: a declared enum value; a boolean; a non-negative
/// integer below `2^size`; any number; a string of at most 255 UTF-8
/// bytes.
pub open spec fn value_wf(scheme: ValView, name: Seq<char>, v: ValView) -> bool {
    let cfg = val_get(scheme, name)->Some_0;
    match val_get(cfg, "enum"@) {
        Some(options) => first_index(options->Arr_0, v) is Some,
        None => {
            let t = val_get(cfg, "type"@)->Some_0->Str_0;
            if t == "boolean"@ {
                v is Bool
            } else if t == "integer"@ {
                v matches ValView::Int(x) && 0 <= x < pow2(spec_int_size(cfg, name)->Ok_0 as nat)
            } else if t == "number"@ {
                v is Num
            } else {
                v matches ValView::Str(s) && encode_utf8(s).len() <= 255
            }
        },
    }
}

/// A message that fits the schema: single-key objects selecting a known
/// alternative down the layers, and at the leaf an object whose entries
/// are exactly the declared fields in declared order, each value accepted
/// by its field's rule.
pub open spec fn msg_wf(s: SchemaView, m: ValView) -> bool
    decreases s,
    via msg_wf_dec
{
    match s {
        SchemaView::Layer { schemes, lookup } => m matches ValView::Obj(mes) && mes.len() == 1
            && (lookup_tag(lookup, mes[0].0) matches Some(t) && t < schemes.len() && msg_wf(
            schemes[t],
            mes[0].1,
        )),
        SchemaView::Bottom(doc) => {
            let order = spec_config(doc)->Ok_0.0;
            let scheme = spec_config(doc)->Ok_0.1;
            m matches ValView::Obj(mes) && mes.len() == order.len() && forall|i: int|
                0 <= i < order.len() ==> (#[trigger] mes[i]).0 == order[i] && value_wf(
                    scheme,
                    order[i],
                    mes[i].1,
                )
        },
    }
}

#[via_fn]
proof fn msg_wf_dec(s: SchemaView, m: ValView) {
    match s {
        SchemaView::Layer { schemes, lookup } => {
            match m {
                ValView::Obj(mes) => {
                    if mes.len() == 1 {
                        match lookup_tag(lookup, mes[0].0) {
                            Some(t) => {
                                lemma_lookup_tag_valid(lookup, mes[0].0);
                            },
                            None => {},
                        }
                    }
                },
                _ => {},
            }
        },
        _ => {},
    }
}


/// With no earlier entry under the same key, lookup at an object finds
/// entry `k`.
proof fn lemma_obj_get_at(mes: Seq<(Seq<char>, ValView)>, k: int)
    requires
        0 <= k < mes.len(),
        forall|i: int| 0 <= i < k ==> (#[trigger] mes[i]).0 != mes[k].0,
    ensures
        obj_get(mes, mes[k].0) == Some(mes[k].1),
    decreases k,
{
    if k == 0 {
    } else {
        assert(mes[0].0 != mes[k].0);
        lemma_obj_get_at(mes.drop_first(), k - 1);
        assert(mes.drop_first()[k - 1] == mes[k]);
    }
}

/// A field value accepted by its rule is laid down without error and read
/// back unchanged, whatever bytes follow it.
proof fn lemma_field_round_trip(scheme: ValView, m: ValView, name: Seq<char>, rest: Seq<u8>)
    requires
        field_wf(scheme, name),
        val_get(m, name) is Some,
        value_wf(scheme, name, val_get(m, name)->Some_0),
    ensures
        spec_encode_field(scheme, m, name) is Ok,
        spec_decode_field(scheme, name, spec_encode_field(scheme, m, name)->Ok_0 + rest)
            == Ok::<(ValView, Seq<u8>), ErrorView>((val_get(m, name)->Some_0, rest)),
{
    reveal_strlit("boolean");
    reveal_strlit("integer");
    reveal_strlit("number");
    reveal_strlit("string");
    reveal_strlit("blob");
    let v = val_get(m, name)->Some_0;
    let cfg = val_get(scheme, name)->Some_0;
    match val_get(cfg, "enum"@) {
        Some(options) => {
            let opts = options->Arr_0;
            lemma_first_index_valid(opts, v);
            let p = first_index(opts, v)->Some_0;
            let b = seq![p as u8];
            assert((b + rest)[0] == p as u8);
            assert((b + rest).len() > 0);
            assert((b + rest).drop_first() =~= rest);
            assert(opts[(p as u8) as int] == v);
        },
        None => {
            let t = val_get(cfg, "type"@)->Some_0->Str_0;
            if t == "boolean"@ {
                let b: Seq<u8> = if v->Bool_0 {
                    seq![1u8]
                } else {
                    seq![0u8]
                };
                assert(spec_encode_field(scheme, m, name) == Ok::<Seq<u8>, ErrorView>(b));
                assert((b + rest)[0] == b[0]);
                assert((b + rest).drop_first() =~= rest);
                assert(ValView::Bool((b + rest)[0] == 1) == v);
            } else if t == "integer"@ {
                let sz = spec_int_size(cfg, name)->Ok_0;
                let x = v->Int_0;
                assert("integer"@ != "number"@) by {
                    reveal_strlit("integer");
                    reveal_strlit("number");
                    assert("integer"@.len() == 7);
                    assert("number"@.len() == 6);
                }
                assert("integer"@ != "string"@) by {
                    reveal_strlit("integer");
                    reveal_strlit("string");
                    assert("integer"@.len() == 7);
                    assert("string"@.len() == 6);
                }
                assert("integer"@ != "blob"@) by {
                    reveal_strlit("integer");
                    reveal_strlit("blob");
                    assert("integer"@.len() == 7);
                    assert("blob"@.len() == 4);
                }
                assert("integer"@ != "boolean"@) by {
                    reveal_strlit("integer");
                    reveal_strlit("boolean");
                    assert("integer"@[0] == 'i');
                    assert("boolean"@[0] == 'b');
                }
                assert(spec_int_size(cfg, name) == Ok::<int, ErrorView>(sz));
                assert(!(pow2(sz as nat) < x));
                let w = int_width(sz);
                assert(crate::fields::twos64(x) == x as nat);
                let b = crate::bytes::le_bytes_of(x as nat, w);
                assert(spec_encode_field(scheme, m, name) == Ok::<Seq<u8>, ErrorView>(b));
                assert(8 * w >= sz) by (nonlinear_arith)
                    requires
                        w == ((sz + 7) / 8) as nat,
                        1 <= sz,
                ;
                crate::bytes::lemma_pow2_le(sz as nat, 8 * w);
                crate::bytes::lemma_le_round_trip(x as nat, w);
                assert(b.len() == w);
                assert((b + rest).len() >= w);
                assert((b + rest).take(w as int) =~= b);
                assert((b + rest).skip(w as int) =~= rest);
                assert(ValView::Int(crate::bytes::le_val_of(b) as int) == v);
            } else if t == "number"@ {
                let bits = v->Num_0;
                assert("number"@ != "string"@) by {
                    reveal_strlit("number");
                    reveal_strlit("string");
                    assert("number"@[0] == 'n');
                    assert("string"@[0] == 's');
                }
                let b = crate::bytes::le_bytes_of(bits as nat, 8);
                assert(spec_encode_field(scheme, m, name) == Ok::<Seq<u8>, ErrorView>(b));
                lemma2_to64();
                vstd::arithmetic::power2::lemma2_to64_rest();
                crate::bytes::lemma_le_round_trip(bits as nat, 8);
                assert(b.len() == 8);
                assert((b + rest).len() >= 8);
                assert((b + rest).take(8) =~= b);
                assert((b + rest).skip(8) =~= rest);
                assert(ValView::Num(crate::bytes::le_val_of(b) as u64) == v);
            } else {
                let s = v->Str_0;
                let bs = encode_utf8(s);
                assert(t == "string"@ || t == "blob"@);
                let b = seq![bs.len() as u8] + bs;
                assert(spec_encode_field(scheme, m, name) == Ok::<Seq<u8>, ErrorView>(b));
                assert((b + rest)[0] == bs.len() as u8);
                assert((b + rest).len() > 0);
                let tail = (b + rest).drop_first();
                assert(tail =~= bs + rest);
                assert(tail.len() >= bs.len());
                assert(tail.take(bs.len() as int) =~= bs);
                assert(tail.skip(bs.len() as int) =~= rest);
                broadcast use vstd::utf8::encode_utf8_valid_utf8;
                broadcast use vstd::utf8::encode_utf8_decode_utf8;

                assert(vstd::utf8::valid_utf8(bs));
                assert(vstd::utf8::decode_utf8(bs) == s);
            }
        },
    }
}


/// The declared fields from position `k` on are laid down without error
/// and read back as exactly the message's entries from `k` on, whatever
/// bytes follow.
proof fn lemma_record_round_trip(
    order: Seq<Seq<char>>,
    scheme: ValView,
    mes: Seq<(Seq<char>, ValView)>,
    k: int,
    rest: Seq<u8>,
)
    requires
        distinct_names(order),
        forall|i: int| 0 <= i < order.len() ==> field_wf(scheme, #[trigger] order[i]),
        mes.len() == order.len(),
        forall|i: int|
            0 <= i < order.len() ==> (#[trigger] mes[i]).0 == order[i] && value_wf(
                scheme,
                order[i],
                mes[i].1,
            ),
        0 <= k <= order.len(),
    ensures
        spec_encode_record(order.skip(k), scheme, ValView::Obj(mes)) is Ok,
        spec_decode_record(
            order.skip(k),
            scheme,
            spec_encode_record(order.skip(k), scheme, ValView::Obj(mes))->Ok_0 + rest,
        ) == Ok::<(Seq<(Seq<char>, ValView)>, Seq<u8>), ErrorView>((mes.skip(k), rest)),
    decreases order.len() - k,
{
    if k == order.len() {
        assert(order.skip(k) =~= Seq::<Seq<char>>::empty());
        assert(mes.skip(k) =~= Seq::<(Seq<char>, ValView)>::empty());
        assert(Seq::<u8>::empty() + rest =~= rest);
    } else {
        let name = order[k];
        assert(order.skip(k)[0] == name);
        assert(order.skip(k).drop_first() =~= order.skip(k + 1));
        lemma_obj_get_at(mes, k);
        assert(val_get(ValView::Obj(mes), name) == Some(mes[k].1));
        lemma_record_round_trip(order, scheme, mes, k + 1, rest);
        let enc_rest = spec_encode_record(order.skip(k + 1), scheme, ValView::Obj(mes))->Ok_0;
        lemma_field_round_trip(scheme, ValView::Obj(mes), name, enc_rest + rest);
        let b = spec_encode_field(scheme, ValView::Obj(mes), name)->Ok_0;
        assert(spec_encode_record(order.skip(k), scheme, ValView::Obj(mes)) == Ok::<
            Seq<u8>,
            ErrorView,
        >(b + enc_rest));
        assert((b + enc_rest) + rest =~= b + (enc_rest + rest));
        assert(spec_decode_field(scheme, name, b + (enc_rest + rest)) == Ok::<
            (ValView, Seq<u8>),
            ErrorView,
        >((mes[k].1, enc_rest + rest)));
        assert(seq![(name, mes[k].1)] + mes.skip(k + 1) =~= mes.skip(k));
    }
}

/// Round trip at any schema node: a well-formed message encodes without
/// error, and decoding the encoding — with any trailing bytes — returns
/// the message unchanged.
proof fn lemma_round_trip_at(s: SchemaView, m: ValView, rest: Seq<u8>)
    requires
        schema_wf(s),
        msg_wf(s, m),
    ensures
        spec_encode(s, m) is Ok,
        spec_decode(s, spec_encode(s, m)->Ok_0 + rest) == Ok::<ValView, ErrorView>(m),
    decreases s,
{
    match s {
        SchemaView::Bottom(doc) => {
            let order = spec_config(doc)->Ok_0.0;
            let scheme = spec_config(doc)->Ok_0.1;
            let mes = m->Obj_0;
            assert(order.skip(0) =~= order);
            assert(mes.skip(0) =~= mes);
            lemma_record_round_trip(order, scheme, mes, 0, rest);
            let body = spec_encode_record(order, scheme, m)->Ok_0;
            assert(spec_encode(s, m) == Ok::<Seq<u8>, ErrorView>(Seq::<u8>::empty() + body));
            assert(Seq::<u8>::empty() + body =~= body);
            assert(spec_decode_record(order, scheme, body + rest) == Ok::<
                (Seq<(Seq<char>, ValView)>, Seq<u8>),
                ErrorView,
            >((mes, rest)));
            assert(spec_wrap(mes, Seq::empty()) == m);
        },
        SchemaView::Layer { schemes, lookup } => {
            let mes = m->Obj_0;
            let signal = mes[0].0;
            let t = lookup_tag(lookup, signal)->Some_0;
            lemma_lookup_tag_valid(lookup, signal);
            assert(0 <= t < lookup.len());
            assert(t <= 255);
            let sub = schemes[t];
            let msub = mes[0].1;
            lemma_round_trip_at(sub, msub, rest);
            let enc_sub = spec_encode(sub, msub)->Ok_0;
            let p = spec_find_encoding(sub, msub)->Ok_0;
            let body = spec_encode_record(
                spec_config(p.0)->Ok_0.0,
                spec_config(p.0)->Ok_0.1,
                p.1,
            )->Ok_0;
            assert(enc_sub == p.2 + body);
            assert((t as u8) as int == t);
            assert(spec_find_encoding(s, m) == Ok::<
                (Seq<(Seq<char>, ValView)>, ValView, Seq<u8>),
                ErrorView,
            >((p.0, p.1, seq![t as u8] + p.2)));
            assert(spec_encode(s, m) == Ok::<Seq<u8>, ErrorView>((seq![t as u8] + p.2) + body));
            let full = (seq![t as u8] + p.2) + body;
            assert(full + rest =~= seq![t as u8] + (enc_sub + rest));
            let bytes = full + rest;
            assert(bytes[0] == t as u8);
            assert(bytes.drop_first() =~= enc_sub + rest);
            let q = spec_find_decoding(sub, enc_sub + rest)->Ok_0;
            assert(spec_find_decoding(sub, enc_sub + rest) is Ok);
            assert(spec_find_decoding(s, bytes) == Ok::<
                (Seq<(Seq<char>, ValView)>, Seq<u8>, Seq<Seq<char>>),
                ErrorView,
            >((q.0, q.1, seq![lookup[t]] + q.2)));
            let rec = spec_decode_record(
                spec_config(q.0)->Ok_0.0,
                spec_config(q.0)->Ok_0.1,
                q.1,
            )->Ok_0;
            assert(spec_decode(sub, enc_sub + rest) == Ok::<ValView, ErrorView>(
                spec_wrap(rec.0, q.2),
            ));
            assert(spec_wrap(rec.0, q.2) == msub);
            let names = seq![lookup[t]] + q.2;
            assert(names[0] == lookup[t]);
            assert(names.drop_first() =~= q.2);
            assert(spec_wrap(rec.0, names) == ValView::Obj(
                seq![(lookup[t], spec_wrap(rec.0, q.2))],
            ));
            assert(seq![(lookup[t], msub)] =~= mes);
            assert(spec_decode(s, bytes) == Ok::<ValView, ErrorView>(m));
        },
    }
}

/// Round trip: for every well-formed schema and message, decoding the
/// encoding returns the message unchanged.
pub proof fn lemma_round_trip(s: SchemaView, m: ValView)
    requires
        schema_wf(s),
        msg_wf(s, m),
    ensures
        spec_encode(s, m) is Ok,
        spec_decode(s, spec_encode(s, m)->Ok_0) == Ok::<ValView, ErrorView>(m),
{
    lemma_round_trip_at(s, m, Seq::empty());
    assert(spec_encode(s, m)->Ok_0 + Seq::<u8>::empty() =~= spec_encode(s, m)->Ok_0);
}


/// Compiled children line up with the "oneOf" elements: one child and one
/// name per element, in declaration order.
proof fn lemma_parse_children_shape(subs: Seq<ValView>)
    requires
        spec_parse_children(subs) is Ok,
    ensures
        spec_parse_children(subs)->Ok_0.0.len() == subs.len(),
        spec_parse_children(subs)->Ok_0.1.len() == subs.len(),
        forall|t: int|
            0 <= t < subs.len() ==> spec_parse(#[trigger] subs[t]) == Ok::<SchemaView, ErrorView>(
                spec_parse_children(subs)->Ok_0.0[t],
            ) && spec_child_id(subs[t]) == Ok::<Seq<char>, ErrorView>(
                spec_parse_children(subs)->Ok_0.1[t],
            ),
    decreases subs.len(),
{
    if subs.len() == 0 {
    } else {
        lemma_parse_children_shape(subs.drop_first());
        let rest = spec_parse_children(subs.drop_first())->Ok_0;
        assert forall|t: int| 0 <= t < subs.len() implies spec_parse(#[trigger] subs[t]) == Ok::<
            SchemaView,
            ErrorView,
        >(spec_parse_children(subs)->Ok_0.0[t]) && spec_child_id(subs[t]) == Ok::<
            Seq<char>,
            ErrorView,
        >(spec_parse_children(subs)->Ok_0.1[t]) by {
            if t > 0 {
                assert(subs.drop_first()[t - 1] == subs[t]);
            }
        }
    }
}

/// Tag density: a schema document whose "oneOf" has `n` elements compiles
/// to a layer with exactly `n` children, the child at tag `t` compiled
/// from element `t` and entered in the name table under element `t`'s
/// "id", in declaration order.
pub proof fn lemma_tag_density(doc: ValView)
    requires
        doc matches ValView::Obj(entries) && (obj_get(entries, "oneOf"@) matches Some(one) && one
            is Arr),
        spec_parse(doc) is Ok,
    ensures
        spec_parse(doc)->Ok_0 matches SchemaView::Layer { schemes, lookup } && {
            let subs = obj_get(doc->Obj_0, "oneOf"@)->Some_0->Arr_0;
            &&& schemes.len() == subs.len()
            &&& lookup.len() == subs.len()
            &&& forall|t: int|
                0 <= t < subs.len() ==> spec_parse(#[trigger] subs[t]) == Ok::<
                    SchemaView,
                    ErrorView,
                >(schemes[t]) && spec_child_id(subs[t]) == Ok::<Seq<char>, ErrorView>(lookup[t])
        },
{
    let subs = obj_get(doc->Obj_0, "oneOf"@)->Some_0->Arr_0;
    lemma_parse_children_shape(subs);
}

/// With distinct names, the name-to-tag table sends the name at tag `t`
/// back to `t`: the tags are exactly `0 .. n`, one per name, in order.
pub proof fn lemma_tag_lookup_dense(lookup: Seq<Seq<char>>, t: int)
    requires
        distinct_names(lookup),
        0 <= t < lookup.len(),
    ensures
        lookup_tag(lookup, lookup[t]) == Some(t),
    decreases lookup.len(),
{
    if t == lookup.len() - 1 {
    } else {
        assert(lookup.last() != lookup[t]);
        assert(lookup.drop_last()[t] == lookup[t]);
        lemma_tag_lookup_dense(lookup.drop_last(), t);
    }
}

/// What one field contributes to the wire length: one byte for a boolean
/// or enum, `ceil(size/8)` for an integer, eight for a number, one length
/// byte plus the UTF-8 bytes for a string or blob.
pub open spec fn spec_field_len(scheme: ValView, name: Seq<char>, v: ValView) -> nat {
    let cfg = val_get(scheme, name)->Some_0;
    match val_get(cfg, "enum"@) {
        Some(_) => 1,
        None => {
            let t = val_get(cfg, "type"@)->Some_0->Str_0;
            if t == "boolean"@ {
                1
            } else if t == "integer"@ {
                int_width(spec_int_size(cfg, name)->Ok_0)
            } else if t == "number"@ {
                8
            } else {
                1 + encode_utf8(v->Str_0).len()
            }
        },
    }
}

/// The summed contributions of the declared fields.
pub open spec fn spec_record_len(order: Seq<Seq<char>>, scheme: ValView, m: ValView) -> nat
    decreases order.len(),
{
    if order.len() == 0 {
        0
    } else {
        spec_field_len(scheme, order[0], val_get(m, order[0])->Some_0) + spec_record_len(
            order.drop_first(),
            scheme,
            m,
        )
    }
}

/// One field's encoding has exactly its declared contribution in bytes.
proof fn lemma_field_len(scheme: ValView, m: ValView, name: Seq<char>)
    requires
        field_wf(scheme, name),
        val_get(m, name) is Some,
        value_wf(scheme, name, val_get(m, name)->Some_0),
    ensures
        spec_encode_field(scheme, m, name) is Ok,
        spec_encode_field(scheme, m, name)->Ok_0.len() == spec_field_len(
            scheme,
            name,
            val_get(m, name)->Some_0,
        ),
{
    lemma_field_round_trip(scheme, m, name, Seq::empty());
    reveal_strlit("boolean");
    reveal_strlit("integer");
    reveal_strlit("number");
    reveal_strlit("string");
    reveal_strlit("blob");
    let v = val_get(m, name)->Some_0;
    let cfg = val_get(scheme, name)->Some_0;
    match val_get(cfg, "enum"@) {
        Some(options) => {
            lemma_first_index_valid(options->Arr_0, v);
        },
        None => {
            let t = val_get(cfg, "type"@)->Some_0->Str_0;
            if t == "boolean"@ {
            } else if t == "integer"@ {
                assert("integer"@ != "number"@) by {
                    assert("integer"@.len() == 7);
                    assert("number"@.len() == 6);
                }
                assert("integer"@ != "string"@) by {
                    assert("integer"@.len() == 7);
                    assert("string"@.len() == 6);
                }
                assert("integer"@ != "blob"@) by {
                    assert("integer"@.len() == 7);
                    assert("blob"@.len() == 4);
                }
                let sz = spec_int_size(cfg, name)->Ok_0;
                crate::bytes::lemma_le_bytes_len(
                    crate::fields::twos64(v->Int_0),
                    int_width(sz),
                );
            } else if t == "number"@ {
                assert("number"@ != "string"@) by {
                    assert("number"@[0] == 'n');
                    assert("string"@[0] == 's');
                }
                crate::bytes::lemma_le_bytes_len(v->Num_0 as nat, 8);
            } else {
            }
        },
    }
}

/// The record's encoding has exactly the summed contributions, from
/// position `k` on.
proof fn lemma_record_len(order: Seq<Seq<char>>, scheme: ValView, mes: Seq<(Seq<char>, ValView)>, k: int)
    requires
        distinct_names(order),
        forall|i: int| 0 <= i < order.len() ==> field_wf(scheme, #[trigger] order[i]),
        mes.len() == order.len(),
        forall|i: int|
            0 <= i < order.len() ==> (#[trigger] mes[i]).0 == order[i] && value_wf(
                scheme,
                order[i],
                mes[i].1,
            ),
        0 <= k <= order.len(),
    ensures
        spec_encode_record(order.skip(k), scheme, ValView::Obj(mes)) is Ok,
        spec_encode_record(order.skip(k), scheme, ValView::Obj(mes))->Ok_0.len()
            == spec_record_len(order.skip(k), scheme, ValView::Obj(mes)),
    decreases order.len() - k,
{
    lemma_record_round_trip(order, scheme, mes, k, Seq::empty());
    if k == order.len() {
        assert(order.skip(k) =~= Seq::<Seq<char>>::empty());
    } else {
        let name = order[k];
        assert(order.skip(k)[0] == name);
        assert(order.skip(k).drop_first() =~= order.skip(k + 1));
        lemma_obj_get_at(mes, k);
        lemma_field_len(scheme, ValView::Obj(mes), name);
        lemma_record_len(order, scheme, mes, k + 1);
    }
}

/// Length determinism: the length of an encoding is the number of tag
/// bytes traversed plus the sum of the per-field contributions of the
/// innermost record.
pub proof fn lemma_encode_length(s: SchemaView, m: ValView)
    requires
        schema_wf(s),
        msg_wf(s, m),
    ensures
        spec_encode(s, m) is Ok,
        spec_find_encoding(s, m) is Ok,
        spec_encode(s, m)->Ok_0.len() == spec_find_encoding(s, m)->Ok_0.2.len()
            + spec_record_len(
            spec_config(spec_find_encoding(s, m)->Ok_0.0)->Ok_0.0,
            spec_config(spec_find_encoding(s, m)->Ok_0.0)->Ok_0.1,
            spec_find_encoding(s, m)->Ok_0.1,
        ),
    decreases s,
{
    lemma_round_trip_at(s, m, Seq::empty());
    match s {
        SchemaView::Bottom(doc) => {
            let order = spec_config(doc)->Ok_0.0;
            let scheme = spec_config(doc)->Ok_0.1;
            let mes = m->Obj_0;
            assert(order.skip(0) =~= order);
            lemma_record_len(order, scheme, mes, 0);
            let body = spec_encode_record(order, scheme, m)->Ok_0;
            assert(Seq::<u8>::empty() + body =~= body);
        },
        SchemaView::Layer { schemes, lookup } => {
            let mes = m->Obj_0;
            let signal = mes[0].0;
            let t = lookup_tag(lookup, signal)->Some_0;
            lemma_lookup_tag_valid(lookup, signal);
            lemma_encode_length(schemes[t], mes[0].1);
            let p = spec_find_encoding(schemes[t], mes[0].1)->Ok_0;
            let body = spec_encode_record(
                spec_config(p.0)->Ok_0.0,
                spec_config(p.0)->Ok_0.1,
                p.1,
            )->Ok_0;
            assert(spec_encode(s, m)->Ok_0 == (seq![t as u8] + p.2) + body);
            assert(spec_encode(schemes[t], mes[0].1)->Ok_0 == p.2 + body);
        },
    }
}

} // verus!
