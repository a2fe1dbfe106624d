//! The field-level binary rules applied at a tree leaf: how one typed
//! field of a record is laid down as bytes and read back.
//!
//! Wire shapes: one byte for a boolean (1 or 0) or an enum (the value's
//! zero-based position in the declared list); the low `ceil(size/8)` bytes
//! of an integer's two's-complement form, little-endian; eight bytes for a
//! number (an IEEE-754 double's bit pattern, little-endian); one length
//! byte followed by the UTF-8 bytes of a string or blob.

use vstd::arithmetic::power2::lemma2_to64;
use vstd::arithmetic::power2::pow2;
use vstd::prelude::*;
use vstd::utf8::decode_utf8;
use vstd::utf8::encode_utf8;
use vstd::utf8::valid_utf8;

use crate::bytes::le_bytes;
use crate::bytes::le_bytes_of;
use crate::bytes::le_val_of;
use crate::error::Error;
use crate::error::ErrorView;
use crate::error::enc_err_at;
use crate::error::mk_enc_err_at;
use crate::value::JsonVal;
use crate::value::ValView;
use crate::bytes::le_read;
use crate::bytes::lemma_le_val_bound;
use crate::value::clone_val;
use crate::value::eq_val;
use crate::value::get_key;
use crate::value::val_get;
use vstd::string::StrSliceExecFns;

verus! {

broadcast use
    vstd::std_specs::vec::group_vec_axioms,
    vstd::seq::group_seq_axioms,
    vstd::string::group_string_axioms;

/// The two's-complement reading of a signed 64-bit value as unsigned.
pub open spec fn twos64(v: int) -> nat {
    if v >= 0 {
        v as nat
    } else {
        (v + 0x10000000000000000) as nat
    }
}

/// How many bytes an integer field of `sz` bits occupies on the wire.
pub open spec fn int_width(sz: int) -> nat {
    ((sz + 7) / 8) as nat
}

/// The first position of `v` in `opts`, if any.
pub open spec fn first_index(opts: Seq<ValView>, v: ValView) -> Option<int>
    decreases opts.len(),
{
    if opts.len() == 0 {
        None
    } else if opts[0] == v {
        Some(0)
    } else {
        match first_index(opts.drop_first(), v) {
            Some(i) => Some(i + 1),
            None => None,
        }
    }
}

/// A found position holds the value looked for, and nothing before it does.
pub proof fn lemma_first_index_valid(opts: Seq<ValView>, v: ValView)
    requires
        first_index(opts, v) is Some,
    ensures
        0 <= first_index(opts, v)->Some_0 < opts.len(),
        opts[first_index(opts, v)->Some_0] == v,
    decreases opts.len(),
{
    if opts.len() == 0 {
    } else if opts[0] == v {
    } else {
        lemma_first_index_valid(opts.drop_first(), v);
    }
}

/// The declared bit width of an integer field: its "size", which must be
/// an integer between 1 and 32.
pub open spec fn spec_int_size(cfg: ValView, name: Seq<char>) -> Result<int, ErrorView> {
    match val_get(cfg, "size"@) {
        None => Err(enc_err_at("Integer fields must have a declared size"@, name)),
        Some(szv) => match szv {
            ValView::Int(sz) => if 1 <= sz <= 32 {
                Ok(sz)
            } else {
                Err(enc_err_at("Size must be smaller than 32 bits"@, name))
            },
            _ => Err(enc_err_at("Size Must be a number"@, name)),
        },
    }
}

/// Encoding of one enum field value: one byte, the value's first position
/// in the declared list.
pub open spec fn spec_encode_enum(options: ValView, value: ValView, name: Seq<char>) -> Result<
    Seq<u8>,
    ErrorView,
> {
    match options {
        ValView::Arr(opts) => match first_index(opts, value) {
            None => Err(enc_err_at("Could not get index of provided enum value"@, name)),
            Some(p) => if p > 255 {
                Err(enc_err_at("More than 256 enum options"@, name))
            } else {
                Ok(seq![p as u8])
            },
        },
        _ => Err(enc_err_at("Enum options are incorrectly declared"@, name)),
    }
}

/// Encoding of one integer field value. A negative value is never caught
/// by the range check, as the check compares it against the positive bound;
/// its two's-complement bytes are laid down as they are.
pub open spec fn spec_encode_integer(cfg: ValView, value: ValView, name: Seq<char>) -> Result<
    Seq<u8>,
    ErrorView,
> {
    match spec_int_size(cfg, name) {
        Err(e) => Err(e),
        Ok(sz) => match value {
            ValView::Int(v) => if v < 0 {
                if pow2((sz - 1) as nat) < v {
                    Err(enc_err_at("Provided value is bigger than maximum"@, name))
                } else {
                    Ok(le_bytes_of(twos64(v), int_width(sz)))
                }
            } else if pow2(sz as nat) < v {
                Err(enc_err_at("Provided value is bigger than maximum"@, name))
            } else {
                Ok(le_bytes_of(twos64(v), int_width(sz)))
            },
            _ => Err(enc_err_at("Provided value cannot be deserialized as an integer"@, name)),
        },
    }
}

/// Encoding of one string or blob field value: a length byte, then the
/// UTF-8 bytes, at most 255 of them.
pub open spec fn spec_encode_text(value: ValView, name: Seq<char>, blob: bool) -> Result<
    Seq<u8>,
    ErrorView,
> {
    match value {
        ValView::Str(s) => {
            let bs = encode_utf8(s);
            if bs.len() > 255 {
                if blob {
                    Err(enc_err_at("Provided blob is more than 255 bytes long"@, name))
                } else {
                    Err(enc_err_at("Provided string is more than 255 bytes long"@, name))
                }
            } else {
                Ok(seq![bs.len() as u8] + bs)
            }
        },
        _ => Err(enc_err_at("Could not serialize data as a string"@, name)),
    }
}

/// Encoding of one field of the innermost message: the value under `name`
/// is laid down by the rule of its declared kind.
pub open spec fn spec_encode_field(scheme: ValView, msg: ValView, name: Seq<char>) -> Result<
    Seq<u8>,
    ErrorView,
> {
    match val_get(msg, name) {
        None => Err(enc_err_at("Could not find field value"@, name)),
        Some(value) => match val_get(scheme, name) {
            None => Err(enc_err_at("Could not find field schema"@, name)),
            Some(cfg) => match val_get(cfg, "enum"@) {
                Some(options) => spec_encode_enum(options, value, name),
                None => match val_get(cfg, "type"@) {
                    Some(tv) => match tv {
                        ValView::Str(t) => if t == "boolean"@ {
                            match value {
                                ValView::Bool(b) => Ok(seq![if b { 1u8 } else { 0u8 }]),
                                _ => Err(enc_err_at("Did not provide a valid boolean"@, name)),
                            }
                        } else if t == "integer"@ {
                            spec_encode_integer(cfg, value, name)
                        } else if t == "string"@ {
                            spec_encode_text(value, name, false)
                        } else if t == "number"@ {
                            match value {
                                ValView::Num(bits) => Ok(le_bytes_of(bits as nat, 8)),
                                _ => Err(
                                    enc_err_at("Data could not be serialized as a float"@, name),
                                ),
                            }
                        } else if t == "blob"@ {
                            spec_encode_text(value, name, true)
                        } else {
                            Err(enc_err_at("Invalid property keyword"@, name))
                        },
                        _ => Err(enc_err_at("Invalid property keyword"@, name)),
                    },
                    None => Err(enc_err_at("Invalid property keyword"@, name)),
                },
            },
        },
    }
}

/// Decoding of one field from the front of `bytes`: the value read by the
/// rule of the field's declared kind, and the bytes left over.
pub open spec fn spec_decode_field(scheme: ValView, name: Seq<char>, bytes: Seq<u8>) -> Result<
    (ValView, Seq<u8>),
    ErrorView,
> {
    match val_get(scheme, name) {
        None => Err(enc_err_at("Could not find field schema"@, name)),
        Some(cfg) => match val_get(cfg, "enum"@) {
            Some(options) => match options {
                ValView::Arr(opts) => if bytes.len() == 0 {
                    Err(enc_err_at("Message is too short"@, name))
                } else if bytes[0] as int >= opts.len() {
                    Err(enc_err_at("Could not get provided enum index"@, name))
                } else {
                    Ok((opts[bytes[0] as int], bytes.drop_first()))
                },
                _ => Err(enc_err_at("Enum options are incorrectly declared"@, name)),
            },
            None => match val_get(cfg, "type"@) {
                Some(tv) => match tv {
                    ValView::Str(t) => if t == "boolean"@ {
                        if bytes.len() == 0 {
                            Err(enc_err_at("Message is too short"@, name))
                        } else {
                            Ok((ValView::Bool(bytes[0] == 1), bytes.drop_first()))
                        }
                    } else if t == "integer"@ {
                        match spec_int_size(cfg, name) {
                            Err(e) => Err(e),
                            Ok(sz) => {
                                let w = int_width(sz) as int;
                                if bytes.len() < w {
                                    Err(enc_err_at("Message is too short"@, name))
                                } else {
                                    Ok(
                                        (
                                            ValView::Int(le_val_of(bytes.take(w)) as int),
                                            bytes.skip(w),
                                        ),
                                    )
                                }
                            },
                        }
                    } else if t == "number"@ {
                        if bytes.len() < 8 {
                            Err(enc_err_at("Message is too short"@, name))
                        } else {
                            Ok((ValView::Num(le_val_of(bytes.take(8)) as u64), bytes.skip(8)))
                        }
                    } else if t == "string"@ || t == "blob"@ {
                        if bytes.len() == 0 {
                            Err(enc_err_at("Message is too short"@, name))
                        } else {
                            let len = bytes[0] as int;
                            let rest = bytes.drop_first();
                            if rest.len() < len {
                                Err(enc_err_at("Message is too short"@, name))
                            } else if !valid_utf8(rest.take(len)) {
                                Err(enc_err_at("Can't convert to UTF8"@, name))
                            } else {
                                Ok((ValView::Str(decode_utf8(rest.take(len))), rest.skip(len)))
                            }
                        }
                    } else {
                        Err(enc_err_at("Not implemented for decoding"@, name))
                    },
                    _ => Err(enc_err_at("Not implemented for decoding"@, name)),
                },
                None => Err(enc_err_at("Not implemented for decoding"@, name)),
            },
        },
    }
}


/// Reads the declared "size" of an integer field.
fn int_size(cfg: &JsonVal, name: &String) -> (r: Result<i64, Error>)
    ensures
        match (r, spec_int_size(cfg@, name@)) {
            (Ok(s), Ok(sv)) => s as int == sv && 1 <= s <= 32,
            (Err(e), Err(ev)) => e@ == ev,
            _ => false,
        },
{
    let size_key: String = "size".to_owned();
    match get_key(cfg, &size_key) {
        None => Err(mk_enc_err_at("Integer fields must have a declared size", name.clone())),
        Some(szv) => match szv {
            JsonVal::Int(sz) => {
                if 1 <= *sz && *sz <= 32 {
                    Ok(*sz)
                } else {
                    Err(mk_enc_err_at("Size must be smaller than 32 bits", name.clone()))
                }
            },
            _ => Err(mk_enc_err_at("Size Must be a number", name.clone())),
        },
    }
}

/// Encodes one integer field value into its low `ceil(size/8)` bytes.
fn encode_integer_field(cfg: &JsonVal, value: &JsonVal, name: &String) -> (r: Result<
    Vec<u8>,
    Error,
>)
    ensures
        match (r, spec_encode_integer(cfg@, value@, name@)) {
            (Ok(b), Ok(bv)) => b@ == bv,
            (Err(e), Err(ev)) => e@ == ev,
            _ => false,
        },
{
    let sz = match int_size(cfg, name) {
        Ok(s) => s,
        Err(e) => {
            return Err(e);
        },
    };
    let v = match value {
        JsonVal::Int(v) => *v,
        _ => {
            return Err(
                mk_enc_err_at("Provided value cannot be deserialized as an integer", name.clone()),
            );
        },
    };
    proof {
        lemma2_to64();
        crate::bytes::lemma_pow2_le((sz - 1) as nat, 32);
        crate::bytes::lemma_pow2_le(sz as nat, 32);
    }
    if v < 0 {
        let bound_neg: u64 = 1u64 << ((sz - 1) as u64);
        proof {
            vstd::bits::lemma_u64_shl_is_mul(1u64, (sz - 1) as u64);
        }
        if (bound_neg as i64) < v {
            return Err(mk_enc_err_at("Provided value is bigger than maximum", name.clone()));
        }
    } else {
        let bound: u64 = 1u64 << (sz as u64);
        proof {
            vstd::bits::lemma_u64_shl_is_mul(1u64, sz as u64);
        }
        if v > 0 && bound < (v as u64) {
            return Err(mk_enc_err_at("Provided value is bigger than maximum", name.clone()));
        }
    }
    let w: usize = ((sz + 7) / 8) as usize;
    let u: u64 = if v >= 0 {
        v as u64
    } else {
        let off: i64 = v + 0x4000000000000000 + 0x4000000000000000;
        (off as u64) + 0x8000000000000000u64
    };
    proof {
        assert(u as nat == twos64(v as int));
    }
    Ok(le_bytes(u, w))
}

/// Encodes one string or blob field value: a length byte, then the UTF-8
/// bytes.
fn encode_text_field(value: &JsonVal, name: &String, blob: bool) -> (r: Result<Vec<u8>, Error>)
    ensures
        match (r, spec_encode_text(value@, name@, blob)) {
            (Ok(b), Ok(bv)) => b@ == bv,
            (Err(e), Err(ev)) => e@ == ev,
            _ => false,
        },
{
    let s = match value {
        JsonVal::Str(s) => s,
        _ => {
            return Err(mk_enc_err_at("Could not serialize data as a string", name.clone()));
        },
    };
    let mut carry: Vec<u8> = s.as_str().as_bytes_vec();
    if carry.len() > 255 {
        if blob {
            return Err(mk_enc_err_at("Provided blob is more than 255 bytes long", name.clone()));
        }
        return Err(mk_enc_err_at("Provided string is more than 255 bytes long", name.clone()));
    }
    let len: u8 = carry.len() as u8;
    let mut out: Vec<u8> = Vec::new();
    out.push(len);
    out.append(&mut carry);
    proof {
        assert(out@ =~= seq![len] + encode_utf8(s@));
    }
    Ok(out)
}

/// Encodes one field of the innermost message by the rule of its declared
/// kind.
pub fn encode_field(scheme: &JsonVal, msg: &JsonVal, name: &String) -> (r: Result<Vec<u8>, Error>)
    ensures
        match (r, spec_encode_field(scheme@, msg@, name@)) {
            (Ok(b), Ok(bv)) => b@ == bv,
            (Err(e), Err(ev)) => e@ == ev,
            _ => false,
        },
{
    let value = match get_key(msg, name) {
        Some(v) => v,
        None => {
            return Err(mk_enc_err_at("Could not find field value", name.clone()));
        },
    };
    let cfg = match get_key(scheme, name) {
        Some(c) => c,
        None => {
            return Err(mk_enc_err_at("Could not find field schema", name.clone()));
        },
    };
    let enum_key: String = "enum".to_owned();
    match get_key(cfg, &enum_key) {
        Some(options) => {
            return encode_enum_field(options, value, name);
        },
        None => {},
    }
    let type_key: String = "type".to_owned();
    let tv = match get_key(cfg, &type_key) {
        Some(t) => t,
        None => {
            return Err(mk_enc_err_at("Invalid property keyword", name.clone()));
        },
    };
    let t = match tv {
        JsonVal::Str(t) => t,
        _ => {
            return Err(mk_enc_err_at("Invalid property keyword", name.clone()));
        },
    };
    let bool_key: String = "boolean".to_owned();
    let int_key: String = "integer".to_owned();
    let str_key: String = "string".to_owned();
    let num_key: String = "number".to_owned();
    let blob_key: String = "blob".to_owned();
    if *t == bool_key {
        match value {
            JsonVal::Bool(b) => {
                let byte: u8 = if *b {
                    1
                } else {
                    0
                };
                let out: Vec<u8> = vec![byte];
                proof {
                    assert(out@ =~= seq![byte]);
                }
                Ok(out)
            },
            _ => Err(mk_enc_err_at("Did not provide a valid boolean", name.clone())),
        }
    } else if *t == int_key {
        encode_integer_field(cfg, value, name)
    } else if *t == str_key {
        encode_text_field(value, name, false)
    } else if *t == num_key {
        match value {
            JsonVal::Num(bits) => Ok(le_bytes(*bits, 8)),
            _ => Err(mk_enc_err_at("Data could not be serialized as a float", name.clone())),
        }
    } else if *t == blob_key {
        encode_text_field(value, name, true)
    } else {
        Err(mk_enc_err_at("Invalid property keyword", name.clone()))
    }
}

/// Encodes one enum field value: one byte, the value's first position in
/// the declared list.
fn encode_enum_field(options: &JsonVal, value: &JsonVal, name: &String) -> (r: Result<
    Vec<u8>,
    Error,
>)
    ensures
        match (r, spec_encode_enum(options@, value@, name@)) {
            (Ok(b), Ok(bv)) => b@ == bv,
            (Err(e), Err(ev)) => e@ == ev,
            _ => false,
        },
{
    let opts = match options {
        JsonVal::Arr(opts) => opts,
        _ => {
            return Err(mk_enc_err_at("Enum options are incorrectly declared", name.clone()));
        },
    };
    let ghost ov: Seq<ValView> = options@->Arr_0;
    proof {
        assert(ov.len() == opts@.len() && forall|k: int|
            0 <= k < opts@.len() ==> ov[k] == opts@[k]@);
        assert(ov.skip(0) =~= ov);
    }
    let n = opts.len();
    let mut i: usize = 0;
    while i < n
        invariant
            0 <= i <= n,
            n == opts.len(),
            options@ matches ValView::Arr(s) && s == ov,
            ov.len() == n,
            forall|k: int| 0 <= k < n ==> ov[k] == opts@[k]@,
            first_index(ov, value@) == (match first_index(ov.skip(i as int), value@) {
                Some(p) => Some(p + i),
                None => None::<int>,
            }),
        decreases n - i,
    {
        proof {
            assert(ov.skip(i as int)[0] == opts@[i as int]@);
            assert(ov.skip(i as int).drop_first() =~= ov.skip(i as int + 1));
        }
        if eq_val(&opts[i], value) {
            if i > 255 {
                return Err(mk_enc_err_at("More than 256 enum options", name.clone()));
            }
            let byte: u8 = i as u8;
            let out: Vec<u8> = vec![byte];
            proof {
                assert(out@ =~= seq![byte]);
            }
            return Ok(out);
        }
        i = i + 1;
    }
    proof {
        assert(ov.skip(n as int) =~= Seq::<ValView>::empty());
    }
    Err(mk_enc_err_at("Could not get index of provided enum value", name.clone()))
}


/// Copies `bytes[start..end]` into a fresh vector.
fn copy_range(bytes: &Vec<u8>, start: usize, end: usize) -> (r: Vec<u8>)
    requires
        start <= end <= bytes@.len(),
    ensures
        r@ == bytes@.subrange(start as int, end as int),
{
    let mut out: Vec<u8> = Vec::new();
    let mut i: usize = start;
    while i < end
        invariant
            start <= i <= end <= bytes@.len(),
            out@ =~= bytes@.subrange(start as int, i as int),
        decreases end - i,
    {
        out.push(bytes[i]);
        proof {
            assert(out@ =~= bytes@.subrange(start as int, i + 1));
        }
        i = i + 1;
    }
    proof {
        assert(out@ =~= bytes@.subrange(start as int, end as int));
    }
    out
}

/// Relies on `String::from_utf8`: it returns `Ok` exactly on a valid UTF-8
/// byte sequence, and the returned string views those very bytes.
#[verifier::external_body]
fn string_from_utf8(v: Vec<u8>) -> (r: Option<String>)
    ensures
        r is Some <==> valid_utf8(v@),
        r matches Some(s) ==> encode_utf8(s@) == v@,
{
    match String::from_utf8(v) {
        Ok(s) => Some(s),
        Err(_) => None,
    }
}

/// Decodes one field from `bytes` at `pos` by the rule of its declared
/// kind, returning the value read and the position after it.
pub fn decode_field(scheme: &JsonVal, name: &String, bytes: &Vec<u8>, pos: usize) -> (r: Result<
    (JsonVal, usize),
    Error,
>)
    requires
        pos <= bytes@.len(),
    ensures
        match (r, spec_decode_field(scheme@, name@, bytes@.skip(pos as int))) {
            (Ok(p), Ok(sp)) => p.0@ == sp.0 && pos <= p.1 <= bytes@.len() && sp.1 == bytes@.skip(
                p.1 as int,
            ),
            (Err(e), Err(ev)) => e@ == ev,
            _ => false,
        },
{
    let ghost tail: Seq<u8> = bytes@.skip(pos as int);
    let cfg = match get_key(scheme, name) {
        Some(c) => c,
        None => {
            return Err(mk_enc_err_at("Could not find field schema", name.clone()));
        },
    };
    let enum_key: String = "enum".to_owned();
    match get_key(cfg, &enum_key) {
        Some(options) => {
            let opts = match options {
                JsonVal::Arr(o) => o,
                _ => {
                    return Err(
                        mk_enc_err_at("Enum options are incorrectly declared", name.clone()),
                    );
                },
            };
            proof {
                assert(options@ matches ValView::Arr(s) && s.len() == opts@.len());
            }
            if pos >= bytes.len() {
                return Err(mk_enc_err_at("Message is too short", name.clone()));
            }
            let b = bytes[pos];
            proof {
                assert(tail[0] == bytes@[pos as int]);
            }
            if (b as usize) >= opts.len() {
                return Err(mk_enc_err_at("Could not get provided enum index", name.clone()));
            }
            let v = clone_val(&opts[b as usize]);
            proof {
                assert(options@->Arr_0[b as int] == opts@[b as int]@);
                assert(tail.drop_first() =~= bytes@.skip(pos + 1));
            }
            return Ok((v, pos + 1));
        },
        None => {},
    }
    let type_key: String = "type".to_owned();
    let tv = match get_key(cfg, &type_key) {
        Some(t) => t,
        None => {
            return Err(mk_enc_err_at("Not implemented for decoding", name.clone()));
        },
    };
    let t = match tv {
        JsonVal::Str(t) => t,
        _ => {
            return Err(mk_enc_err_at("Not implemented for decoding", name.clone()));
        },
    };
    let bool_key: String = "boolean".to_owned();
    let int_key: String = "integer".to_owned();
    let str_key: String = "string".to_owned();
    let num_key: String = "number".to_owned();
    let blob_key: String = "blob".to_owned();
    if *t == bool_key {
        if pos >= bytes.len() {
            return Err(mk_enc_err_at("Message is too short", name.clone()));
        }
        let b = bytes[pos];
        proof {
            assert(tail[0] == bytes@[pos as int]);
            assert(tail.drop_first() =~= bytes@.skip(pos + 1));
        }
        Ok((JsonVal::Bool(b == 1), pos + 1))
    } else if *t == int_key {
        let sz = match int_size(cfg, name) {
            Ok(s) => s,
            Err(e) => {
                return Err(e);
            },
        };
        let w: usize = ((sz + 7) / 8) as usize;
        if bytes.len() - pos < w {
            return Err(mk_enc_err_at("Message is too short", name.clone()));
        }
        let val = le_read(bytes, pos, w);
        proof {
            assert(tail.take(w as int) =~= bytes@.subrange(pos as int, pos + w));
            assert(tail.skip(w as int) =~= bytes@.skip(pos + w));
            lemma_le_val_bound(bytes@.subrange(pos as int, pos + w));
            crate::bytes::lemma_pow2_le(8 * w as nat, 32);
            lemma2_to64();
        }
        Ok((JsonVal::Int(val as i64), pos + w))
    } else if *t == num_key {
        if bytes.len() - pos < 8 {
            return Err(mk_enc_err_at("Message is too short", name.clone()));
        }
        let val = le_read(bytes, pos, 8);
        proof {
            assert(tail.take(8) =~= bytes@.subrange(pos as int, pos + 8));
            assert(tail.skip(8) =~= bytes@.skip(pos + 8));
            lemma_le_val_bound(bytes@.subrange(pos as int, pos + 8));
            crate::bytes::lemma_pow2_le(64, 64);
        }
        Ok((JsonVal::Num(val), pos + 8))
    } else if *t == str_key || *t == blob_key {
        if pos >= bytes.len() {
            return Err(mk_enc_err_at("Message is too short", name.clone()));
        }
        let len = bytes[pos] as usize;
        proof {
            assert(tail[0] == bytes@[pos as int]);
            assert(tail.drop_first() =~= bytes@.skip(pos + 1));
        }
        if bytes.len() - (pos + 1) < len {
            return Err(mk_enc_err_at("Message is too short", name.clone()));
        }
        let data = copy_range(bytes, pos + 1, pos + 1 + len);
        proof {
            assert(tail.drop_first().take(len as int) =~= bytes@.subrange(
                pos + 1,
                pos + 1 + len,
            ));
            assert(tail.drop_first().skip(len as int) =~= bytes@.skip(pos + 1 + len));
        }
        match string_from_utf8(data) {
            Some(s) => {
                proof {
                    broadcast use vstd::utf8::encode_utf8_decode_utf8;

                    assert(decode_utf8(encode_utf8(s@)) == s@);
                }
                Ok((JsonVal::Str(s), pos + 1 + len))
            },
            None => Err(mk_enc_err_at("Can't convert to UTF8", name.clone())),
        }
    } else {
        Err(mk_enc_err_at("Not implemented for decoding", name.clone()))
    }
}

} // verus!
