//! Little-endian byte strings for bounded unsigned values.

use vstd::arithmetic::power2::lemma2_to64;
use vstd::arithmetic::power2::lemma2_to64_rest;
use vstd::arithmetic::power2::lemma_pow2_adds;
use vstd::arithmetic::power2::lemma_pow2_pos;
use vstd::arithmetic::power2::lemma_pow2_strictly_increases;
use vstd::arithmetic::power2::pow2;
use vstd::prelude::*;

verus! {

broadcast use vstd::std_specs::vec::group_vec_axioms, vstd::seq::group_seq_axioms;

/// Powers of two do not shrink as the exponent grows.
pub proof fn lemma_pow2_le(a: nat, b: nat)
    requires
        a <= b,
    ensures
        1 <= pow2(a) <= pow2(b),
{
    lemma_pow2_pos(a);
    if a < b {
        lemma_pow2_strictly_increases(a, b);
    }
}

/// The `n` low-order bytes of `v`, least significant first.
pub open spec fn le_bytes_of(v: nat, n: nat) -> Seq<u8>
    decreases n,
{
    if n == 0 {
        Seq::empty()
    } else {
        seq![(v % 256) as u8] + le_bytes_of(v / 256, (n - 1) as nat)
    }
}

/// The value that a little-endian byte string denotes.
pub open spec fn le_val_of(b: Seq<u8>) -> nat
    decreases b.len(),
{
    if b.len() == 0 {
        0
    } else {
        (b[0] + 256 * le_val_of(b.drop_first())) as nat
    }
}

/// An `n`-byte string denotes a value below `2^(8n)`.
pub proof fn lemma_le_val_bound(b: Seq<u8>)
    ensures
        le_val_of(b) < pow2(8 * b.len()),
    decreases b.len(),
{
    if b.len() == 0 {
        lemma2_to64();
    } else {
        lemma_le_val_bound(b.drop_first());
        lemma_pow2_adds(8, 8 * (b.len() - 1) as nat);
        lemma2_to64();
    }
}

/// Writing `n` bytes and reading them back returns `v`, as long as `v`
/// fits in `n` bytes.
pub proof fn lemma_le_round_trip(v: nat, n: nat)
    requires
        v < pow2(8 * n),
    ensures
        le_bytes_of(v, n).len() == n,
        le_val_of(le_bytes_of(v, n)) == v,
    decreases n,
{
    if n == 0 {
        lemma2_to64();
    } else {
        lemma_pow2_adds(8, 8 * (n - 1) as nat);
        lemma2_to64();
        assert(v / 256 < pow2(8 * (n - 1) as nat)) by (nonlinear_arith)
            requires
                v < 256 * pow2(8 * (n - 1) as nat),
        ;
        lemma_le_round_trip(v / 256, (n - 1) as nat);
        lemma_le_bytes_len(v, n);
        assert(le_bytes_of(v, n).drop_first() =~= le_bytes_of(v / 256, (n - 1) as nat));
        assert(le_bytes_of(v, n)[0] == (v % 256) as u8);
        assert(le_val_of(le_bytes_of(v, n)) == ((v % 256) + 256 * le_val_of(
            le_bytes_of(v / 256, (n - 1) as nat),
        )) as nat);
        assert(v == 256 * (v / 256) + v % 256) by (nonlinear_arith);
    }
}

/// Byte strings always come out with the requested length.
pub proof fn lemma_le_bytes_len(v: nat, n: nat)
    ensures
        le_bytes_of(v, n).len() == n,
    decreases n,
{
    if n > 0 {
        lemma_le_bytes_len(v / 256, (n - 1) as nat);
    }
}

/// The `n` low-order bytes of `v`, least significant first.
pub fn le_bytes(v: u64, n: usize) -> (r: Vec<u8>)
    ensures
        r@ == le_bytes_of(v as nat, n as nat),
        r@.len() == n,
{
    let mut out: Vec<u8> = Vec::new();
    let mut cur: u64 = v;
    let mut i: usize = 0;
    proof {
        lemma_le_bytes_len(v as nat, n as nat);
        assert(out@ + le_bytes_of(cur as nat, (n - i) as nat) =~= le_bytes_of(
            v as nat,
            n as nat,
        ));
    }
    while i < n
        invariant
            0 <= i <= n,
            out@.len() == i,
            le_bytes_of(v as nat, n as nat) == out@ + le_bytes_of(cur as nat, (n - i) as nat),
        decreases n - i,
    {
        let b: u8 = (cur % 256) as u8;
        proof {
            assert(le_bytes_of(cur as nat, (n - i) as nat) == seq![b] + le_bytes_of(
                (cur / 256) as nat,
                (n - i - 1) as nat,
            ));
            assert(out@ + le_bytes_of(cur as nat, (n - i) as nat) =~= (out@ + seq![b])
                + le_bytes_of((cur / 256) as nat, (n - i - 1) as nat));
            assert(out@.push(b) =~= out@ + seq![b]);
        }
        out.push(b);
        cur = cur / 256;
        i = i + 1;
    }
    proof {
        assert(le_bytes_of(cur as nat, 0) =~= Seq::<u8>::empty());
        assert(out@ + Seq::<u8>::empty() =~= out@);
        lemma_le_bytes_len(v as nat, n as nat);
    }
    out
}

/// Reads the value that `n` bytes of `bytes`, starting at `pos`, denote in
/// little-endian order.
pub fn le_read(bytes: &Vec<u8>, pos: usize, n: usize) -> (r: u64)
    requires
        pos + n <= bytes@.len(),
        n <= 8,
    ensures
        r == le_val_of(bytes@.subrange(pos as int, pos + n)),
{
    let mut r: u64 = 0;
    let mut k: usize = n;
    let blen = bytes.len();
    proof {
        assert(bytes@.subrange(pos + k, pos + n) =~= Seq::<u8>::empty());
        lemma2_to64();
    }
    while k > 0
        invariant
            0 <= k <= n,
            n <= 8,
            pos + n <= bytes@.len(),
            blen == bytes@.len(),
            r == le_val_of(bytes@.subrange(pos + k, pos + n)),
            r < pow2(8 * (n - k) as nat),
        decreases k,
    {
        proof {
            lemma_pow2_le(8 * (n - k) as nat, 56);
            lemma2_to64();
            lemma2_to64_rest();
        }
        let b: u8 = bytes[pos + k - 1];
        let new_r: u64 = r * 256 + (b as u64);
        proof {
            let sub = bytes@.subrange(pos + k - 1, pos + n);
            assert(sub[0] == b);
            assert(sub.drop_first() =~= bytes@.subrange(pos + k, pos + n));
            assert(new_r == le_val_of(sub));
            lemma_pow2_adds(8 * (n - k) as nat, 8);
            lemma2_to64();
            assert(new_r < pow2(8 * (n - k + 1) as nat)) by (nonlinear_arith)
                requires
                    r < pow2(8 * (n - k) as nat),
                    new_r == r * 256 + b,
                    b < 256,
                    pow2(8 * (n - k + 1) as nat) == pow2(8 * (n - k) as nat) * 256,
            ;
        }
        r = new_r;
        k = k - 1;
    }
    r
}

} // verus!
