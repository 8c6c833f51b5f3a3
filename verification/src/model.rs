//! The mathematical model of the codec: a byte window is a base-256 numeral,
//! read least-significant-first (little-endian) or most-significant-first
//! (big-endian). Every executable contract in the crate is stated over the
//! functions of this module.

use vstd::prelude::*;

verus! {

use vstd::arithmetic::div_mod::{
    lemma_div_denominator, lemma_fundamental_div_mod, lemma_fundamental_div_mod_converse,
    lemma_mod_division_less_than_divisor, lemma_small_mod,
};

/// `256^n`: the number of values representable in `n` bytes.
pub open spec fn pow256(n: nat) -> nat
    decreases n,
{
    if n == 0 {
        1
    } else {
        256 * pow256((n - 1) as nat)
    }
}

/// The value of a byte sequence read as a little-endian numeral:
/// the first byte is the least significant.
pub open spec fn le_value(s: Seq<u8>) -> nat
    decreases s.len(),
{
    if s.len() == 0 {
        0
    } else {
        ((s.first() as nat) + 256 * le_value(s.drop_first())) as nat
    }
}

/// The value of a byte sequence read as a big-endian numeral:
/// the last byte is the least significant.
pub open spec fn be_value(s: Seq<u8>) -> nat
    decreases s.len(),
{
    if s.len() == 0 {
        0
    } else {
        (256 * be_value(s.drop_last()) + (s.last() as nat)) as nat
    }
}

/// The canonical little-endian encoding of `v` in exactly `n` bytes
/// (the digits of `v` in base 256, least significant first).
pub open spec fn le_bytes(v: nat, n: nat) -> Seq<u8>
    decreases n,
{
    if n == 0 {
        Seq::empty()
    } else {
        seq![(v % 256) as u8] + le_bytes(v / 256, (n - 1) as nat)
    }
}

/// The canonical big-endian encoding of `v` in exactly `n` bytes.
pub open spec fn be_bytes(v: nat, n: nat) -> Seq<u8> {
    le_bytes(v, n).reverse()
}

/// The signed reading of an `n`-byte unsigned value `v`: values at or above
/// `256^n / 2` have their sign bit set and stand for `v - 256^n`.
pub open spec fn sign_val(v: nat, n: nat) -> int {
    if v < pow256(n) / 2 {
        v as int
    } else {
        v as int - pow256(n) as int
    }
}

/// The unsigned `n`-byte pattern of a signed value `v`: the least
/// non-negative residue of `v` modulo `256^n`.
pub open spec fn unsign(v: int, n: nat) -> nat {
    (v % (pow256(n) as int)) as nat
}

/// The value whose `n`-byte representation is `v`'s representation with the
/// byte order reversed.
pub open spec fn swapped(v: nat, n: nat) -> nat {
    be_value(le_bytes(v, n))
}

pub proof fn lemma_pow256_pos(n: nat)
    ensures
        pow256(n) >= 1,
    decreases n,
{
    if n > 0 {
        lemma_pow256_pos((n - 1) as nat);
    }
}

pub proof fn lemma_pow256_monotonic(m: nat, n: nat)
    requires
        m <= n,
    ensures
        pow256(m) <= pow256(n),
    decreases n,
{
    if m < n {
        lemma_pow256_monotonic(m, (n - 1) as nat);
        lemma_pow256_pos((n - 1) as nat);
    }
}

/// The powers of 256 that the executable code compares against, as literals.
pub proof fn lemma_pow256_values()
    ensures
        pow256(0) == 1,
        pow256(1) == 0x100,
        pow256(2) == 0x10000,
        pow256(3) == 0x100_0000,
        pow256(4) == 0x1_0000_0000,
        pow256(5) == 0x100_0000_0000,
        pow256(6) == 0x1_0000_0000_0000,
        pow256(7) == 0x100_0000_0000_0000,
        pow256(8) == 0x1_0000_0000_0000_0000,
        pow256(9) == 0x100_0000_0000_0000_0000,
        pow256(10) == 0x1_0000_0000_0000_0000_0000,
        pow256(11) == 0x100_0000_0000_0000_0000_0000,
        pow256(12) == 0x1_0000_0000_0000_0000_0000_0000,
        pow256(13) == 0x100_0000_0000_0000_0000_0000_0000,
        pow256(14) == 0x1_0000_0000_0000_0000_0000_0000_0000,
        pow256(15) == 0x100_0000_0000_0000_0000_0000_0000_0000,
        pow256(16) == 0x1_0000_0000_0000_0000_0000_0000_0000_0000,
{
    assert(pow256(0) == 1);
    assert(pow256(1) == 0x100);
    assert(pow256(2) == 0x10000);
    assert(pow256(3) == 0x100_0000);
    assert(pow256(4) == 0x1_0000_0000);
    assert(pow256(5) == 0x100_0000_0000);
    assert(pow256(6) == 0x1_0000_0000_0000);
    assert(pow256(7) == 0x100_0000_0000_0000);
    assert(pow256(8) == 0x1_0000_0000_0000_0000);
    assert(pow256(9) == 0x100_0000_0000_0000_0000);
    assert(pow256(10) == 0x1_0000_0000_0000_0000_0000);
    assert(pow256(11) == 0x100_0000_0000_0000_0000_0000);
    assert(pow256(12) == 0x1_0000_0000_0000_0000_0000_0000);
    assert(pow256(13) == 0x100_0000_0000_0000_0000_0000_0000);
    assert(pow256(14) == 0x1_0000_0000_0000_0000_0000_0000_0000);
    assert(pow256(15) == 0x100_0000_0000_0000_0000_0000_0000_0000);
    assert(pow256(16) == 0x1_0000_0000_0000_0000_0000_0000_0000_0000);
}

pub proof fn lemma_le_value_bound(s: Seq<u8>)
    ensures
        le_value(s) < pow256(s.len()),
    decreases s.len(),
{
    if s.len() > 0 {
        lemma_le_value_bound(s.drop_first());
    }
}

pub proof fn lemma_be_value_bound(s: Seq<u8>)
    ensures
        be_value(s) < pow256(s.len()),
    decreases s.len(),
{
    if s.len() > 0 {
        lemma_be_value_bound(s.drop_last());
    }
}

/// Reading a sequence big-endian is reading its reversal little-endian.
pub proof fn lemma_be_value_reverse(s: Seq<u8>)
    ensures
        be_value(s) == le_value(s.reverse()),
    decreases s.len(),
{
    if s.len() == 0 {
        assert(s.reverse() =~= Seq::<u8>::empty());
    } else {
        lemma_be_value_reverse(s.drop_last());
        assert(s.reverse().first() == s.last());
        assert(s.reverse().drop_first() =~= s.drop_last().reverse());
    }
}

pub proof fn lemma_le_bytes_len(v: nat, n: nat)
    ensures
        le_bytes(v, n).len() == n,
    decreases n,
{
    if n > 0 {
        lemma_le_bytes_len(v / 256, (n - 1) as nat);
    }
}

/// Decoding the canonical encoding gives the value back: the little-endian
/// round trip for every width `n` and every value representable in `n` bytes.
pub proof fn lemma_le_value_le_bytes(v: nat, n: nat)
    requires
        v < pow256(n),
    ensures
        le_value(le_bytes(v, n)) == v,
    decreases n,
{
    if n > 0 {
        lemma_fundamental_div_mod(v as int, 256);
        lemma_mod_division_less_than_divisor(v as int, 256);
        assert(v / 256 < pow256((n - 1) as nat));
        lemma_le_value_le_bytes(v / 256, (n - 1) as nat);
        let rest = le_bytes(v / 256, (n - 1) as nat);
        assert((seq![(v % 256) as u8] + rest).drop_first() =~= rest);
    }
}

/// Every byte sequence is the canonical encoding of its own value: encoding
/// is surjective onto byte windows, and decoding is injective.
pub proof fn lemma_le_bytes_le_value(s: Seq<u8>)
    ensures
        le_bytes(le_value(s), s.len()) == s,
    decreases s.len(),
{
    if s.len() == 0 {
        assert(le_bytes(0, 0) =~= s);
    } else {
        let r = le_value(s.drop_first());
        lemma_fundamental_div_mod_converse(
            le_value(s) as int,
            256,
            r as int,
            s.first() as int,
        );
        lemma_le_bytes_le_value(s.drop_first());
        assert(le_bytes(le_value(s), s.len()) =~= s);
    }
}

/// Extending the encoding by one byte appends the next base-256 digit.
pub proof fn lemma_le_bytes_step(v: nat, i: nat)
    ensures
        le_bytes(v, (i + 1) as nat) == le_bytes(v, i).push(((v / pow256(i)) % 256) as u8),
    decreases i,
{
    if i == 0 {
        assert(v / pow256(0) == v) by {
            lemma_pow256_values();
        }
        assert(le_bytes(v / 256, 0) =~= Seq::<u8>::empty());
        assert(le_bytes(v, 1) =~= le_bytes(v, 0).push((v % 256) as u8));
    } else {
        lemma_le_bytes_step(v / 256, (i - 1) as nat);
        lemma_pow256_pos((i - 1) as nat);
        lemma_div_denominator(v as int, 256, pow256((i - 1) as nat) as int);
        assert(256 * pow256((i - 1) as nat) == pow256(i));
        let d = ((v / pow256(i)) % 256) as u8;
        assert(seq![(v % 256) as u8] + le_bytes(v / 256, (i - 1) as nat).push(d) =~= (seq![
            (v % 256) as u8,
        ] + le_bytes(v / 256, (i - 1) as nat)).push(d));
    }
}

/// `256^n` is even, and halving it is exact (`n >= 1`).
pub proof fn lemma_pow256_half(n: nat)
    requires
        n >= 1,
    ensures
        pow256(n) == 2 * (pow256(n) / 2),
        pow256(n) / 2 == 128 * pow256((n - 1) as nat),
{
    lemma_fundamental_div_mod_converse(
        pow256(n) as int,
        2,
        128 * pow256((n - 1) as nat) as int,
        0,
    );
}

/// The signed round trip: any value in the signed range of `n` bytes survives
/// the pass to its unsigned `n`-byte pattern and back.
pub proof fn lemma_sign_unsign(v: int, n: nat)
    requires
        n >= 1,
        -((pow256(n) / 2) as int) <= v < (pow256(n) / 2) as int,
    ensures
        sign_val(unsign(v, n), n) == v,
{
    lemma_pow256_half(n);
    lemma_pow256_pos((n - 1) as nat);
    let p = pow256(n) as int;
    if v >= 0 {
        lemma_small_mod(v as nat, pow256(n));
    } else {
        lemma_fundamental_div_mod_converse(v, p, -1, v + p);
    }
}

/// The unsigned pattern of the signed reading of an `n`-byte value is the
/// value itself: `unsign` inverts `sign_val` on the whole unsigned range.
pub proof fn lemma_unsign_sign(v: nat, n: nat)
    requires
        n >= 1,
        v < pow256(n),
    ensures
        unsign(sign_val(v, n), n) == v,
{
    lemma_pow256_half(n);
    lemma_pow256_pos((n - 1) as nat);
    let p = pow256(n) as int;
    if v < pow256(n) / 2 {
        lemma_small_mod(v, pow256(n));
    } else {
        lemma_fundamental_div_mod_converse(v as int - p, p, -1, v as int);
    }
}

pub proof fn lemma_swapped_bound(v: nat, n: nat)
    ensures
        swapped(v, n) < pow256(n),
{
    lemma_le_bytes_len(v, n);
    lemma_be_value_bound(le_bytes(v, n));
}

/// Reversing the byte order twice returns any representable value unchanged.
pub proof fn lemma_swapped_involutive(v: nat, n: nat)
    requires
        v < pow256(n),
    ensures
        swapped(swapped(v, n), n) == v,
{
    let l = le_bytes(v, n);
    lemma_le_bytes_len(v, n);
    lemma_be_value_reverse(l);
    let r = l.reverse();
    lemma_le_bytes_le_value(r);
    lemma_be_value_reverse(r);
    assert(r.reverse() =~= l);
    lemma_le_value_le_bytes(v, n);
}

} // verus!
