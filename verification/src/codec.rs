//! The executable core of the codec: loops that read and write base-256
//! digits against a byte window, in either digit order, together with the
//! minimal packing-size rule.

use vstd::prelude::*;

verus! {

use crate::model::{
    be_bytes, be_value, le_bytes, le_value, lemma_be_value_bound, lemma_le_bytes_len,
    lemma_le_bytes_step, lemma_le_value_bound, lemma_pow256_monotonic, lemma_pow256_pos,
    lemma_pow256_values, pow256, swapped,
};
use vstd::arithmetic::div_mod::lemma_div_denominator;

/// `256^n` as a machine word, for exponents below the `u64` ceiling.
pub(crate) fn pow256_u64(n: usize) -> (r: u64)
    requires
        n <= 7,
    ensures
        r as nat == pow256(n as nat),
{
    proof {
        lemma_pow256_values();
    }
    if n == 0 {
        1
    } else if n == 1 {
        0x100
    } else if n == 2 {
        0x10000
    } else if n == 3 {
        0x100_0000
    } else if n == 4 {
        0x1_0000_0000
    } else if n == 5 {
        0x100_0000_0000
    } else if n == 6 {
        0x1_0000_0000_0000
    } else {
        0x100_0000_0000_0000
    }
}

/// `256^n` as a double machine word, for exponents below the `u128` ceiling.
pub(crate) fn pow256_u128(n: usize) -> (r: u128)
    requires
        n <= 15,
    ensures
        r as nat == pow256(n as nat),
{
    proof {
        lemma_pow256_values();
    }
    if n <= 7 {
        pow256_u64(n) as u128
    } else if n == 8 {
        0x1_0000_0000_0000_0000
    } else if n == 9 {
        0x100_0000_0000_0000_0000
    } else if n == 10 {
        0x1_0000_0000_0000_0000_0000
    } else if n == 11 {
        0x100_0000_0000_0000_0000_0000
    } else if n == 12 {
        0x1_0000_0000_0000_0000_0000_0000
    } else if n == 13 {
        0x100_0000_0000_0000_0000_0000_0000
    } else if n == 14 {
        0x1_0000_0000_0000_0000_0000_0000_0000
    } else {
        0x100_0000_0000_0000_0000_0000_0000_0000
    }
}

/// Reads the first `bytes` bytes of `window` as a little-endian numeral.
pub(crate) fn load_le(window: &[u8], bytes: usize) -> (r: u64)
    requires
        1 <= bytes <= 8,
        bytes <= window@.len(),
    ensures
        r as nat == le_value(window@.subrange(0, bytes as int)),
        (r as nat) < pow256(bytes as nat),
{
    let mut r: u64 = 0;
    let mut i: usize = bytes;
    proof {
        assert(window@.subrange(bytes as int, bytes as int) =~= Seq::<u8>::empty());
    }
    while i > 0
        invariant
            i <= bytes <= 8,
            bytes <= window@.len(),
            r as nat == le_value(window@.subrange(i as int, bytes as int)),
            (r as nat) < pow256((bytes - i) as nat),
        decreases i,
    {
        proof {
            lemma_pow256_monotonic((bytes - i) as nat, 7);
            lemma_pow256_values();
        }
        i = i - 1;
        let b = window[i];
        proof {
            let s = window@.subrange(i as int, bytes as int);
            assert(s.first() == window@[i as int]);
            assert(s.drop_first() =~= window@.subrange(i + 1, bytes as int));
            lemma_le_value_bound(s);
        }
        r = r * 256 + (b as u64);
    }
    proof {
        lemma_le_value_bound(window@.subrange(0, bytes as int));
    }
    r
}

/// Reads the first `bytes` bytes of `window` as a big-endian numeral.
pub(crate) fn load_be(window: &[u8], bytes: usize) -> (r: u64)
    requires
        1 <= bytes <= 8,
        bytes <= window@.len(),
    ensures
        r as nat == be_value(window@.subrange(0, bytes as int)),
        (r as nat) < pow256(bytes as nat),
{
    let mut r: u64 = 0;
    let mut i: usize = 0;
    proof {
        assert(window@.subrange(0, 0) =~= Seq::<u8>::empty());
    }
    while i < bytes
        invariant
            i <= bytes <= 8,
            bytes <= window@.len(),
            r as nat == be_value(window@.subrange(0, i as int)),
            (r as nat) < pow256(i as nat),
        decreases bytes - i,
    {
        proof {
            lemma_pow256_monotonic(i as nat, 7);
            lemma_pow256_values();
        }
        let b = window[i];
        proof {
            let s = window@.subrange(0, i + 1);
            assert(s.last() == window@[i as int]);
            assert(s.drop_last() =~= window@.subrange(0, i as int));
            lemma_be_value_bound(s);
        }
        r = r * 256 + (b as u64);
        i = i + 1;
    }
    r
}

/// Writes `value` into the first `bytes` bytes of `window`, least significant
/// digit first; the rest of the window is untouched.
pub(crate) fn store_le(window: &mut Vec<u8>, value: u64, bytes: usize)
    requires
        1 <= bytes <= 8,
        bytes <= old(window)@.len(),
        (value as nat) < pow256(bytes as nat),
    ensures
        final(window)@.len() == old(window)@.len(),
        final(window)@.subrange(0, bytes as int) == le_bytes(value as nat, bytes as nat),
        final(window)@.skip(bytes as int) == old(window)@.skip(bytes as int),
{
    let ghost orig = window@;
    let mut v = value;
    let mut i: usize = 0;
    proof {
        assert(window@.subrange(0, 0) =~= le_bytes(value as nat, 0));
        lemma_pow256_values();
    }
    while i < bytes
        invariant
            i <= bytes <= 8,
            window@.len() == orig.len(),
            bytes <= orig.len(),
            v as nat == (value as nat) / pow256(i as nat),
            window@.subrange(0, i as int) == le_bytes(value as nat, i as nat),
            forall|j: int| i <= j < orig.len() ==> window@[j] == orig[j],
        decreases bytes - i,
    {
        let d = (v % 256) as u8;
        proof {
            lemma_le_bytes_step(value as nat, i as nat);
            lemma_pow256_pos(i as nat);
            lemma_div_denominator(value as int, pow256(i as nat) as int, 256);
            assert(pow256((i + 1) as nat) == 256 * pow256(i as nat));
            assert(pow256(i as nat) * 256 == 256 * pow256(i as nat));
        }
        let ghost before = window@;
        window.set(i, d);
        v = v / 256;
        i = i + 1;
        proof {
            assert(window@.subrange(0, i as int) =~= before.subrange(0, i - 1).push(d));
        }
    }
    proof {
        assert(window@.skip(bytes as int) =~= orig.skip(bytes as int));
    }
}

/// Writes `value` into the first `bytes` bytes of `window`, most significant
/// digit first; the rest of the window is untouched.
pub(crate) fn store_be(window: &mut Vec<u8>, value: u64, bytes: usize)
    requires
        1 <= bytes <= 8,
        bytes <= old(window)@.len(),
        (value as nat) < pow256(bytes as nat),
    ensures
        final(window)@.len() == old(window)@.len(),
        final(window)@.subrange(0, bytes as int) == be_bytes(value as nat, bytes as nat),
        final(window)@.skip(bytes as int) == old(window)@.skip(bytes as int),
{
    let ghost orig = window@;
    let mut v = value;
    let mut i: usize = 0;
    proof {
        assert(window@.subrange(bytes as int, bytes as int) =~= le_bytes(
            value as nat,
            0,
        ).reverse());
        lemma_pow256_values();
    }
    while i < bytes
        invariant
            i <= bytes <= 8,
            window@.len() == orig.len(),
            bytes <= orig.len(),
            v as nat == (value as nat) / pow256(i as nat),
            window@.subrange(bytes - i, bytes as int) == le_bytes(value as nat, i as nat).reverse(),
            forall|j: int|
                (0 <= j < bytes - i || bytes <= j < orig.len()) ==> window@[j] == orig[j],
        decreases bytes - i,
    {
        let d = (v % 256) as u8;
        proof {
            lemma_le_bytes_step(value as nat, i as nat);
            lemma_le_bytes_len(value as nat, i as nat);
            lemma_pow256_pos(i as nat);
            lemma_div_denominator(value as int, pow256(i as nat) as int, 256);
            assert(pow256((i + 1) as nat) == 256 * pow256(i as nat));
            assert(pow256(i as nat) * 256 == 256 * pow256(i as nat));
        }
        let ghost before = window@;
        window.set(bytes - 1 - i, d);
        v = v / 256;
        i = i + 1;
        proof {
            let l = le_bytes(value as nat, (i - 1) as nat);
            assert(le_bytes(value as nat, i as nat).reverse() =~= seq![d] + l.reverse());
            assert(window@.subrange(bytes - i, bytes as int) =~= seq![d] + before.subrange(
                bytes - i + 1,
                bytes as int,
            ));
        }
    }
    proof {
        assert(window@.skip(bytes as int) =~= orig.skip(bytes as int));
    }
}

/// Reads the first `bytes` bytes of `window` as a little-endian numeral,
/// over the sixteen-byte domain.
pub(crate) fn load_le128(window: &[u8], bytes: usize) -> (r: u128)
    requires
        1 <= bytes <= 16,
        bytes <= window@.len(),
    ensures
        r as nat == le_value(window@.subrange(0, bytes as int)),
        (r as nat) < pow256(bytes as nat),
{
    let mut r: u128 = 0;
    let mut i: usize = bytes;
    proof {
        assert(window@.subrange(bytes as int, bytes as int) =~= Seq::<u8>::empty());
    }
    while i > 0
        invariant
            i <= bytes <= 16,
            bytes <= window@.len(),
            r as nat == le_value(window@.subrange(i as int, bytes as int)),
            (r as nat) < pow256((bytes - i) as nat),
        decreases i,
    {
        proof {
            lemma_pow256_monotonic((bytes - i) as nat, 15);
            lemma_pow256_values();
        }
        i = i - 1;
        let b = window[i];
        proof {
            let s = window@.subrange(i as int, bytes as int);
            assert(s.first() == window@[i as int]);
            assert(s.drop_first() =~= window@.subrange(i + 1, bytes as int));
            lemma_le_value_bound(s);
        }
        r = r * 256 + (b as u128);
    }
    proof {
        lemma_le_value_bound(window@.subrange(0, bytes as int));
    }
    r
}

/// Reads the first `bytes` bytes of `window` as a big-endian numeral,
/// over the sixteen-byte domain.
pub(crate) fn load_be128(window: &[u8], bytes: usize) -> (r: u128)
    requires
        1 <= bytes <= 16,
        bytes <= window@.len(),
    ensures
        r as nat == be_value(window@.subrange(0, bytes as int)),
        (r as nat) < pow256(bytes as nat),
{
    let mut r: u128 = 0;
    let mut i: usize = 0;
    proof {
        assert(window@.subrange(0, 0) =~= Seq::<u8>::empty());
    }
    while i < bytes
        invariant
            i <= bytes <= 16,
            bytes <= window@.len(),
            r as nat == be_value(window@.subrange(0, i as int)),
            (r as nat) < pow256(i as nat),
        decreases bytes - i,
    {
        proof {
            lemma_pow256_monotonic(i as nat, 15);
            lemma_pow256_values();
        }
        let b = window[i];
        proof {
            let s = window@.subrange(0, i + 1);
            assert(s.last() == window@[i as int]);
            assert(s.drop_last() =~= window@.subrange(0, i as int));
            lemma_be_value_bound(s);
        }
        r = r * 256 + (b as u128);
        i = i + 1;
    }
    r
}

/// Writes `value` into the first `bytes` bytes of `window`, least significant
/// digit first, over the sixteen-byte domain.
pub(crate) fn store_le128(window: &mut Vec<u8>, value: u128, bytes: usize)
    requires
        1 <= bytes <= 16,
        bytes <= old(window)@.len(),
        (value as nat) < pow256(bytes as nat),
    ensures
        final(window)@.len() == old(window)@.len(),
        final(window)@.subrange(0, bytes as int) == le_bytes(value as nat, bytes as nat),
        final(window)@.skip(bytes as int) == old(window)@.skip(bytes as int),
{
    let ghost orig = window@;
    let mut v = value;
    let mut i: usize = 0;
    proof {
        assert(window@.subrange(0, 0) =~= le_bytes(value as nat, 0));
        lemma_pow256_values();
    }
    while i < bytes
        invariant
            i <= bytes <= 16,
            window@.len() == orig.len(),
            bytes <= orig.len(),
            v as nat == (value as nat) / pow256(i as nat),
            window@.subrange(0, i as int) == le_bytes(value as nat, i as nat),
            forall|j: int| i <= j < orig.len() ==> window@[j] == orig[j],
        decreases bytes - i,
    {
        let d = (v % 256) as u8;
        proof {
            lemma_le_bytes_step(value as nat, i as nat);
            lemma_pow256_pos(i as nat);
            lemma_div_denominator(value as int, pow256(i as nat) as int, 256);
            assert(pow256((i + 1) as nat) == 256 * pow256(i as nat));
            assert(pow256(i as nat) * 256 == 256 * pow256(i as nat));
        }
        let ghost before = window@;
        window.set(i, d);
        v = v / 256;
        i = i + 1;
        proof {
            assert(window@.subrange(0, i as int) =~= before.subrange(0, i - 1).push(d));
        }
    }
    proof {
        assert(window@.skip(bytes as int) =~= orig.skip(bytes as int));
    }
}

/// Writes `value` into the first `bytes` bytes of `window`, most significant
/// digit first, over the sixteen-byte domain.
pub(crate) fn store_be128(window: &mut Vec<u8>, value: u128, bytes: usize)
    requires
        1 <= bytes <= 16,
        bytes <= old(window)@.len(),
        (value as nat) < pow256(bytes as nat),
    ensures
        final(window)@.len() == old(window)@.len(),
        final(window)@.subrange(0, bytes as int) == be_bytes(value as nat, bytes as nat),
        final(window)@.skip(bytes as int) == old(window)@.skip(bytes as int),
{
    let ghost orig = window@;
    let mut v = value;
    let mut i: usize = 0;
    proof {
        assert(window@.subrange(bytes as int, bytes as int) =~= le_bytes(
            value as nat,
            0,
        ).reverse());
        lemma_pow256_values();
    }
    while i < bytes
        invariant
            i <= bytes <= 16,
            window@.len() == orig.len(),
            bytes <= orig.len(),
            v as nat == (value as nat) / pow256(i as nat),
            window@.subrange(bytes - i, bytes as int) == le_bytes(value as nat, i as nat).reverse(),
            forall|j: int|
                (0 <= j < bytes - i || bytes <= j < orig.len()) ==> window@[j] == orig[j],
        decreases bytes - i,
    {
        let d = (v % 256) as u8;
        proof {
            lemma_le_bytes_step(value as nat, i as nat);
            lemma_le_bytes_len(value as nat, i as nat);
            lemma_pow256_pos(i as nat);
            lemma_div_denominator(value as int, pow256(i as nat) as int, 256);
            assert(pow256((i + 1) as nat) == 256 * pow256(i as nat));
            assert(pow256(i as nat) * 256 == 256 * pow256(i as nat));
        }
        let ghost before = window@;
        window.set(bytes - 1 - i, d);
        v = v / 256;
        i = i + 1;
        proof {
            let l = le_bytes(value as nat, (i - 1) as nat);
            assert(le_bytes(value as nat, i as nat).reverse() =~= seq![d] + l.reverse());
            assert(window@.subrange(bytes - i, bytes as int) =~= seq![d] + before.subrange(
                bytes - i + 1,
                bytes as int,
            ));
        }
    }
    proof {
        assert(window@.skip(bytes as int) =~= orig.skip(bytes as int));
    }
}

/// Reverses the order of the low `bytes` bytes of `value`: the pure byte
/// swap under every bulk conversion.
pub(crate) fn swap_bytes128(value: u128, bytes: usize) -> (r: u128)
    requires
        1 <= bytes <= 16,
        (value as nat) < pow256(bytes as nat),
    ensures
        r as nat == swapped(value as nat, bytes as nat),
        (r as nat) < pow256(bytes as nat),
{
    let mut r: u128 = 0;
    let mut v = value;
    let mut i: usize = 0;
    proof {
        assert(le_bytes(value as nat, 0) =~= Seq::<u8>::empty());
        lemma_pow256_values();
    }
    while i < bytes
        invariant
            i <= bytes <= 16,
            v as nat == (value as nat) / pow256(i as nat),
            r as nat == be_value(le_bytes(value as nat, i as nat)),
            (r as nat) < pow256(i as nat),
        decreases bytes - i,
    {
        proof {
            lemma_pow256_monotonic(i as nat, 15);
            lemma_pow256_values();
        }
        let d = (v % 256) as u8;
        proof {
            lemma_le_bytes_step(value as nat, i as nat);
            lemma_le_bytes_len(value as nat, i as nat);
            lemma_pow256_pos(i as nat);
            lemma_div_denominator(value as int, pow256(i as nat) as int, 256);
            assert(pow256((i + 1) as nat) == 256 * pow256(i as nat));
            assert(pow256(i as nat) * 256 == 256 * pow256(i as nat));
            let l = le_bytes(value as nat, i as nat);
            assert(l.push(d).drop_last() =~= l);
            assert(l.push(d).last() == d);
            lemma_be_value_bound(l.push(d));
        }
        r = r * 256 + ((v % 256) as u128);
        v = v / 256;
        i = i + 1;
    }
    proof {
        lemma_le_bytes_len(value as nat, bytes as nat);
        lemma_be_value_bound(le_bytes(value as nat, bytes as nat));
    }
    r
}

/// Copies `data` into `stream` starting at `offset`; everything outside the
/// copied range is untouched.
pub(crate) fn copy_into(stream: &mut Vec<u8>, offset: usize, data: &Vec<u8>)
    requires
        offset + data@.len() <= old(stream)@.len(),
    ensures
        final(stream)@.len() == old(stream)@.len(),
        final(stream)@.subrange(offset as int, offset + data@.len()) == data@,
        forall|j: int| 0 <= j < offset ==> final(stream)@[j] == old(stream)@[j],
        forall|j: int|
            offset + data@.len() <= j < old(stream)@.len() ==> final(stream)@[j] == old(
                stream,
            )@[j],
{
    let ghost orig = stream@;
    let total = stream.len();
    let n = data.len();
    let mut k: usize = 0;
    while k < n
        invariant
            n == data@.len(),
            offset + n <= orig.len(),
            orig.len() == total,
            stream@.len() == orig.len(),
            k <= n,
            forall|t: int| 0 <= t < k ==> stream@[offset + t] == data@[t],
            forall|j: int|
                (0 <= j < offset || offset + k <= j < orig.len()) ==> stream@[j] == orig[j],
        decreases n - k,
    {
        stream.set(offset + k, data[k]);
        k = k + 1;
    }
    proof {
        assert(stream@.subrange(offset as int, offset + data@.len()) =~= data@);
    }
}

/// The smallest byte count that can hold `value` unsigned: the least `r`
/// with `value < 256^r`, never less than one byte.
pub fn pack_size(value: u64) -> (r: usize)
    ensures
        1 <= r <= 8,
        (value as nat) < pow256(r as nat),
        r > 1 ==> pow256((r - 1) as nat) <= value as nat,
{
    proof {
        lemma_pow256_values();
    }
    if value < 0x100 {
        1
    } else if value < 0x10000 {
        2
    } else if value < 0x100_0000 {
        3
    } else if value < 0x1_0000_0000 {
        4
    } else if value < 0x100_0000_0000 {
        5
    } else if value < 0x1_0000_0000_0000 {
        6
    } else if value < 0x100_0000_0000_0000 {
        7
    } else {
        8
    }
}

/// The smallest byte count that can hold `value` unsigned, over the
/// sixteen-byte domain.
pub fn pack_size128(value: u128) -> (r: usize)
    ensures
        1 <= r <= 16,
        (value as nat) < pow256(r as nat),
        r > 1 ==> pow256((r - 1) as nat) <= value as nat,
{
    proof {
        lemma_pow256_values();
    }
    if value < 0x1_0000_0000_0000_0000 {
        pack_size(value as u64)
    } else if value < 0x100_0000_0000_0000_0000 {
        9
    } else if value < 0x1_0000_0000_0000_0000_0000 {
        10
    } else if value < 0x100_0000_0000_0000_0000_0000 {
        11
    } else if value < 0x1_0000_0000_0000_0000_0000_0000 {
        12
    } else if value < 0x100_0000_0000_0000_0000_0000_0000 {
        13
    } else if value < 0x1_0000_0000_0000_0000_0000_0000_0000 {
        14
    } else if value < 0x100_0000_0000_0000_0000_0000_0000_0000 {
        15
    } else {
        16
    }
}

} // verus!
