//! The laws of the codec, stated once over the model and proved for every
//! input: the round trips of the unsigned, signed and framed encodings, and
//! the involution of the bulk byte swap.

use vstd::prelude::*;

verus! {

use crate::endian::{bytes_of, value_of, Endianness};
use crate::model::{le_bytes, lemma_be_value_reverse, lemma_le_bytes_le_value, lemma_le_bytes_len,
    lemma_le_value_le_bytes, lemma_pow256_values, lemma_swapped_bound, lemma_swapped_involutive,
    lemma_unsign_sign, pow256, sign_val, swapped, unsign};
use vstd::arithmetic::div_mod::lemma_mod_division_less_than_divisor;

/// Round trip: for every width `n` and every value `v` representable in `n`
/// bytes, decoding the `n`-byte encoding of `v` gives `v` back, under either
/// byte order.
pub proof fn lemma_uint_round_trip<E: Endianness>(v: nat, n: nat)
    requires
        v < pow256(n),
    ensures
        bytes_of::<E>(v, n).len() == n,
        value_of::<E>(bytes_of::<E>(v, n)) == v,
{
    lemma_le_bytes_len(v, n);
    lemma_le_value_le_bytes(v, n);
    let l = le_bytes(v, n);
    lemma_be_value_reverse(l.reverse());
    assert(l.reverse().reverse() =~= l);
}

/// Every byte window is the encoding of its own value: decoding a window
/// and re-encoding the result reproduces the window exactly, under either
/// byte order.
pub proof fn lemma_window_canonical<E: Endianness>(s: Seq<u8>)
    ensures
        bytes_of::<E>(value_of::<E>(s), s.len()) == s,
{
    lemma_le_bytes_le_value(s);
    lemma_be_value_reverse(s);
    lemma_le_bytes_le_value(s.reverse());
    assert(s.reverse().reverse() =~= s);
}

/// Signed round trip: every value in the signed range of `n` bytes survives
/// the write of its width-limited unsigned pattern and the sign-extending
/// read, under either byte order.
pub proof fn lemma_int_round_trip<E: Endianness>(v: int, n: nat)
    requires
        n >= 1,
        -((pow256(n) / 2) as int) <= v < (pow256(n) / 2) as int,
    ensures
        sign_val(value_of::<E>(bytes_of::<E>(unsign(v, n), n)), n) == v,
{
    crate::model::lemma_pow256_pos(n);
    lemma_mod_division_less_than_divisor(v, pow256(n) as int);
    lemma_uint_round_trip::<E>(unsign(v, n), n);
    crate::model::lemma_sign_unsign(v, n);
}

/// The wire form of one frame: a 4-byte unsigned length prefix holding the
/// payload's length, then the payload itself.
pub open spec fn frame<E: Endianness>(payload: Seq<u8>) -> Seq<u8> {
    bytes_of::<E>(payload.len(), 4) + payload
}

/// Framing round trip: a stream that begins with the frame of `payload`
/// carries a length prefix that decodes to the payload's length, yields
/// exactly the payload, and leaves exactly the rest of the stream.
pub proof fn lemma_frame_round_trip<E: Endianness>(payload: Seq<u8>, rest: Seq<u8>)
    requires
        payload.len() <= u32::MAX,
    ensures
        ({
            let s = frame::<E>(payload) + rest;
            &&& s.len() == 4 + payload.len() + rest.len()
            &&& value_of::<E>(s.subrange(0, 4)) == payload.len()
            &&& s.subrange(4, 4 + payload.len() as int) == payload
            &&& s.skip(4 + payload.len() as int) == rest
        }),
{
    lemma_pow256_values();
    lemma_uint_round_trip::<E>(payload.len(), 4);
    let pre = bytes_of::<E>(payload.len(), 4);
    let s = frame::<E>(payload) + rest;
    assert(s.subrange(0, 4) =~= pre);
    assert(s.subrange(4, 4 + payload.len() as int) =~= payload);
    assert(s.skip(4 + payload.len() as int) =~= rest);
}

/// Bulk conversion involution: byte-swapping every element of a sequence
/// twice returns the sequence unchanged, so converting a slice to the
/// non-native order and converting it again restores the original pattern.
pub proof fn lemma_swap_slice_involutive_u16(s: Seq<u16>)
    ensures
        s.map_values(|x: u16| swapped(x as nat, 2) as u16).map_values(
            |x: u16| swapped(x as nat, 2) as u16,
        ) == s,
{
    let f = |x: u16| swapped(x as nat, 2) as u16;
    assert forall|j: int| 0 <= j < s.len() implies s.map_values(f).map_values(f)[j] == s[j] by {
        lemma_pow256_values();
        lemma_swapped_bound(s[j] as nat, 2);
        lemma_swapped_involutive(s[j] as nat, 2);
    }
    assert(s.map_values(f).map_values(f) =~= s);
}

/// Bulk conversion involution over four-byte elements; see
/// [`lemma_swap_slice_involutive_u16`].
pub proof fn lemma_swap_slice_involutive_u32(s: Seq<u32>)
    ensures
        s.map_values(|x: u32| swapped(x as nat, 4) as u32).map_values(
            |x: u32| swapped(x as nat, 4) as u32,
        ) == s,
{
    let f = |x: u32| swapped(x as nat, 4) as u32;
    assert forall|j: int| 0 <= j < s.len() implies s.map_values(f).map_values(f)[j] == s[j] by {
        lemma_pow256_values();
        lemma_swapped_bound(s[j] as nat, 4);
        lemma_swapped_involutive(s[j] as nat, 4);
    }
    assert(s.map_values(f).map_values(f) =~= s);
}

/// Bulk conversion involution over eight-byte elements; see
/// [`lemma_swap_slice_involutive_u16`].
pub proof fn lemma_swap_slice_involutive_u64(s: Seq<u64>)
    ensures
        s.map_values(|x: u64| swapped(x as nat, 8) as u64).map_values(
            |x: u64| swapped(x as nat, 8) as u64,
        ) == s,
{
    let f = |x: u64| swapped(x as nat, 8) as u64;
    assert forall|j: int| 0 <= j < s.len() implies s.map_values(f).map_values(f)[j] == s[j] by {
        lemma_pow256_values();
        lemma_swapped_bound(s[j] as nat, 8);
        lemma_swapped_involutive(s[j] as nat, 8);
    }
    assert(s.map_values(f).map_values(f) =~= s);
}

/// Bulk conversion involution over sixteen-byte elements; see
/// [`lemma_swap_slice_involutive_u16`].
pub proof fn lemma_swap_slice_involutive_u128(s: Seq<u128>)
    ensures
        s.map_values(|x: u128| swapped(x as nat, 16) as u128).map_values(
            |x: u128| swapped(x as nat, 16) as u128,
        ) == s,
{
    let f = |x: u128| swapped(x as nat, 16) as u128;
    assert forall|j: int| 0 <= j < s.len() implies s.map_values(f).map_values(f)[j] == s[j] by {
        lemma_pow256_values();
        lemma_swapped_bound(s[j] as nat, 16);
        lemma_swapped_involutive(s[j] as nat, 16);
    }
    assert(s.map_values(f).map_values(f) =~= s);
}

/// Bulk conversion involution for signed elements: byte-swapping the
/// two's-complement pattern of every element twice returns the sequence
/// unchanged.
pub proof fn lemma_swap_slice_involutive_i16(s: Seq<i16>)
    ensures
        s.map_values(|x: i16| sign_val(swapped(unsign(x as int, 2), 2), 2) as i16).map_values(
            |x: i16| sign_val(swapped(unsign(x as int, 2), 2), 2) as i16,
        ) == s,
{
    let f = |x: i16| sign_val(swapped(unsign(x as int, 2), 2), 2) as i16;
    assert forall|j: int| 0 <= j < s.len() implies s.map_values(f).map_values(f)[j] == s[j] by {
        lemma_pow256_values();
        crate::model::lemma_pow256_half(2);
        let u = unsign(s[j] as int, 2);
        lemma_mod_division_less_than_divisor(s[j] as int, pow256(2) as int);
        lemma_swapped_bound(u, 2);
        lemma_swapped_involutive(u, 2);
        lemma_unsign_sign(swapped(u, 2), 2);
        crate::model::lemma_sign_unsign(s[j] as int, 2);
    }
    assert(s.map_values(f).map_values(f) =~= s);
}

} // verus!
