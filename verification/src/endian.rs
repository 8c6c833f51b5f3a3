//! Byte-order tags and the codec interface that is generic over them.
//!
//! `BigEndian` and `LittleEndian` are uninhabited marker types: a codec call
//! names its byte order as a type argument and the whole call reads or writes
//! under that one order. The `Endianness` trait states each operation's
//! contract once, over the model of [`crate::model`], and supplies every
//! derived operation as a provided method.

use vstd::prelude::*;

verus! {

use crate::codec::{copy_into, load_be, load_be128, load_le, load_le128, pow256_u64, pow256_u128,
    store_be, store_be128, store_le, store_le128, swap_bytes128};
use vstd::slice::slice_subrange;
use crate::model::{be_bytes, be_value, le_bytes, le_value, lemma_pow256_half, lemma_pow256_pos,
    lemma_pow256_values, pow256, sign_val, swapped, unsign};
use vstd::arithmetic::div_mod::{lemma_fundamental_div_mod, lemma_fundamental_div_mod_converse,
    lemma_small_mod};

/// The byte order that stores the most significant byte first.
#[derive(Clone, Copy, Debug, Eq, Hash, Ord, PartialEq, PartialOrd)]
pub struct BigEndian;

/// The byte order that stores the least significant byte first.
#[derive(Clone, Copy, Debug, Eq, Hash, Ord, PartialEq, PartialOrd)]
pub struct LittleEndian;

/// The byte order of multi-byte values on the wire in the Internet protocols.
pub type NetworkEndian = BigEndian;

/// The value of a byte window under the little-endian order when `little`
/// holds, and under the big-endian order otherwise.
pub open spec fn order_value(little: bool, s: Seq<u8>) -> nat {
    if little {
        le_value(s)
    } else {
        be_value(s)
    }
}

/// The `n`-byte encoding of `v` under the order that `little` selects.
pub open spec fn order_bytes(little: bool, v: nat, n: nat) -> Seq<u8> {
    if little {
        le_bytes(v, n)
    } else {
        be_bytes(v, n)
    }
}

/// A byte order: reads and writes of fixed- and variable-width integers
/// against an exact-length byte window, all honouring the one order that the
/// implementing tag names.
///
/// Only the variable-width operations and the order itself are required;
/// every fixed-width and signed operation is derived from them.
pub trait Endianness: Sized {
    /// True of the order whose first byte is the least significant.
    spec fn is_little() -> bool;

    /// The runtime answer to [`Self::is_little`].
    fn little() -> (r: bool)
        ensures
            r == Self::is_little(),
    ;

    /// Reads an unsigned integer of `bytes` bytes from the front of `stream`.
    fn read_uint(stream: &[u8], bytes: usize) -> (r: u64)
        requires
            1 <= bytes <= 8,
            bytes <= stream@.len(),
        ensures
            r as nat == order_value(Self::is_little(), stream@.subrange(0, bytes as int)),
            (r as nat) < pow256(bytes as nat),
    ;

    /// Reads an unsigned integer of `bytes` bytes from the front of `stream`,
    /// over the sixteen-byte domain.
    fn read_uint128(stream: &[u8], bytes: usize) -> (r: u128)
        requires
            1 <= bytes <= 16,
            bytes <= stream@.len(),
        ensures
            r as nat == order_value(Self::is_little(), stream@.subrange(0, bytes as int)),
            (r as nat) < pow256(bytes as nat),
    ;

    /// Writes `value` into the first `bytes` bytes of `stream`. The declared
    /// width must be able to hold the value: `value < 256^bytes`, the
    /// minimal-width rule of [`crate::pack_size`].
    fn write_uint(stream: &mut Vec<u8>, value: u64, bytes: usize)
        requires
            1 <= bytes <= 8,
            bytes <= old(stream)@.len(),
            (value as nat) < pow256(bytes as nat),
        ensures
            final(stream)@.len() == old(stream)@.len(),
            final(stream)@.subrange(0, bytes as int) == order_bytes(
                Self::is_little(),
                value as nat,
                bytes as nat,
            ),
            final(stream)@.skip(bytes as int) == old(stream)@.skip(bytes as int),
    ;

    /// Writes `value` into the first `bytes` bytes of `stream`, over the
    /// sixteen-byte domain, under the same minimal-width rule.
    fn write_uint128(stream: &mut Vec<u8>, value: u128, bytes: usize)
        requires
            1 <= bytes <= 16,
            bytes <= old(stream)@.len(),
            (value as nat) < pow256(bytes as nat),
        ensures
            final(stream)@.len() == old(stream)@.len(),
            final(stream)@.subrange(0, bytes as int) == order_bytes(
                Self::is_little(),
                value as nat,
                bytes as nat,
            ),
            final(stream)@.skip(bytes as int) == old(stream)@.skip(bytes as int),
    ;

    /// Reads the first byte of `stream`; one byte has the same reading in
    /// either order.
    fn read_u8(stream: &[u8]) -> (r: u8)
        requires
            stream@.len() >= 1,
        ensures
            r as nat == order_value(Self::is_little(), stream@.subrange(0, 1)),
    {
        let r = stream[0];
        proof {
            let s = stream@.subrange(0, 1);
            assert(s.first() == stream@[0]);
            assert(s.last() == stream@[0]);
            assert(s.drop_first() =~= Seq::<u8>::empty());
            assert(s.drop_last() =~= Seq::<u8>::empty());
            assert(le_value(s.drop_first()) == 0);
            assert(be_value(s.drop_last()) == 0);
            assert(le_value(s) == stream@[0]);
            assert(be_value(s) == stream@[0]);
        }
        r
    }

    fn read_u16(stream: &[u8]) -> (r: u16)
        requires
            stream@.len() >= 2,
        ensures
            r as nat == order_value(Self::is_little(), stream@.subrange(0, 2)),
    {
        let v = Self::read_uint(stream, 2);
        proof {
            lemma_pow256_values();
        }
        v as u16
    }

    /// Reads a 24-bit unsigned integer: a three-byte window of the
    /// variable-width codec with the width fixed.
    fn read_u24(stream: &[u8]) -> (r: u32)
        requires
            stream@.len() >= 3,
        ensures
            r as nat == order_value(Self::is_little(), stream@.subrange(0, 3)),
            r < 0x100_0000,
    {
        let v = Self::read_uint(stream, 3);
        proof {
            lemma_pow256_values();
        }
        v as u32
    }

    fn read_u32(stream: &[u8]) -> (r: u32)
        requires
            stream@.len() >= 4,
        ensures
            r as nat == order_value(Self::is_little(), stream@.subrange(0, 4)),
    {
        let v = Self::read_uint(stream, 4);
        proof {
            lemma_pow256_values();
        }
        v as u32
    }

    fn read_u64(stream: &[u8]) -> (r: u64)
        requires
            stream@.len() >= 8,
        ensures
            r as nat == order_value(Self::is_little(), stream@.subrange(0, 8)),
    {
        Self::read_uint(stream, 8)
    }

    fn read_u128(stream: &[u8]) -> (r: u128)
        requires
            stream@.len() >= 16,
        ensures
            r as nat == order_value(Self::is_little(), stream@.subrange(0, 16)),
    {
        Self::read_uint128(stream, 16)
    }

    /// Writes one byte; one byte has the same encoding in either order.
    fn write_u8(stream: &mut Vec<u8>, value: u8)
        requires
            old(stream)@.len() >= 1,
        ensures
            final(stream)@.len() == old(stream)@.len(),
            final(stream)@.subrange(0, 1) == order_bytes(Self::is_little(), value as nat, 1),
            final(stream)@.skip(1) == old(stream)@.skip(1),
    {
        proof {
            lemma_pow256_values();
        }
        Self::write_uint(stream, value as u64, 1);
    }

    fn write_u16(stream: &mut Vec<u8>, value: u16)
        requires
            old(stream)@.len() >= 2,
        ensures
            final(stream)@.len() == old(stream)@.len(),
            final(stream)@.subrange(0, 2) == order_bytes(Self::is_little(), value as nat, 2),
            final(stream)@.skip(2) == old(stream)@.skip(2),
    {
        proof {
            lemma_pow256_values();
        }
        Self::write_uint(stream, value as u64, 2);
    }

    /// Writes a 24-bit unsigned integer; `value` must fit in three bytes.
    fn write_u24(stream: &mut Vec<u8>, value: u32)
        requires
            old(stream)@.len() >= 3,
            value < 0x100_0000,
        ensures
            final(stream)@.len() == old(stream)@.len(),
            final(stream)@.subrange(0, 3) == order_bytes(Self::is_little(), value as nat, 3),
            final(stream)@.skip(3) == old(stream)@.skip(3),
    {
        proof {
            lemma_pow256_values();
        }
        Self::write_uint(stream, value as u64, 3);
    }

    fn write_u32(stream: &mut Vec<u8>, value: u32)
        requires
            old(stream)@.len() >= 4,
        ensures
            final(stream)@.len() == old(stream)@.len(),
            final(stream)@.subrange(0, 4) == order_bytes(Self::is_little(), value as nat, 4),
            final(stream)@.skip(4) == old(stream)@.skip(4),
    {
        proof {
            lemma_pow256_values();
        }
        Self::write_uint(stream, value as u64, 4);
    }

    fn write_u64(stream: &mut Vec<u8>, value: u64)
        requires
            old(stream)@.len() >= 8,
        ensures
            final(stream)@.len() == old(stream)@.len(),
            final(stream)@.subrange(0, 8) == order_bytes(Self::is_little(), value as nat, 8),
            final(stream)@.skip(8) == old(stream)@.skip(8),
    {
        proof {
            lemma_pow256_values();
        }
        Self::write_uint(stream, value, 8);
    }

    fn write_u128(stream: &mut Vec<u8>, value: u128)
        requires
            old(stream)@.len() >= 16,
        ensures
            final(stream)@.len() == old(stream)@.len(),
            final(stream)@.subrange(0, 16) == order_bytes(Self::is_little(), value as nat, 16),
            final(stream)@.skip(16) == old(stream)@.skip(16),
    {
        proof {
            lemma_pow256_values();
        }
        Self::write_uint128(stream, value, 16);
    }

    /// Reads one byte and sign-extends it: the signed reading of the same
    /// bit pattern.
    fn read_i8(stream: &[u8]) -> (r: i8)
        requires
            stream@.len() >= 1,
        ensures
            r as int == sign_val(order_value(Self::is_little(), stream@.subrange(0, 1)), 1),
    {
        let u = Self::read_u8(stream);
        proof {
            lemma_pow256_values();
            lemma_pow256_half(1);
        }
        if u < 0x80 {
            u as i8
        } else {
            ((u - 0x80) as i8) + i8::MIN
        }
    }

    fn read_i16(stream: &[u8]) -> (r: i16)
        requires
            stream@.len() >= 2,
        ensures
            r as int == sign_val(order_value(Self::is_little(), stream@.subrange(0, 2)), 2),
    {
        let u = Self::read_uint(stream, 2);
        let s = extend_sign(u, 2);
        proof {
            lemma_pow256_values();
            lemma_pow256_half(2);
            lemma_small_mod(u as nat, pow256(2));
        }
        s as i16
    }

    /// Reads a 24-bit signed integer: three bytes, sign-extended to 32 bits.
    fn read_i24(stream: &[u8]) -> (r: i32)
        requires
            stream@.len() >= 3,
        ensures
            r as int == sign_val(order_value(Self::is_little(), stream@.subrange(0, 3)), 3),
    {
        let u = Self::read_uint(stream, 3);
        let s = extend_sign(u, 3);
        proof {
            lemma_pow256_values();
            lemma_pow256_half(3);
            lemma_small_mod(u as nat, pow256(3));
        }
        s as i32
    }

    fn read_i32(stream: &[u8]) -> (r: i32)
        requires
            stream@.len() >= 4,
        ensures
            r as int == sign_val(order_value(Self::is_little(), stream@.subrange(0, 4)), 4),
    {
        let u = Self::read_uint(stream, 4);
        let s = extend_sign(u, 4);
        proof {
            lemma_pow256_values();
            lemma_pow256_half(4);
            lemma_small_mod(u as nat, pow256(4));
        }
        s as i32
    }

    fn read_i64(stream: &[u8]) -> (r: i64)
        requires
            stream@.len() >= 8,
        ensures
            r as int == sign_val(order_value(Self::is_little(), stream@.subrange(0, 8)), 8),
    {
        let u = Self::read_uint(stream, 8);
        let s = extend_sign(u, 8);
        proof {
            lemma_pow256_values();
            lemma_small_mod(u as nat, pow256(8));
        }
        s
    }

    fn read_i128(stream: &[u8]) -> (r: i128)
        requires
            stream@.len() >= 16,
        ensures
            r as int == sign_val(order_value(Self::is_little(), stream@.subrange(0, 16)), 16),
    {
        let u = Self::read_uint128(stream, 16);
        let s = extend_sign128(u, 16);
        proof {
            lemma_pow256_values();
            lemma_small_mod(u as nat, pow256(16));
        }
        s
    }

    /// Reads a signed integer of `bytes` bytes, replicating the sign bit of
    /// the most significant input byte into the full width.
    fn read_int(stream: &[u8], bytes: usize) -> (r: i64)
        requires
            1 <= bytes <= 8,
            bytes <= stream@.len(),
        ensures
            r as int == sign_val(
                order_value(Self::is_little(), stream@.subrange(0, bytes as int)),
                bytes as nat,
            ),
    {
        let u = Self::read_uint(stream, bytes);
        let s = extend_sign(u, bytes);
        proof {
            lemma_small_mod(u as nat, pow256(bytes as nat));
        }
        s
    }

    /// Reads a signed integer of `bytes` bytes over the sixteen-byte domain.
    fn read_int128(stream: &[u8], bytes: usize) -> (r: i128)
        requires
            1 <= bytes <= 16,
            bytes <= stream@.len(),
        ensures
            r as int == sign_val(
                order_value(Self::is_little(), stream@.subrange(0, bytes as int)),
                bytes as nat,
            ),
    {
        let u = Self::read_uint128(stream, bytes);
        let s = extend_sign128(u, bytes);
        proof {
            lemma_small_mod(u as nat, pow256(bytes as nat));
        }
        s
    }

    fn write_i16(stream: &mut Vec<u8>, value: i16)
        requires
            old(stream)@.len() >= 2,
        ensures
            final(stream)@.len() == old(stream)@.len(),
            final(stream)@.subrange(0, 2) == order_bytes(
                Self::is_little(),
                unsign(value as int, 2),
                2,
            ),
            final(stream)@.skip(2) == old(stream)@.skip(2),
    {
        let u = unextend_sign(value as i64, 2);
        Self::write_uint(stream, u, 2);
    }

    /// Writes the low three bytes of `value`'s two's-complement pattern:
    /// a 24-bit signed write.
    fn write_i24(stream: &mut Vec<u8>, value: i32)
        requires
            old(stream)@.len() >= 3,
        ensures
            final(stream)@.len() == old(stream)@.len(),
            final(stream)@.subrange(0, 3) == order_bytes(
                Self::is_little(),
                unsign(value as int, 3),
                3,
            ),
            final(stream)@.skip(3) == old(stream)@.skip(3),
    {
        let u = unextend_sign(value as i64, 3);
        Self::write_uint(stream, u, 3);
    }

    fn write_i32(stream: &mut Vec<u8>, value: i32)
        requires
            old(stream)@.len() >= 4,
        ensures
            final(stream)@.len() == old(stream)@.len(),
            final(stream)@.subrange(0, 4) == order_bytes(
                Self::is_little(),
                unsign(value as int, 4),
                4,
            ),
            final(stream)@.skip(4) == old(stream)@.skip(4),
    {
        let u = unextend_sign(value as i64, 4);
        Self::write_uint(stream, u, 4);
    }

    fn write_i64(stream: &mut Vec<u8>, value: i64)
        requires
            old(stream)@.len() >= 8,
        ensures
            final(stream)@.len() == old(stream)@.len(),
            final(stream)@.subrange(0, 8) == order_bytes(
                Self::is_little(),
                unsign(value as int, 8),
                8,
            ),
            final(stream)@.skip(8) == old(stream)@.skip(8),
    {
        let u = unextend_sign(value, 8);
        Self::write_uint(stream, u, 8);
    }

    fn write_i128(stream: &mut Vec<u8>, value: i128)
        requires
            old(stream)@.len() >= 16,
        ensures
            final(stream)@.len() == old(stream)@.len(),
            final(stream)@.subrange(0, 16) == order_bytes(
                Self::is_little(),
                unsign(value as int, 16),
                16,
            ),
            final(stream)@.skip(16) == old(stream)@.skip(16),
    {
        let u = unextend_sign128(value, 16);
        Self::write_uint128(stream, u, 16);
    }

    /// Writes a signed integer of `bytes` bytes: the width-limited unsigned
    /// pattern of `value`, its sign bits cancelled beyond the window.
    fn write_int(stream: &mut Vec<u8>, value: i64, bytes: usize)
        requires
            1 <= bytes <= 8,
            bytes <= old(stream)@.len(),
        ensures
            final(stream)@.len() == old(stream)@.len(),
            final(stream)@.subrange(0, bytes as int) == order_bytes(
                Self::is_little(),
                unsign(value as int, bytes as nat),
                bytes as nat,
            ),
            final(stream)@.skip(bytes as int) == old(stream)@.skip(bytes as int),
    {
        let u = unextend_sign(value, bytes);
        Self::write_uint(stream, u, bytes);
    }

    /// Writes a signed integer of `bytes` bytes over the sixteen-byte domain.
    fn write_int128(stream: &mut Vec<u8>, value: i128, bytes: usize)
        requires
            1 <= bytes <= 16,
            bytes <= old(stream)@.len(),
        ensures
            final(stream)@.len() == old(stream)@.len(),
            final(stream)@.subrange(0, bytes as int) == order_bytes(
                Self::is_little(),
                unsign(value as int, bytes as nat),
                bytes as nat,
            ),
            final(stream)@.skip(bytes as int) == old(stream)@.skip(bytes as int),
    {
        let u = unextend_sign128(value, bytes);
        Self::write_uint128(stream, u, bytes);
    }

    /// Converts `values` in place between the byte order of the executing
    /// machine and this order: a no-op when the two agree, else every
    /// element is byte-swapped. Which of the two happened depends on the
    /// machine alone; [`swap_slice_u16`] is the exact swap.
    fn convert_slice_u16(values: &mut Vec<u16>)
        ensures
            final(values)@ == old(values)@ || final(values)@ == old(values)@.map_values(
                |x: u16| swapped(x as nat, 2) as u16,
            ),
    {
        if native_little() != Self::little() {
            swap_slice_u16(values);
        }
    }

    /// Converts `values` in place between the native order and this order;
    /// see [`Self::convert_slice_u16`].
    fn convert_slice_u32(values: &mut Vec<u32>)
        ensures
            final(values)@ == old(values)@ || final(values)@ == old(values)@.map_values(
                |x: u32| swapped(x as nat, 4) as u32,
            ),
    {
        if native_little() != Self::little() {
            swap_slice_u32(values);
        }
    }

    /// Converts `values` in place between the native order and this order;
    /// see [`Self::convert_slice_u16`].
    fn convert_slice_u64(values: &mut Vec<u64>)
        ensures
            final(values)@ == old(values)@ || final(values)@ == old(values)@.map_values(
                |x: u64| swapped(x as nat, 8) as u64,
            ),
    {
        if native_little() != Self::little() {
            swap_slice_u64(values);
        }
    }

    /// Converts `values` in place between the native order and this order;
    /// see [`Self::convert_slice_u16`].
    fn convert_slice_u128(values: &mut Vec<u128>)
        ensures
            final(values)@ == old(values)@ || final(values)@ == old(values)@.map_values(
                |x: u128| swapped(x as nat, 16) as u128,
            ),
    {
        if native_little() != Self::little() {
            swap_slice_u128(values);
        }
    }

    /// Converts `values` in place between the native order and this order;
    /// see [`Self::convert_slice_u16`].
    fn convert_slice_i16(values: &mut Vec<i16>)
        ensures
            final(values)@ == old(values)@ || final(values)@ == old(values)@.map_values(
                |x: i16| sign_val(swapped(unsign(x as int, 2), 2), 2) as i16,
            ),
    {
        if native_little() != Self::little() {
            swap_slice_i16(values);
        }
    }

    /// Converts `values` in place between the native order and this order;
    /// see [`Self::convert_slice_u16`].
    fn convert_slice_i32(values: &mut Vec<i32>)
        ensures
            final(values)@ == old(values)@ || final(values)@ == old(values)@.map_values(
                |x: i32| sign_val(swapped(unsign(x as int, 4), 4), 4) as i32,
            ),
    {
        if native_little() != Self::little() {
            swap_slice_i32(values);
        }
    }

    /// Converts `values` in place between the native order and this order;
    /// see [`Self::convert_slice_u16`].
    fn convert_slice_i64(values: &mut Vec<i64>)
        ensures
            final(values)@ == old(values)@ || final(values)@ == old(values)@.map_values(
                |x: i64| sign_val(swapped(unsign(x as int, 8), 8), 8) as i64,
            ),
    {
        if native_little() != Self::little() {
            swap_slice_i64(values);
        }
    }

    /// Converts `values` in place between the native order and this order;
    /// see [`Self::convert_slice_u16`].
    fn convert_slice_i128(values: &mut Vec<i128>)
        ensures
            final(values)@ == old(values)@ || final(values)@ == old(values)@.map_values(
                |x: i128| sign_val(swapped(unsign(x as int, 16), 16), 16) as i128,
            ),
    {
        if native_little() != Self::little() {
            swap_slice_i128(values);
        }
    }

    /// Reads `values.len()` two-byte integers in order from the window
    /// `stream`, which holds exactly the bytes of the array.
    fn read_slice_u16(stream: &[u8], values: &mut Vec<u16>)
        requires
            stream@.len() == 2 * old(values)@.len(),
        ensures
            final(values)@.len() == old(values)@.len(),
            forall|j: int|
                0 <= j < old(values)@.len() ==> final(values)@[j] as nat == order_value(
                    Self::is_little(),
                    stream@.subrange(2 * j, 2 * j + 2),
                ),
    {
        let total = stream.len();
        let n = values.len();
        let mut i: usize = 0;
        while i < n
            invariant
                values@.len() == n,
                stream@.len() == 2 * (n as int),
                stream@.len() == total,
                i <= n,
                forall|j: int|
                    0 <= j < i ==> values@[j] as nat == order_value(
                        Self::is_little(),
                        stream@.subrange(2 * j, 2 * j + 2),
                    ),
            decreases n - i,
        {
            let chunk = slice_subrange(stream, 2 * i, 2 * i + 2);
            let v = Self::read_u16(chunk);
            proof {
                assert(chunk@.subrange(0, 2) =~= stream@.subrange(
                    2 * (i as int),
                    2 * (i as int) + 2,
                ));
            }
            values.set(i, v);
            i = i + 1;
        }
    }

    /// Writes every element of `values` in order into the window `stream`,
    /// which holds exactly the bytes of the array.
    fn write_slice_u16(stream: &mut Vec<u8>, values: &[u16])
        requires
            old(stream)@.len() == 2 * values@.len(),
        ensures
            final(stream)@.len() == old(stream)@.len(),
            forall|j: int|
                0 <= j < values@.len() ==> final(stream)@.subrange(2 * j, 2 * j + 2)
                    == order_bytes(Self::is_little(), values@[j] as nat, 2),
    {
        let total = stream.len();
        let n = values.len();
        let mut i: usize = 0;
        while i < n
            invariant
                n == values@.len(),
                stream@.len() == 2 * (n as int),
                stream@.len() == total,
                i <= n,
                forall|j: int|
                    0 <= j < i ==> stream@.subrange(2 * j, 2 * j + 2) == order_bytes(
                        Self::is_little(),
                        values@[j] as nat,
                        2,
                    ),
            decreases n - i,
        {
            let mut temp: Vec<u8> = Vec::new();
            temp.push(0);
            temp.push(0);
            Self::write_u16(&mut temp, values[i]);
            let ghost before = stream@;
            copy_into(stream, 2 * i, &temp);
            proof {
                assert(temp@.subrange(0, 2) =~= temp@);
                assert forall|j: int| 0 <= j < i implies stream@.subrange(2 * j, 2 * j + 2)
                    == order_bytes(Self::is_little(), values@[j] as nat, 2) by {
                    assert(stream@.subrange(2 * j, 2 * j + 2) =~= before.subrange(
                        2 * j,
                        2 * j + 2,
                    ));
                }
            }
            i = i + 1;
        }
    }

    /// Reads `values.len()` integers of 4 bytes each in order from the
    /// window `stream`, which holds exactly the bytes of the array.
    fn read_slice_u32(stream: &[u8], values: &mut Vec<u32>)
        requires
            stream@.len() == 4 * old(values)@.len(),
        ensures
            final(values)@.len() == old(values)@.len(),
            forall|j: int|
                0 <= j < old(values)@.len() ==> final(values)@[j] as nat == order_value(
                    Self::is_little(),
                    stream@.subrange(4 * j, 4 * j + 4),
                ),
    {
        let total = stream.len();
        let n = values.len();
        let mut i: usize = 0;
        while i < n
            invariant
                values@.len() == n,
                stream@.len() == 4 * (n as int),
                stream@.len() == total,
                i <= n,
                forall|j: int|
                    0 <= j < i ==> values@[j] as nat == order_value(
                        Self::is_little(),
                        stream@.subrange(4 * j, 4 * j + 4),
                    ),
            decreases n - i,
        {
            let chunk = slice_subrange(stream, 4 * i, 4 * i + 4);
            let v = Self::read_u32(chunk);
            proof {
                assert(chunk@.subrange(0, 4) =~= stream@.subrange(
                    4 * (i as int),
                    4 * (i as int) + 4,
                ));
            }
            values.set(i, v);
            i = i + 1;
        }
    }

    /// Reads `values.len()` integers of 8 bytes each in order from the
    /// window `stream`, which holds exactly the bytes of the array.
    fn read_slice_u64(stream: &[u8], values: &mut Vec<u64>)
        requires
            stream@.len() == 8 * old(values)@.len(),
        ensures
            final(values)@.len() == old(values)@.len(),
            forall|j: int|
                0 <= j < old(values)@.len() ==> final(values)@[j] as nat == order_value(
                    Self::is_little(),
                    stream@.subrange(8 * j, 8 * j + 8),
                ),
    {
        let total = stream.len();
        let n = values.len();
        let mut i: usize = 0;
        while i < n
            invariant
                values@.len() == n,
                stream@.len() == 8 * (n as int),
                stream@.len() == total,
                i <= n,
                forall|j: int|
                    0 <= j < i ==> values@[j] as nat == order_value(
                        Self::is_little(),
                        stream@.subrange(8 * j, 8 * j + 8),
                    ),
            decreases n - i,
        {
            let chunk = slice_subrange(stream, 8 * i, 8 * i + 8);
            let v = Self::read_u64(chunk);
            proof {
                assert(chunk@.subrange(0, 8) =~= stream@.subrange(
                    8 * (i as int),
                    8 * (i as int) + 8,
                ));
            }
            values.set(i, v);
            i = i + 1;
        }
    }

    /// Reads `values.len()` integers of 16 bytes each in order from the
    /// window `stream`, which holds exactly the bytes of the array.
    fn read_slice_u128(stream: &[u8], values: &mut Vec<u128>)
        requires
            stream@.len() == 16 * old(values)@.len(),
        ensures
            final(values)@.len() == old(values)@.len(),
            forall|j: int|
                0 <= j < old(values)@.len() ==> final(values)@[j] as nat == order_value(
                    Self::is_little(),
                    stream@.subrange(16 * j, 16 * j + 16),
                ),
    {
        let total = stream.len();
        let n = values.len();
        let mut i: usize = 0;
        while i < n
            invariant
                values@.len() == n,
                stream@.len() == 16 * (n as int),
                stream@.len() == total,
                i <= n,
                forall|j: int|
                    0 <= j < i ==> values@[j] as nat == order_value(
                        Self::is_little(),
                        stream@.subrange(16 * j, 16 * j + 16),
                    ),
            decreases n - i,
        {
            let chunk = slice_subrange(stream, 16 * i, 16 * i + 16);
            let v = Self::read_u128(chunk);
            proof {
                assert(chunk@.subrange(0, 16) =~= stream@.subrange(
                    16 * (i as int),
                    16 * (i as int) + 16,
                ));
            }
            values.set(i, v);
            i = i + 1;
        }
    }

    /// Reads `values.len()` signed integers of 2 bytes each in order from
    /// the window `stream`, which holds exactly the bytes of the array.
    fn read_slice_i16(stream: &[u8], values: &mut Vec<i16>)
        requires
            stream@.len() == 2 * old(values)@.len(),
        ensures
            final(values)@.len() == old(values)@.len(),
            forall|j: int|
                0 <= j < old(values)@.len() ==> final(values)@[j] as int == sign_val(
                    order_value(Self::is_little(), stream@.subrange(2 * j, 2 * j + 2)),
                    2,
                ),
    {
        let total = stream.len();
        let n = values.len();
        let mut i: usize = 0;
        while i < n
            invariant
                values@.len() == n,
                stream@.len() == 2 * (n as int),
                stream@.len() == total,
                i <= n,
                forall|j: int|
                    0 <= j < i ==> values@[j] as int == sign_val(
                        order_value(Self::is_little(), stream@.subrange(2 * j, 2 * j + 2)),
                        2,
                    ),
            decreases n - i,
        {
            let chunk = slice_subrange(stream, 2 * i, 2 * i + 2);
            let v = Self::read_i16(chunk);
            proof {
                assert(chunk@.subrange(0, 2) =~= stream@.subrange(
                    2 * (i as int),
                    2 * (i as int) + 2,
                ));
            }
            values.set(i, v);
            i = i + 1;
        }
    }

    /// Reads `values.len()` signed integers of 4 bytes each in order from
    /// the window `stream`, which holds exactly the bytes of the array.
    fn read_slice_i32(stream: &[u8], values: &mut Vec<i32>)
        requires
            stream@.len() == 4 * old(values)@.len(),
        ensures
            final(values)@.len() == old(values)@.len(),
            forall|j: int|
                0 <= j < old(values)@.len() ==> final(values)@[j] as int == sign_val(
                    order_value(Self::is_little(), stream@.subrange(4 * j, 4 * j + 4)),
                    4,
                ),
    {
        let total = stream.len();
        let n = values.len();
        let mut i: usize = 0;
        while i < n
            invariant
                values@.len() == n,
                stream@.len() == 4 * (n as int),
                stream@.len() == total,
                i <= n,
                forall|j: int|
                    0 <= j < i ==> values@[j] as int == sign_val(
                        order_value(Self::is_little(), stream@.subrange(4 * j, 4 * j + 4)),
                        4,
                    ),
            decreases n - i,
        {
            let chunk = slice_subrange(stream, 4 * i, 4 * i + 4);
            let v = Self::read_i32(chunk);
            proof {
                assert(chunk@.subrange(0, 4) =~= stream@.subrange(
                    4 * (i as int),
                    4 * (i as int) + 4,
                ));
            }
            values.set(i, v);
            i = i + 1;
        }
    }

    /// Reads `values.len()` signed integers of 8 bytes each in order from
    /// the window `stream`, which holds exactly the bytes of the array.
    fn read_slice_i64(stream: &[u8], values: &mut Vec<i64>)
        requires
            stream@.len() == 8 * old(values)@.len(),
        ensures
            final(values)@.len() == old(values)@.len(),
            forall|j: int|
                0 <= j < old(values)@.len() ==> final(values)@[j] as int == sign_val(
                    order_value(Self::is_little(), stream@.subrange(8 * j, 8 * j + 8)),
                    8,
                ),
    {
        let total = stream.len();
        let n = values.len();
        let mut i: usize = 0;
        while i < n
            invariant
                values@.len() == n,
                stream@.len() == 8 * (n as int),
                stream@.len() == total,
                i <= n,
                forall|j: int|
                    0 <= j < i ==> values@[j] as int == sign_val(
                        order_value(Self::is_little(), stream@.subrange(8 * j, 8 * j + 8)),
                        8,
                    ),
            decreases n - i,
        {
            let chunk = slice_subrange(stream, 8 * i, 8 * i + 8);
            let v = Self::read_i64(chunk);
            proof {
                assert(chunk@.subrange(0, 8) =~= stream@.subrange(
                    8 * (i as int),
                    8 * (i as int) + 8,
                ));
            }
            values.set(i, v);
            i = i + 1;
        }
    }

    /// Reads `values.len()` signed integers of 16 bytes each in order from
    /// the window `stream`, which holds exactly the bytes of the array.
    fn read_slice_i128(stream: &[u8], values: &mut Vec<i128>)
        requires
            stream@.len() == 16 * old(values)@.len(),
        ensures
            final(values)@.len() == old(values)@.len(),
            forall|j: int|
                0 <= j < old(values)@.len() ==> final(values)@[j] as int == sign_val(
                    order_value(Self::is_little(), stream@.subrange(16 * j, 16 * j + 16)),
                    16,
                ),
    {
        let total = stream.len();
        let n = values.len();
        let mut i: usize = 0;
        while i < n
            invariant
                values@.len() == n,
                stream@.len() == 16 * (n as int),
                stream@.len() == total,
                i <= n,
                forall|j: int|
                    0 <= j < i ==> values@[j] as int == sign_val(
                        order_value(Self::is_little(), stream@.subrange(16 * j, 16 * j + 16)),
                        16,
                    ),
            decreases n - i,
        {
            let chunk = slice_subrange(stream, 16 * i, 16 * i + 16);
            let v = Self::read_i128(chunk);
            proof {
                assert(chunk@.subrange(0, 16) =~= stream@.subrange(
                    16 * (i as int),
                    16 * (i as int) + 16,
                ));
            }
            values.set(i, v);
            i = i + 1;
        }
    }

    /// Writes every element of `values` in order into the window `stream`,
    /// which holds exactly the bytes of the array.
    fn write_slice_u32(stream: &mut Vec<u8>, values: &[u32])
        requires
            old(stream)@.len() == 4 * values@.len(),
        ensures
            final(stream)@.len() == old(stream)@.len(),
            forall|j: int|
                0 <= j < values@.len() ==> final(stream)@.subrange(4 * j, 4 * j + 4)
                    == order_bytes(Self::is_little(), values@[j] as nat, 4),
    {
        let total = stream.len();
        let n = values.len();
        let mut i: usize = 0;
        while i < n
            invariant
                n == values@.len(),
                stream@.len() == 4 * (n as int),
                stream@.len() == total,
                i <= n,
                forall|j: int|
                    0 <= j < i ==> stream@.subrange(4 * j, 4 * j + 4) == order_bytes(
                        Self::is_little(),
                        values@[j] as nat,
                        4,
                    ),
            decreases n - i,
        {
            let mut temp: Vec<u8> = Vec::new();
            temp.push(0);
            temp.push(0);
            temp.push(0);
            temp.push(0);
            Self::write_u32(&mut temp, values[i]);
            let ghost before = stream@;
            copy_into(stream, 4 * i, &temp);
            proof {
                assert(temp@.subrange(0, 4) =~= temp@);
                assert forall|j: int| 0 <= j < i implies stream@.subrange(4 * j, 4 * j + 4)
                    == order_bytes(Self::is_little(), values@[j] as nat, 4) by {
                    assert(stream@.subrange(4 * j, 4 * j + 4) =~= before.subrange(
                        4 * j,
                        4 * j + 4,
                    ));
                }
            }
            i = i + 1;
        }
    }

    /// Writes every element of `values` in order into the window `stream`,
    /// which holds exactly the bytes of the array.
    fn write_slice_u64(stream: &mut Vec<u8>, values: &[u64])
        requires
            old(stream)@.len() == 8 * values@.len(),
        ensures
            final(stream)@.len() == old(stream)@.len(),
            forall|j: int|
                0 <= j < values@.len() ==> final(stream)@.subrange(8 * j, 8 * j + 8)
                    == order_bytes(Self::is_little(), values@[j] as nat, 8),
    {
        let total = stream.len();
        let n = values.len();
        let mut i: usize = 0;
        while i < n
            invariant
                n == values@.len(),
                stream@.len() == 8 * (n as int),
                stream@.len() == total,
                i <= n,
                forall|j: int|
                    0 <= j < i ==> stream@.subrange(8 * j, 8 * j + 8) == order_bytes(
                        Self::is_little(),
                        values@[j] as nat,
                        8,
                    ),
            decreases n - i,
        {
            let mut temp: Vec<u8> = Vec::new();
            temp.push(0);
            temp.push(0);
            temp.push(0);
            temp.push(0);
            temp.push(0);
            temp.push(0);
            temp.push(0);
            temp.push(0);
            Self::write_u64(&mut temp, values[i]);
            let ghost before = stream@;
            copy_into(stream, 8 * i, &temp);
            proof {
                assert(temp@.subrange(0, 8) =~= temp@);
                assert forall|j: int| 0 <= j < i implies stream@.subrange(8 * j, 8 * j + 8)
                    == order_bytes(Self::is_little(), values@[j] as nat, 8) by {
                    assert(stream@.subrange(8 * j, 8 * j + 8) =~= before.subrange(
                        8 * j,
                        8 * j + 8,
                    ));
                }
            }
            i = i + 1;
        }
    }

    /// Writes every element of `values` in order into the window `stream`,
    /// which holds exactly the bytes of the array.
    fn write_slice_u128(stream: &mut Vec<u8>, values: &[u128])
        requires
            old(stream)@.len() == 16 * values@.len(),
        ensures
            final(stream)@.len() == old(stream)@.len(),
            forall|j: int|
                0 <= j < values@.len() ==> final(stream)@.subrange(16 * j, 16 * j + 16)
                    == order_bytes(Self::is_little(), values@[j] as nat, 16),
    {
        let total = stream.len();
        let n = values.len();
        let mut i: usize = 0;
        while i < n
            invariant
                n == values@.len(),
                stream@.len() == 16 * (n as int),
                stream@.len() == total,
                i <= n,
                forall|j: int|
                    0 <= j < i ==> stream@.subrange(16 * j, 16 * j + 16) == order_bytes(
                        Self::is_little(),
                        values@[j] as nat,
                        16,
                    ),
            decreases n - i,
        {
            let mut temp: Vec<u8> = Vec::new();
            temp.push(0);
            temp.push(0);
            temp.push(0);
            temp.push(0);
            temp.push(0);
            temp.push(0);
            temp.push(0);
            temp.push(0);
            temp.push(0);
            temp.push(0);
            temp.push(0);
            temp.push(0);
            temp.push(0);
            temp.push(0);
            temp.push(0);
            temp.push(0);
            Self::write_u128(&mut temp, values[i]);
            let ghost before = stream@;
            copy_into(stream, 16 * i, &temp);
            proof {
                assert(temp@.subrange(0, 16) =~= temp@);
                assert forall|j: int| 0 <= j < i implies stream@.subrange(16 * j, 16 * j + 16)
                    == order_bytes(Self::is_little(), values@[j] as nat, 16) by {
                    assert(stream@.subrange(16 * j, 16 * j + 16) =~= before.subrange(
                        16 * j,
                        16 * j + 16,
                    ));
                }
            }
            i = i + 1;
        }
    }

    /// Writes the two's-complement pattern of every element of `values` in
    /// order into the window `stream`, which holds exactly the bytes of the
    /// array.
    fn write_slice_i16(stream: &mut Vec<u8>, values: &[i16])
        requires
            old(stream)@.len() == 2 * values@.len(),
        ensures
            final(stream)@.len() == old(stream)@.len(),
            forall|j: int|
                0 <= j < values@.len() ==> final(stream)@.subrange(2 * j, 2 * j + 2)
                    == order_bytes(Self::is_little(), unsign(values@[j] as int, 2), 2),
    {
        let total = stream.len();
        let n = values.len();
        let mut i: usize = 0;
        while i < n
            invariant
                n == values@.len(),
                stream@.len() == 2 * (n as int),
                stream@.len() == total,
                i <= n,
                forall|j: int|
                    0 <= j < i ==> stream@.subrange(2 * j, 2 * j + 2) == order_bytes(
                        Self::is_little(),
                        unsign(values@[j] as int, 2),
                        2,
                    ),
            decreases n - i,
        {
            let mut temp: Vec<u8> = Vec::new();
            temp.push(0);
            temp.push(0);
            Self::write_i16(&mut temp, values[i]);
            let ghost before = stream@;
            copy_into(stream, 2 * i, &temp);
            proof {
                assert(temp@.subrange(0, 2) =~= temp@);
                assert forall|j: int| 0 <= j < i implies stream@.subrange(2 * j, 2 * j + 2)
                    == order_bytes(Self::is_little(), unsign(values@[j] as int, 2), 2) by {
                    assert(stream@.subrange(2 * j, 2 * j + 2) =~= before.subrange(
                        2 * j,
                        2 * j + 2,
                    ));
                }
            }
            i = i + 1;
        }
    }

    /// Writes the two's-complement pattern of every element of `values` in
    /// order into the window `stream`, which holds exactly the bytes of the
    /// array.
    fn write_slice_i32(stream: &mut Vec<u8>, values: &[i32])
        requires
            old(stream)@.len() == 4 * values@.len(),
        ensures
            final(stream)@.len() == old(stream)@.len(),
            forall|j: int|
                0 <= j < values@.len() ==> final(stream)@.subrange(4 * j, 4 * j + 4)
                    == order_bytes(Self::is_little(), unsign(values@[j] as int, 4), 4),
    {
        let total = stream.len();
        let n = values.len();
        let mut i: usize = 0;
        while i < n
            invariant
                n == values@.len(),
                stream@.len() == 4 * (n as int),
                stream@.len() == total,
                i <= n,
                forall|j: int|
                    0 <= j < i ==> stream@.subrange(4 * j, 4 * j + 4) == order_bytes(
                        Self::is_little(),
                        unsign(values@[j] as int, 4),
                        4,
                    ),
            decreases n - i,
        {
            let mut temp: Vec<u8> = Vec::new();
            temp.push(0);
            temp.push(0);
            temp.push(0);
            temp.push(0);
            Self::write_i32(&mut temp, values[i]);
            let ghost before = stream@;
            copy_into(stream, 4 * i, &temp);
            proof {
                assert(temp@.subrange(0, 4) =~= temp@);
                assert forall|j: int| 0 <= j < i implies stream@.subrange(4 * j, 4 * j + 4)
                    == order_bytes(Self::is_little(), unsign(values@[j] as int, 4), 4) by {
                    assert(stream@.subrange(4 * j, 4 * j + 4) =~= before.subrange(
                        4 * j,
                        4 * j + 4,
                    ));
                }
            }
            i = i + 1;
        }
    }

    /// Writes the two's-complement pattern of every element of `values` in
    /// order into the window `stream`, which holds exactly the bytes of the
    /// array.
    fn write_slice_i64(stream: &mut Vec<u8>, values: &[i64])
        requires
            old(stream)@.len() == 8 * values@.len(),
        ensures
            final(stream)@.len() == old(stream)@.len(),
            forall|j: int|
                0 <= j < values@.len() ==> final(stream)@.subrange(8 * j, 8 * j + 8)
                    == order_bytes(Self::is_little(), unsign(values@[j] as int, 8), 8),
    {
        let total = stream.len();
        let n = values.len();
        let mut i: usize = 0;
        while i < n
            invariant
                n == values@.len(),
                stream@.len() == 8 * (n as int),
                stream@.len() == total,
                i <= n,
                forall|j: int|
                    0 <= j < i ==> stream@.subrange(8 * j, 8 * j + 8) == order_bytes(
                        Self::is_little(),
                        unsign(values@[j] as int, 8),
                        8,
                    ),
            decreases n - i,
        {
            let mut temp: Vec<u8> = Vec::new();
            temp.push(0);
            temp.push(0);
            temp.push(0);
            temp.push(0);
            temp.push(0);
            temp.push(0);
            temp.push(0);
            temp.push(0);
            Self::write_i64(&mut temp, values[i]);
            let ghost before = stream@;
            copy_into(stream, 8 * i, &temp);
            proof {
                assert(temp@.subrange(0, 8) =~= temp@);
                assert forall|j: int| 0 <= j < i implies stream@.subrange(8 * j, 8 * j + 8)
                    == order_bytes(Self::is_little(), unsign(values@[j] as int, 8), 8) by {
                    assert(stream@.subrange(8 * j, 8 * j + 8) =~= before.subrange(
                        8 * j,
                        8 * j + 8,
                    ));
                }
            }
            i = i + 1;
        }
    }

    /// Writes the two's-complement pattern of every element of `values` in
    /// order into the window `stream`, which holds exactly the bytes of the
    /// array.
    fn write_slice_i128(stream: &mut Vec<u8>, values: &[i128])
        requires
            old(stream)@.len() == 16 * values@.len(),
        ensures
            final(stream)@.len() == old(stream)@.len(),
            forall|j: int|
                0 <= j < values@.len() ==> final(stream)@.subrange(16 * j, 16 * j + 16)
                    == order_bytes(Self::is_little(), unsign(values@[j] as int, 16), 16),
    {
        let total = stream.len();
        let n = values.len();
        let mut i: usize = 0;
        while i < n
            invariant
                n == values@.len(),
                stream@.len() == 16 * (n as int),
                stream@.len() == total,
                i <= n,
                forall|j: int|
                    0 <= j < i ==> stream@.subrange(16 * j, 16 * j + 16) == order_bytes(
                        Self::is_little(),
                        unsign(values@[j] as int, 16),
                        16,
                    ),
            decreases n - i,
        {
            let mut temp: Vec<u8> = Vec::new();
            temp.push(0);
            temp.push(0);
            temp.push(0);
            temp.push(0);
            temp.push(0);
            temp.push(0);
            temp.push(0);
            temp.push(0);
            temp.push(0);
            temp.push(0);
            temp.push(0);
            temp.push(0);
            temp.push(0);
            temp.push(0);
            temp.push(0);
            temp.push(0);
            Self::write_i128(&mut temp, values[i]);
            let ghost before = stream@;
            copy_into(stream, 16 * i, &temp);
            proof {
                assert(temp@.subrange(0, 16) =~= temp@);
                assert forall|j: int| 0 <= j < i implies stream@.subrange(16 * j, 16 * j + 16)
                    == order_bytes(Self::is_little(), unsign(values@[j] as int, 16), 16) by {
                    assert(stream@.subrange(16 * j, 16 * j + 16) =~= before.subrange(
                        16 * j,
                        16 * j + 16,
                    ));
                }
            }
            i = i + 1;
        }
    }
}

/// Relies on u16::to_le of std: it returns its argument unchanged exactly on
/// a little-endian target, so the comparison reports the byte order of the
/// executing machine; nothing else is assumed of it.
#[verifier::external_body]
fn native_little() -> bool {
    1u16.to_le() == 1
}

/// Byte-swaps every element of `values` in place.
pub fn swap_slice_u16(values: &mut Vec<u16>)
    ensures
        final(values)@ == old(values)@.map_values(|x: u16| swapped(x as nat, 2) as u16),
{
    let ghost orig = values@;
    let mut i: usize = 0;
    while i < values.len()
        invariant
            values@.len() == orig.len(),
            i <= orig.len(),
            forall|j: int| 0 <= j < i ==> values@[j] as nat == swapped(orig[j] as nat, 2),
            forall|j: int| i <= j < orig.len() ==> values@[j] == orig[j],
        decreases orig.len() - i,
    {
        proof {
            lemma_pow256_values();
        }
        let v = values[i];
        let w = swap_bytes128(v as u128, 2) as u16;
        values.set(i, w);
        i = i + 1;
    }
    proof {
        assert(values@ =~= orig.map_values(|x: u16| swapped(x as nat, 2) as u16));
    }
}

/// Byte-swaps every element of `values` in place.
pub fn swap_slice_u32(values: &mut Vec<u32>)
    ensures
        final(values)@ == old(values)@.map_values(|x: u32| swapped(x as nat, 4) as u32),
{
    let ghost orig = values@;
    let mut i: usize = 0;
    while i < values.len()
        invariant
            values@.len() == orig.len(),
            i <= orig.len(),
            forall|j: int| 0 <= j < i ==> values@[j] as nat == swapped(orig[j] as nat, 4),
            forall|j: int| i <= j < orig.len() ==> values@[j] == orig[j],
        decreases orig.len() - i,
    {
        proof {
            lemma_pow256_values();
        }
        let v = values[i];
        let w = swap_bytes128(v as u128, 4) as u32;
        values.set(i, w);
        i = i + 1;
    }
    proof {
        assert(values@ =~= orig.map_values(|x: u32| swapped(x as nat, 4) as u32));
    }
}

/// Byte-swaps every element of `values` in place.
pub fn swap_slice_u64(values: &mut Vec<u64>)
    ensures
        final(values)@ == old(values)@.map_values(|x: u64| swapped(x as nat, 8) as u64),
{
    let ghost orig = values@;
    let mut i: usize = 0;
    while i < values.len()
        invariant
            values@.len() == orig.len(),
            i <= orig.len(),
            forall|j: int| 0 <= j < i ==> values@[j] as nat == swapped(orig[j] as nat, 8),
            forall|j: int| i <= j < orig.len() ==> values@[j] == orig[j],
        decreases orig.len() - i,
    {
        proof {
            lemma_pow256_values();
        }
        let v = values[i];
        let w = swap_bytes128(v as u128, 8) as u64;
        values.set(i, w);
        i = i + 1;
    }
    proof {
        assert(values@ =~= orig.map_values(|x: u64| swapped(x as nat, 8) as u64));
    }
}

/// Byte-swaps every element of `values` in place.
pub fn swap_slice_u128(values: &mut Vec<u128>)
    ensures
        final(values)@ == old(values)@.map_values(|x: u128| swapped(x as nat, 16) as u128),
{
    let ghost orig = values@;
    let mut i: usize = 0;
    while i < values.len()
        invariant
            values@.len() == orig.len(),
            i <= orig.len(),
            forall|j: int| 0 <= j < i ==> values@[j] as nat == swapped(orig[j] as nat, 16),
            forall|j: int| i <= j < orig.len() ==> values@[j] == orig[j],
        decreases orig.len() - i,
    {
        proof {
            lemma_pow256_values();
        }
        let v = values[i];
        let w = swap_bytes128(v, 16);
        values.set(i, w);
        i = i + 1;
    }
    proof {
        assert(values@ =~= orig.map_values(|x: u128| swapped(x as nat, 16) as u128));
    }
}

/// Byte-swaps the two's-complement pattern of every element in place.
pub fn swap_slice_i16(values: &mut Vec<i16>)
    ensures
        final(values)@ == old(values)@.map_values(
            |x: i16| sign_val(swapped(unsign(x as int, 2), 2), 2) as i16,
        ),
{
    let ghost orig = values@;
    let mut i: usize = 0;
    while i < values.len()
        invariant
            values@.len() == orig.len(),
            i <= orig.len(),
            forall|j: int|
                0 <= j < i ==> values@[j] as int == sign_val(
                    swapped(unsign(orig[j] as int, 2), 2),
                    2,
                ),
            forall|j: int| i <= j < orig.len() ==> values@[j] == orig[j],
        decreases orig.len() - i,
    {
        proof {
            lemma_pow256_values();
            lemma_pow256_half(2);
        }
        let u = unextend_sign(values[i] as i64, 2);
        let s = swap_bytes128(u as u128, 2);
        proof {
            lemma_small_mod(s as nat, pow256(2));
        }
        let w = extend_sign(s as u64, 2);
        values.set(i, w as i16);
        i = i + 1;
    }
    proof {
        assert(values@ =~= orig.map_values(
            |x: i16| sign_val(swapped(unsign(x as int, 2), 2), 2) as i16,
        ));
    }
}

/// Byte-swaps the two's-complement pattern of every element in place.
pub fn swap_slice_i32(values: &mut Vec<i32>)
    ensures
        final(values)@ == old(values)@.map_values(
            |x: i32| sign_val(swapped(unsign(x as int, 4), 4), 4) as i32,
        ),
{
    let ghost orig = values@;
    let mut i: usize = 0;
    while i < values.len()
        invariant
            values@.len() == orig.len(),
            i <= orig.len(),
            forall|j: int|
                0 <= j < i ==> values@[j] as int == sign_val(
                    swapped(unsign(orig[j] as int, 4), 4),
                    4,
                ),
            forall|j: int| i <= j < orig.len() ==> values@[j] == orig[j],
        decreases orig.len() - i,
    {
        proof {
            lemma_pow256_values();
            lemma_pow256_half(4);
        }
        let u = unextend_sign(values[i] as i64, 4);
        let s = swap_bytes128(u as u128, 4);
        proof {
            lemma_small_mod(s as nat, pow256(4));
        }
        let w = extend_sign(s as u64, 4);
        values.set(i, w as i32);
        i = i + 1;
    }
    proof {
        assert(values@ =~= orig.map_values(
            |x: i32| sign_val(swapped(unsign(x as int, 4), 4), 4) as i32,
        ));
    }
}

/// Byte-swaps the two's-complement pattern of every element in place.
pub fn swap_slice_i64(values: &mut Vec<i64>)
    ensures
        final(values)@ == old(values)@.map_values(
            |x: i64| sign_val(swapped(unsign(x as int, 8), 8), 8) as i64,
        ),
{
    let ghost orig = values@;
    let mut i: usize = 0;
    while i < values.len()
        invariant
            values@.len() == orig.len(),
            i <= orig.len(),
            forall|j: int|
                0 <= j < i ==> values@[j] as int == sign_val(
                    swapped(unsign(orig[j] as int, 8), 8),
                    8,
                ),
            forall|j: int| i <= j < orig.len() ==> values@[j] == orig[j],
        decreases orig.len() - i,
    {
        proof {
            lemma_pow256_values();
            lemma_pow256_half(8);
        }
        let u = unextend_sign(values[i], 8);
        let s = swap_bytes128(u as u128, 8);
        proof {
            lemma_small_mod(s as nat, pow256(8));
        }
        let w = extend_sign(s as u64, 8);
        values.set(i, w);
        i = i + 1;
    }
    proof {
        assert(values@ =~= orig.map_values(
            |x: i64| sign_val(swapped(unsign(x as int, 8), 8), 8) as i64,
        ));
    }
}

/// Byte-swaps the two's-complement pattern of every element in place.
pub fn swap_slice_i128(values: &mut Vec<i128>)
    ensures
        final(values)@ == old(values)@.map_values(
            |x: i128| sign_val(swapped(unsign(x as int, 16), 16), 16) as i128,
        ),
{
    let ghost orig = values@;
    let mut i: usize = 0;
    while i < values.len()
        invariant
            values@.len() == orig.len(),
            i <= orig.len(),
            forall|j: int|
                0 <= j < i ==> values@[j] as int == sign_val(
                    swapped(unsign(orig[j] as int, 16), 16),
                    16,
                ),
            forall|j: int| i <= j < orig.len() ==> values@[j] == orig[j],
        decreases orig.len() - i,
    {
        proof {
            lemma_pow256_values();
            lemma_pow256_half(16);
        }
        let u = unextend_sign128(values[i], 16);
        let s = swap_bytes128(u, 16);
        proof {
            lemma_small_mod(s as nat, pow256(16));
        }
        let w = extend_sign128(s, 16);
        values.set(i, w);
        i = i + 1;
    }
    proof {
        assert(values@ =~= orig.map_values(
            |x: i128| sign_val(swapped(unsign(x as int, 16), 16), 16) as i128,
        ));
    }
}

/// The value of a byte window under the order that `E` names.
pub open spec fn value_of<E: Endianness>(s: Seq<u8>) -> nat {
    order_value(E::is_little(), s)
}

/// The `n`-byte encoding of `v` under the order that `E` names.
pub open spec fn bytes_of<E: Endianness>(v: nat, n: nat) -> Seq<u8> {
    order_bytes(E::is_little(), v, n)
}

impl Endianness for BigEndian {
    open spec fn is_little() -> bool {
        false
    }

    fn little() -> (r: bool) {
        false
    }

    fn read_uint(stream: &[u8], bytes: usize) -> (r: u64) {
        load_be(stream, bytes)
    }

    fn read_uint128(stream: &[u8], bytes: usize) -> (r: u128) {
        load_be128(stream, bytes)
    }

    fn write_uint(stream: &mut Vec<u8>, value: u64, bytes: usize) {
        store_be(stream, value, bytes);
    }

    fn write_uint128(stream: &mut Vec<u8>, value: u128, bytes: usize) {
        store_be128(stream, value, bytes);
    }
}

impl Endianness for LittleEndian {
    open spec fn is_little() -> bool {
        true
    }

    fn little() -> (r: bool) {
        true
    }

    fn read_uint(stream: &[u8], bytes: usize) -> (r: u64) {
        load_le(stream, bytes)
    }

    fn read_uint128(stream: &[u8], bytes: usize) -> (r: u128) {
        load_le128(stream, bytes)
    }

    fn write_uint(stream: &mut Vec<u8>, value: u64, bytes: usize) {
        store_le(stream, value, bytes);
    }

    fn write_uint128(stream: &mut Vec<u8>, value: u128, bytes: usize) {
        store_le128(stream, value, bytes);
    }
}

/// Replicates the sign bit of the most significant of the low `bytes` bytes
/// of `value` into every higher bit: the signed reading of a narrow value.
/// Bits of `value` above the window are ignored.
pub fn extend_sign(value: u64, bytes: usize) -> (r: i64)
    requires
        1 <= bytes <= 8,
    ensures
        r as int == sign_val((value as nat) % pow256(bytes as nat), bytes as nat),
{
    proof {
        lemma_pow256_values();
        lemma_pow256_half(bytes as nat);
        lemma_pow256_pos((bytes - 1) as nat);
    }
    if bytes == 8 {
        proof {
            lemma_small_mod(value as nat, pow256(8));
        }
        if value < 0x8000_0000_0000_0000 {
            value as i64
        } else {
            ((value - 0x8000_0000_0000_0000) as i64) + i64::MIN
        }
    } else {
        let p = pow256_u64(bytes);
        let m = value % p;
        let h = p / 2;
        if m < h {
            m as i64
        } else {
            (m as i64) - (p as i64)
        }
    }
}

/// Cancels artificial sign bits before a width-limited write: the unsigned
/// `bytes`-byte pattern of `value`, its least non-negative residue.
pub fn unextend_sign(value: i64, bytes: usize) -> (r: u64)
    requires
        1 <= bytes <= 8,
    ensures
        r as nat == unsign(value as int, bytes as nat),
        (r as nat) < pow256(bytes as nat),
{
    proof {
        lemma_pow256_values();
        lemma_pow256_pos(bytes as nat);
    }
    if bytes == 8 {
        if value >= 0 {
            proof {
                lemma_small_mod(value as nat, pow256(8));
            }
            value as u64
        } else {
            proof {
                lemma_fundamental_div_mod_converse(
                    value as int,
                    pow256(8) as int,
                    -1,
                    value + pow256(8),
                );
            }
            ((value - i64::MIN) as u64) + 0x8000_0000_0000_0000
        }
    } else {
        let p = pow256_u64(bytes);
        if value >= 0 {
            proof {
                lemma_fundamental_div_mod(value as int, p as int);
            }
            (value as u64) % p
        } else {
            let a = ((-(value + 1)) as u64) + 1;
            let rem = a % p;
            proof {
                lemma_fundamental_div_mod(a as int, p as int);
                let q = (a as int) / (p as int);
                if rem == 0 {
                    assert(value as int == (-q) * (p as int) + 0) by (nonlinear_arith)
                        requires
                            a as int == (p as int) * q + (a as int) % (p as int),
                            (a as int) % (p as int) == 0,
                            value as int == -(a as int),
                    ;
                    lemma_fundamental_div_mod_converse(value as int, p as int, -q, 0);
                } else {
                    assert(value as int == (-q - 1) * (p as int) + ((p as int) - (
                    rem as int))) by (nonlinear_arith)
                        requires
                            a as int == (p as int) * q + (rem as int),
                            value as int == -(a as int),
                    ;
                    lemma_fundamental_div_mod_converse(
                        value as int,
                        p as int,
                        -q - 1,
                        (p as int) - (rem as int),
                    );
                }
            }
            if rem == 0 {
                0
            } else {
                p - rem
            }
        }
    }
}

/// [`extend_sign`] over the sixteen-byte domain.
pub fn extend_sign128(value: u128, bytes: usize) -> (r: i128)
    requires
        1 <= bytes <= 16,
    ensures
        r as int == sign_val((value as nat) % pow256(bytes as nat), bytes as nat),
{
    proof {
        lemma_pow256_values();
        lemma_pow256_half(bytes as nat);
        lemma_pow256_pos((bytes - 1) as nat);
    }
    if bytes == 16 {
        proof {
            lemma_small_mod(value as nat, pow256(16));
        }
        if value < 0x8000_0000_0000_0000_0000_0000_0000_0000 {
            value as i128
        } else {
            ((value - 0x8000_0000_0000_0000_0000_0000_0000_0000) as i128) + i128::MIN
        }
    } else {
        let p = pow256_u128(bytes);
        let m = value % p;
        let h = p / 2;
        if m < h {
            m as i128
        } else {
            (m as i128) - (p as i128)
        }
    }
}

/// [`unextend_sign`] over the sixteen-byte domain.
pub fn unextend_sign128(value: i128, bytes: usize) -> (r: u128)
    requires
        1 <= bytes <= 16,
    ensures
        r as nat == unsign(value as int, bytes as nat),
        (r as nat) < pow256(bytes as nat),
{
    proof {
        lemma_pow256_values();
        lemma_pow256_pos(bytes as nat);
    }
    if bytes == 16 {
        if value >= 0 {
            proof {
                lemma_small_mod(value as nat, pow256(16));
            }
            value as u128
        } else {
            proof {
                lemma_fundamental_div_mod_converse(
                    value as int,
                    pow256(16) as int,
                    -1,
                    value + pow256(16),
                );
            }
            ((value - i128::MIN) as u128) + 0x8000_0000_0000_0000_0000_0000_0000_0000
        }
    } else {
        let p = pow256_u128(bytes);
        if value >= 0 {
            proof {
                lemma_fundamental_div_mod(value as int, p as int);
            }
            (value as u128) % p
        } else {
            let a = ((-(value + 1)) as u128) + 1;
            let rem = a % p;
            proof {
                lemma_fundamental_div_mod(a as int, p as int);
                let q = (a as int) / (p as int);
                if rem == 0 {
                    assert(value as int == (-q) * (p as int) + 0) by (nonlinear_arith)
                        requires
                            a as int == (p as int) * q + (a as int) % (p as int),
                            (a as int) % (p as int) == 0,
                            value as int == -(a as int),
                    ;
                    lemma_fundamental_div_mod_converse(value as int, p as int, -q, 0);
                } else {
                    assert(value as int == (-q - 1) * (p as int) + ((p as int) - (
                    rem as int))) by (nonlinear_arith)
                        requires
                            a as int == (p as int) * q + (rem as int),
                            value as int == -(a as int),
                    ;
                    lemma_fundamental_div_mod_converse(
                        value as int,
                        p as int,
                        -q - 1,
                        (p as int) - (rem as int),
                    );
                }
            }
            if rem == 0 {
                0
            } else {
                p - rem
            }
        }
    }
}

} // verus!
