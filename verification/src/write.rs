//! Typed writes against any writable stream.
//!
//! Every method encodes into a window of exactly the required width with the
//! primitive codec of [`crate::endian`] and hands it to
//! [`BiteWrite::write_all`]; a stream failure propagates unchanged, and may
//! leave the stream partially written.

use vstd::prelude::*;

verus! {

use crate::endian::{bytes_of, Endianness, unextend_sign, unextend_sign128};
use crate::model::{pow256, unsign};
use crate::stream::{BiteError, BiteWrite};

/// The typed write operations, available on every writable stream.
pub trait BiteWriteExpandedExt: BiteWrite {
    /// Writes one byte.
    fn write_u8<E: Endianness>(&mut self, value: u8) -> (r: Result<(), BiteError>)
        ensures
            match r {
                Ok(()) => final(self).sink() == old(self).sink() + bytes_of::<E>(value as nat, 1),
                Err(e) => e == BiteError::UnexpectedEnd,
            },
    {
        let mut data = crate::stream::zeroed(1);
        E::write_u8(&mut data, value);
        proof {
            assert(data@.subrange(0, 1) =~= data@);
        }
        self.write_all(data.as_slice())
    }

    /// Writes one byte: the two's-complement pattern of `value`.
    fn write_i8<E: Endianness>(&mut self, value: i8) -> (r: Result<(), BiteError>)
        ensures
            match r {
                Ok(()) => final(self).sink() == old(self).sink() + bytes_of::<E>(
                    unsign(value as int, 1),
                    1,
                ),
                Err(e) => e == BiteError::UnexpectedEnd,
            },
    {
        let u = unextend_sign(value as i64, 1);
        let mut data = crate::stream::zeroed(1);
        E::write_uint(&mut data, u, 1);
        proof {
            assert(data@.subrange(0, 1) =~= data@);
        }
        self.write_all(data.as_slice())
    }

    fn write_u16<E: Endianness>(&mut self, value: u16) -> (r: Result<(), BiteError>)
        ensures
            match r {
                Ok(()) => final(self).sink() == old(self).sink() + bytes_of::<E>(value as nat, 2),
                Err(e) => e == BiteError::UnexpectedEnd,
            },
    {
        let mut data = crate::stream::zeroed(2);
        E::write_u16(&mut data, value);
        proof {
            assert(data@.subrange(0, 2) =~= data@);
        }
        self.write_all(data.as_slice())
    }

    /// Writes a 24-bit unsigned integer; `value` must fit in three bytes.
    fn write_u24<E: Endianness>(&mut self, value: u32) -> (r: Result<(), BiteError>)
        requires
            value < 0x100_0000,
        ensures
            match r {
                Ok(()) => final(self).sink() == old(self).sink() + bytes_of::<E>(value as nat, 3),
                Err(e) => e == BiteError::UnexpectedEnd,
            },
    {
        let mut data = crate::stream::zeroed(3);
        E::write_u24(&mut data, value);
        proof {
            assert(data@.subrange(0, 3) =~= data@);
        }
        self.write_all(data.as_slice())
    }

    fn write_u32<E: Endianness>(&mut self, value: u32) -> (r: Result<(), BiteError>)
        ensures
            match r {
                Ok(()) => final(self).sink() == old(self).sink() + bytes_of::<E>(value as nat, 4),
                Err(e) => e == BiteError::UnexpectedEnd,
            },
    {
        let mut data = crate::stream::zeroed(4);
        E::write_u32(&mut data, value);
        proof {
            assert(data@.subrange(0, 4) =~= data@);
        }
        self.write_all(data.as_slice())
    }

    fn write_u64<E: Endianness>(&mut self, value: u64) -> (r: Result<(), BiteError>)
        ensures
            match r {
                Ok(()) => final(self).sink() == old(self).sink() + bytes_of::<E>(value as nat, 8),
                Err(e) => e == BiteError::UnexpectedEnd,
            },
    {
        let mut data = crate::stream::zeroed(8);
        E::write_u64(&mut data, value);
        proof {
            assert(data@.subrange(0, 8) =~= data@);
        }
        self.write_all(data.as_slice())
    }

    fn write_u128<E: Endianness>(&mut self, value: u128) -> (r: Result<(), BiteError>)
        ensures
            match r {
                Ok(()) => final(self).sink() == old(self).sink() + bytes_of::<E>(value as nat, 16),
                Err(e) => e == BiteError::UnexpectedEnd,
            },
    {
        let mut data = crate::stream::zeroed(16);
        E::write_u128(&mut data, value);
        proof {
            assert(data@.subrange(0, 16) =~= data@);
        }
        self.write_all(data.as_slice())
    }

    fn write_i16<E: Endianness>(&mut self, value: i16) -> (r: Result<(), BiteError>)
        ensures
            match r {
                Ok(()) => final(self).sink() == old(self).sink() + bytes_of::<E>(
                    unsign(value as int, 2),
                    2,
                ),
                Err(e) => e == BiteError::UnexpectedEnd,
            },
    {
        let mut data = crate::stream::zeroed(2);
        E::write_i16(&mut data, value);
        proof {
            assert(data@.subrange(0, 2) =~= data@);
        }
        self.write_all(data.as_slice())
    }

    /// Writes the low three bytes of `value`'s two's-complement pattern.
    fn write_i24<E: Endianness>(&mut self, value: i32) -> (r: Result<(), BiteError>)
        ensures
            match r {
                Ok(()) => final(self).sink() == old(self).sink() + bytes_of::<E>(
                    unsign(value as int, 3),
                    3,
                ),
                Err(e) => e == BiteError::UnexpectedEnd,
            },
    {
        let mut data = crate::stream::zeroed(3);
        E::write_i24(&mut data, value);
        proof {
            assert(data@.subrange(0, 3) =~= data@);
        }
        self.write_all(data.as_slice())
    }

    fn write_i32<E: Endianness>(&mut self, value: i32) -> (r: Result<(), BiteError>)
        ensures
            match r {
                Ok(()) => final(self).sink() == old(self).sink() + bytes_of::<E>(
                    unsign(value as int, 4),
                    4,
                ),
                Err(e) => e == BiteError::UnexpectedEnd,
            },
    {
        let mut data = crate::stream::zeroed(4);
        E::write_i32(&mut data, value);
        proof {
            assert(data@.subrange(0, 4) =~= data@);
        }
        self.write_all(data.as_slice())
    }

    fn write_i64<E: Endianness>(&mut self, value: i64) -> (r: Result<(), BiteError>)
        ensures
            match r {
                Ok(()) => final(self).sink() == old(self).sink() + bytes_of::<E>(
                    unsign(value as int, 8),
                    8,
                ),
                Err(e) => e == BiteError::UnexpectedEnd,
            },
    {
        let mut data = crate::stream::zeroed(8);
        E::write_i64(&mut data, value);
        proof {
            assert(data@.subrange(0, 8) =~= data@);
        }
        self.write_all(data.as_slice())
    }

    fn write_i128<E: Endianness>(&mut self, value: i128) -> (r: Result<(), BiteError>)
        ensures
            match r {
                Ok(()) => final(self).sink() == old(self).sink() + bytes_of::<E>(
                    unsign(value as int, 16),
                    16,
                ),
                Err(e) => e == BiteError::UnexpectedEnd,
            },
    {
        let mut data = crate::stream::zeroed(16);
        E::write_i128(&mut data, value);
        proof {
            assert(data@.subrange(0, 16) =~= data@);
        }
        self.write_all(data.as_slice())
    }

    /// Writes an unsigned integer of `bytes` bytes; the declared width must
    /// be able to hold the value, the minimal-width rule of
    /// [`crate::pack_size`].
    fn write_uint<E: Endianness>(&mut self, value: u64, bytes: usize) -> (r: Result<
        (),
        BiteError,
    >)
        requires
            1 <= bytes <= 8,
            (value as nat) < pow256(bytes as nat),
        ensures
            match r {
                Ok(()) => final(self).sink() == old(self).sink() + bytes_of::<E>(
                    value as nat,
                    bytes as nat,
                ),
                Err(e) => e == BiteError::UnexpectedEnd,
            },
    {
        let mut data = crate::stream::zeroed(bytes);
        E::write_uint(&mut data, value, bytes);
        proof {
            assert(data@.subrange(0, bytes as int) =~= data@);
        }
        self.write_all(data.as_slice())
    }

    /// Writes an unsigned integer of `bytes` bytes, over the sixteen-byte
    /// domain, under the same minimal-width rule.
    fn write_uint128<E: Endianness>(&mut self, value: u128, bytes: usize) -> (r: Result<
        (),
        BiteError,
    >)
        requires
            1 <= bytes <= 16,
            (value as nat) < pow256(bytes as nat),
        ensures
            match r {
                Ok(()) => final(self).sink() == old(self).sink() + bytes_of::<E>(
                    value as nat,
                    bytes as nat,
                ),
                Err(e) => e == BiteError::UnexpectedEnd,
            },
    {
        let mut data = crate::stream::zeroed(bytes);
        E::write_uint128(&mut data, value, bytes);
        proof {
            assert(data@.subrange(0, bytes as int) =~= data@);
        }
        self.write_all(data.as_slice())
    }

    /// Writes a signed integer of `bytes` bytes: the width-limited unsigned
    /// pattern of `value`.
    fn write_int<E: Endianness>(&mut self, value: i64, bytes: usize) -> (r: Result<
        (),
        BiteError,
    >)
        requires
            1 <= bytes <= 8,
        ensures
            match r {
                Ok(()) => final(self).sink() == old(self).sink() + bytes_of::<E>(
                    unsign(value as int, bytes as nat),
                    bytes as nat,
                ),
                Err(e) => e == BiteError::UnexpectedEnd,
            },
    {
        let mut data = crate::stream::zeroed(bytes);
        E::write_int(&mut data, value, bytes);
        proof {
            assert(data@.subrange(0, bytes as int) =~= data@);
        }
        self.write_all(data.as_slice())
    }

    /// Writes a signed integer of `bytes` bytes, over the sixteen-byte
    /// domain.
    fn write_int128<E: Endianness>(&mut self, value: i128, bytes: usize) -> (r: Result<
        (),
        BiteError,
    >)
        requires
            1 <= bytes <= 16,
        ensures
            match r {
                Ok(()) => final(self).sink() == old(self).sink() + bytes_of::<E>(
                    unsign(value as int, bytes as nat),
                    bytes as nat,
                ),
                Err(e) => e == BiteError::UnexpectedEnd,
            },
    {
        let mut data = crate::stream::zeroed(bytes);
        E::write_int128(&mut data, value, bytes);
        proof {
            assert(data@.subrange(0, bytes as int) =~= data@);
        }
        self.write_all(data.as_slice())
    }

    /// Writes a frame: a 4-byte unsigned length prefix equal to
    /// `value.len()`, then the raw payload bytes. If either write fails the
    /// stream may be partially written; the caller must treat any failure as
    /// corrupting the stream.
    fn write_framed<E: Endianness>(&mut self, value: &[u8]) -> (r: Result<(), BiteError>)
        requires
            value@.len() <= u32::MAX,
        ensures
            match r {
                Ok(()) => final(self).sink() == old(self).sink() + bytes_of::<E>(value@.len(), 4)
                    + value@,
                Err(e) => e == BiteError::UnexpectedEnd,
            },
    {
        let length = value.len() as u32;
        match self.write_u32::<E>(length) {
            Ok(()) => {},
            Err(e) => {
                return Err(e);
            },
        }
        match self.write_all(value) {
            Ok(()) => Ok(()),
            Err(e) => Err(e),
        }
    }
}

impl<T: BiteWrite> BiteWriteExpandedExt for T {

}

} // verus!
