//! Little-endian convenience writes: the operations of
//! [`crate::write::BiteWriteExpandedExt`] with the byte order fixed to
//! [`LittleEndian`].

use vstd::prelude::*;

verus! {

use crate::endian::{unextend_sign, Endianness, LittleEndian};
use crate::model::{le_bytes, pow256, unsign};
use crate::stream::{BiteError, BiteWrite};

/// The typed little-endian write operations, available on every writable
/// stream.
pub trait BiteWriteExt: BiteWrite {
    /// Writes one byte.
    fn write_u8(&mut self, value: u8) -> (r: Result<(), BiteError>)
        ensures
            match r {
                Ok(()) => final(self).sink() == old(self).sink() + le_bytes(value as nat, 1),
                Err(e) => e == BiteError::UnexpectedEnd,
            },
    {
        let mut data = crate::stream::zeroed(1);
        LittleEndian::write_u8(&mut data, value);
        proof {
            assert(data@.subrange(0, 1) =~= data@);
        }
        self.write_all(data.as_slice())
    }

    /// Writes one byte: the two's-complement pattern of `value`.
    fn write_i8(&mut self, value: i8) -> (r: Result<(), BiteError>)
        ensures
            match r {
                Ok(()) => final(self).sink() == old(self).sink() + le_bytes(unsign(value as int, 1), 1),
                Err(e) => e == BiteError::UnexpectedEnd,
            },
    {
        let u = unextend_sign(value as i64, 1);
        let mut data = crate::stream::zeroed(1);
        LittleEndian::write_uint(&mut data, u, 1);
        proof {
            assert(data@.subrange(0, 1) =~= data@);
        }
        self.write_all(data.as_slice())
    }

    fn write_u16(&mut self, value: u16) -> (r: Result<(), BiteError>)
        ensures
            match r {
                Ok(()) => final(self).sink() == old(self).sink() + le_bytes(value as nat, 2),
                Err(e) => e == BiteError::UnexpectedEnd,
            },
    {
        let mut data = crate::stream::zeroed(2);
        LittleEndian::write_u16(&mut data, value);
        proof {
            assert(data@.subrange(0, 2) =~= data@);
        }
        self.write_all(data.as_slice())
    }

    fn write_i16(&mut self, value: i16) -> (r: Result<(), BiteError>)
        ensures
            match r {
                Ok(()) => final(self).sink() == old(self).sink() + le_bytes(unsign(value as int, 2), 2),
                Err(e) => e == BiteError::UnexpectedEnd,
            },
    {
        let mut data = crate::stream::zeroed(2);
        LittleEndian::write_i16(&mut data, value);
        proof {
            assert(data@.subrange(0, 2) =~= data@);
        }
        self.write_all(data.as_slice())
    }

    /// Writes a 24-bit unsigned integer; `value` must fit in three bytes.
    fn write_u24(&mut self, value: u32) -> (r: Result<(), BiteError>)
        requires
            value < 0x100_0000,
        ensures
            match r {
                Ok(()) => final(self).sink() == old(self).sink() + le_bytes(value as nat, 3),
                Err(e) => e == BiteError::UnexpectedEnd,
            },
    {
        let mut data = crate::stream::zeroed(3);
        LittleEndian::write_u24(&mut data, value);
        proof {
            assert(data@.subrange(0, 3) =~= data@);
        }
        self.write_all(data.as_slice())
    }

    /// Writes the low three bytes of `value`'s two's-complement pattern.
    fn write_i24(&mut self, value: i32) -> (r: Result<(), BiteError>)
        ensures
            match r {
                Ok(()) => final(self).sink() == old(self).sink() + le_bytes(unsign(value as int, 3), 3),
                Err(e) => e == BiteError::UnexpectedEnd,
            },
    {
        let mut data = crate::stream::zeroed(3);
        LittleEndian::write_i24(&mut data, value);
        proof {
            assert(data@.subrange(0, 3) =~= data@);
        }
        self.write_all(data.as_slice())
    }

    fn write_u32(&mut self, value: u32) -> (r: Result<(), BiteError>)
        ensures
            match r {
                Ok(()) => final(self).sink() == old(self).sink() + le_bytes(value as nat, 4),
                Err(e) => e == BiteError::UnexpectedEnd,
            },
    {
        let mut data = crate::stream::zeroed(4);
        LittleEndian::write_u32(&mut data, value);
        proof {
            assert(data@.subrange(0, 4) =~= data@);
        }
        self.write_all(data.as_slice())
    }

    fn write_i32(&mut self, value: i32) -> (r: Result<(), BiteError>)
        ensures
            match r {
                Ok(()) => final(self).sink() == old(self).sink() + le_bytes(unsign(value as int, 4), 4),
                Err(e) => e == BiteError::UnexpectedEnd,
            },
    {
        let mut data = crate::stream::zeroed(4);
        LittleEndian::write_i32(&mut data, value);
        proof {
            assert(data@.subrange(0, 4) =~= data@);
        }
        self.write_all(data.as_slice())
    }

    fn write_u64(&mut self, value: u64) -> (r: Result<(), BiteError>)
        ensures
            match r {
                Ok(()) => final(self).sink() == old(self).sink() + le_bytes(value as nat, 8),
                Err(e) => e == BiteError::UnexpectedEnd,
            },
    {
        let mut data = crate::stream::zeroed(8);
        LittleEndian::write_u64(&mut data, value);
        proof {
            assert(data@.subrange(0, 8) =~= data@);
        }
        self.write_all(data.as_slice())
    }

    fn write_i64(&mut self, value: i64) -> (r: Result<(), BiteError>)
        ensures
            match r {
                Ok(()) => final(self).sink() == old(self).sink() + le_bytes(unsign(value as int, 8), 8),
                Err(e) => e == BiteError::UnexpectedEnd,
            },
    {
        let mut data = crate::stream::zeroed(8);
        LittleEndian::write_i64(&mut data, value);
        proof {
            assert(data@.subrange(0, 8) =~= data@);
        }
        self.write_all(data.as_slice())
    }

    fn write_u128(&mut self, value: u128) -> (r: Result<(), BiteError>)
        ensures
            match r {
                Ok(()) => final(self).sink() == old(self).sink() + le_bytes(value as nat, 16),
                Err(e) => e == BiteError::UnexpectedEnd,
            },
    {
        let mut data = crate::stream::zeroed(16);
        LittleEndian::write_u128(&mut data, value);
        proof {
            assert(data@.subrange(0, 16) =~= data@);
        }
        self.write_all(data.as_slice())
    }

    fn write_i128(&mut self, value: i128) -> (r: Result<(), BiteError>)
        ensures
            match r {
                Ok(()) => final(self).sink() == old(self).sink() + le_bytes(unsign(value as int, 16), 16),
                Err(e) => e == BiteError::UnexpectedEnd,
            },
    {
        let mut data = crate::stream::zeroed(16);
        LittleEndian::write_i128(&mut data, value);
        proof {
            assert(data@.subrange(0, 16) =~= data@);
        }
        self.write_all(data.as_slice())
    }

    /// Writes an unsigned integer of `bytes` bytes, under the minimal-width rule of [`crate::pack_size`].
    fn write_uint(&mut self, value: u64, bytes: usize) -> (r: Result<(), BiteError>)
        requires
            1 <= bytes <= 8,
            (value as nat) < pow256(bytes as nat),
        ensures
            match r {
                Ok(()) => final(self).sink() == old(self).sink() + le_bytes(value as nat, bytes as nat),
                Err(e) => e == BiteError::UnexpectedEnd,
            },
    {
        let mut data = crate::stream::zeroed(bytes);
        LittleEndian::write_uint(&mut data, value, bytes);
        proof {
            assert(data@.subrange(0, bytes as int) =~= data@);
        }
        self.write_all(data.as_slice())
    }

    /// Writes an unsigned integer of `bytes` bytes, under the minimal-width rule of [`crate::pack_size`].
    fn write_uint128(&mut self, value: u128, bytes: usize) -> (r: Result<(), BiteError>)
        requires
            1 <= bytes <= 16,
            (value as nat) < pow256(bytes as nat),
        ensures
            match r {
                Ok(()) => final(self).sink() == old(self).sink() + le_bytes(value as nat, bytes as nat),
                Err(e) => e == BiteError::UnexpectedEnd,
            },
    {
        let mut data = crate::stream::zeroed(bytes);
        LittleEndian::write_uint128(&mut data, value, bytes);
        proof {
            assert(data@.subrange(0, bytes as int) =~= data@);
        }
        self.write_all(data.as_slice())
    }

    /// Writes a signed integer of `bytes` bytes: its width-limited unsigned pattern.
    fn write_int(&mut self, value: i64, bytes: usize) -> (r: Result<(), BiteError>)
        requires
            1 <= bytes <= 8,
        ensures
            match r {
                Ok(()) => final(self).sink() == old(self).sink() + le_bytes(unsign(value as int, bytes as nat), bytes as nat),
                Err(e) => e == BiteError::UnexpectedEnd,
            },
    {
        let mut data = crate::stream::zeroed(bytes);
        LittleEndian::write_int(&mut data, value, bytes);
        proof {
            assert(data@.subrange(0, bytes as int) =~= data@);
        }
        self.write_all(data.as_slice())
    }

    /// Writes a signed integer of `bytes` bytes: its width-limited unsigned pattern.
    fn write_int128(&mut self, value: i128, bytes: usize) -> (r: Result<(), BiteError>)
        requires
            1 <= bytes <= 16,
        ensures
            match r {
                Ok(()) => final(self).sink() == old(self).sink() + le_bytes(unsign(value as int, bytes as nat), bytes as nat),
                Err(e) => e == BiteError::UnexpectedEnd,
            },
    {
        let mut data = crate::stream::zeroed(bytes);
        LittleEndian::write_int128(&mut data, value, bytes);
        proof {
            assert(data@.subrange(0, bytes as int) =~= data@);
        }
        self.write_all(data.as_slice())
    }

    /// Writes a length-prefixed frame: a 4-byte length, then the payload.
    /// If either write fails the stream may be partially written.
    fn write_framed(&mut self, value: &[u8]) -> (r: Result<(), BiteError>)
        requires
            value@.len() <= u32::MAX,
        ensures
            match r {
                Ok(()) => final(self).sink() == old(self).sink() + le_bytes(value@.len(), 4) + value@,
                Err(e) => e == BiteError::UnexpectedEnd,
            },
    {
        let length = value.len() as u32;
        match self.write_u32(length) {
            Ok(()) => {},
            Err(e) => {
                return Err(e);
            },
        }
        match self.write_all(value) {
            Ok(()) => Ok(()),
            Err(e) => Err(e),
        }
    }
}

impl<T: BiteWrite> BiteWriteExt for T {

}

} // verus!
