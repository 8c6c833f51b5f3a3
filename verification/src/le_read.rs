//! Little-endian convenience reads: the operations of
//! [`crate::read::BiteReadExpandedExt`] with the byte order fixed to
//! [`LittleEndian`], so that callers of a little-endian protocol need not
//! name the order at every call.

use vstd::prelude::*;

verus! {

use crate::endian::{Endianness, LittleEndian};
use crate::model::{lemma_le_value_bound, lemma_pow256_half, lemma_pow256_values, le_value, pow256,
    sign_val};
use crate::stream::{BiteError, BiteRead};

/// The typed little-endian read operations, available on every readable
/// stream.
pub trait BiteReadExt: BiteRead {
    /// Reads one byte.
    fn read_u8(&mut self) -> (r: Result<u8, BiteError>)
        ensures
            match r {
                Ok(v) => old(self).stream().len() >= 1 && v == old(self).stream()[0] && final(self).stream() == old(self).stream().skip(1),
                Err(e) => e == BiteError::UnexpectedEnd,
            },
    {
        let mut data: Vec<u8> = Vec::new();
        data.push(0);
        match self.read_exact(&mut data) {
            Ok(()) => Ok(data[0]),
            Err(e) => Err(e),
        }
    }

    /// Reads one byte as a signed integer.
    fn read_i8(&mut self) -> (r: Result<i8, BiteError>)
        ensures
            match r {
                Ok(v) => old(self).stream().len() >= 1 && v as int == sign_val(old(self).stream()[0] as nat, 1) && final(self).stream() == old(self).stream().skip(1),
                Err(e) => e == BiteError::UnexpectedEnd,
            },
    {
        let mut data: Vec<u8> = Vec::new();
        data.push(0);
        match self.read_exact(&mut data) {
            Ok(()) => {
                let b = data[0];
                proof {
                    lemma_pow256_values();
                    lemma_pow256_half(1);
                }
                if b < 0x80 {
                    Ok(b as i8)
                } else {
                    Ok(((b - 0x80) as i8) + i8::MIN)
                }
            }
            Err(e) => Err(e),
        }
    }

    fn read_u16(&mut self) -> (r: Result<u16, BiteError>)
        ensures
            match r {
                Ok(v) => old(self).stream().len() >= 2 && v as nat == le_value(old(self).stream().subrange(0, 2)) && final(self).stream() == old(self).stream().skip(2),
                Err(e) => e == BiteError::UnexpectedEnd,
            },
    {
        let mut data = crate::stream::zeroed(2);
        match self.read_exact(&mut data) {
            Ok(()) => {
                let v = LittleEndian::read_u16(data.as_slice());
                proof {
                    assert(data@.subrange(0, 2) =~= data@);
                }
                Ok(v)
            }
            Err(e) => Err(e),
        }
    }

    fn read_u24(&mut self) -> (r: Result<u32, BiteError>)
        ensures
            match r {
                Ok(v) => old(self).stream().len() >= 3 && v as nat == le_value(old(self).stream().subrange(0, 3)) && v < 0x100_0000 && final(self).stream() == old(self).stream().skip(3),
                Err(e) => e == BiteError::UnexpectedEnd,
            },
    {
        let mut data = crate::stream::zeroed(3);
        match self.read_exact(&mut data) {
            Ok(()) => {
                let v = LittleEndian::read_u24(data.as_slice());
                proof {
                    assert(data@.subrange(0, 3) =~= data@);
                }
                Ok(v)
            }
            Err(e) => Err(e),
        }
    }

    fn read_u32(&mut self) -> (r: Result<u32, BiteError>)
        ensures
            match r {
                Ok(v) => old(self).stream().len() >= 4 && v as nat == le_value(old(self).stream().subrange(0, 4)) && final(self).stream() == old(self).stream().skip(4),
                Err(e) => e == BiteError::UnexpectedEnd,
            },
    {
        let mut data = crate::stream::zeroed(4);
        match self.read_exact(&mut data) {
            Ok(()) => {
                let v = LittleEndian::read_u32(data.as_slice());
                proof {
                    assert(data@.subrange(0, 4) =~= data@);
                }
                Ok(v)
            }
            Err(e) => Err(e),
        }
    }

    fn read_u64(&mut self) -> (r: Result<u64, BiteError>)
        ensures
            match r {
                Ok(v) => old(self).stream().len() >= 8 && v as nat == le_value(old(self).stream().subrange(0, 8)) && final(self).stream() == old(self).stream().skip(8),
                Err(e) => e == BiteError::UnexpectedEnd,
            },
    {
        let mut data = crate::stream::zeroed(8);
        match self.read_exact(&mut data) {
            Ok(()) => {
                let v = LittleEndian::read_u64(data.as_slice());
                proof {
                    assert(data@.subrange(0, 8) =~= data@);
                }
                Ok(v)
            }
            Err(e) => Err(e),
        }
    }

    fn read_u128(&mut self) -> (r: Result<u128, BiteError>)
        ensures
            match r {
                Ok(v) => old(self).stream().len() >= 16 && v as nat == le_value(old(self).stream().subrange(0, 16)) && final(self).stream() == old(self).stream().skip(16),
                Err(e) => e == BiteError::UnexpectedEnd,
            },
    {
        let mut data = crate::stream::zeroed(16);
        match self.read_exact(&mut data) {
            Ok(()) => {
                let v = LittleEndian::read_u128(data.as_slice());
                proof {
                    assert(data@.subrange(0, 16) =~= data@);
                }
                Ok(v)
            }
            Err(e) => Err(e),
        }
    }

    fn read_i16(&mut self) -> (r: Result<i16, BiteError>)
        ensures
            match r {
                Ok(v) => old(self).stream().len() >= 2 && v as int == sign_val(le_value(old(self).stream().subrange(0, 2)), 2) && final(self).stream() == old(self).stream().skip(2),
                Err(e) => e == BiteError::UnexpectedEnd,
            },
    {
        let mut data = crate::stream::zeroed(2);
        match self.read_exact(&mut data) {
            Ok(()) => {
                let v = LittleEndian::read_i16(data.as_slice());
                proof {
                    assert(data@.subrange(0, 2) =~= data@);
                }
                Ok(v)
            }
            Err(e) => Err(e),
        }
    }

    fn read_i24(&mut self) -> (r: Result<i32, BiteError>)
        ensures
            match r {
                Ok(v) => old(self).stream().len() >= 3 && v as int == sign_val(le_value(old(self).stream().subrange(0, 3)), 3) && final(self).stream() == old(self).stream().skip(3),
                Err(e) => e == BiteError::UnexpectedEnd,
            },
    {
        let mut data = crate::stream::zeroed(3);
        match self.read_exact(&mut data) {
            Ok(()) => {
                let v = LittleEndian::read_i24(data.as_slice());
                proof {
                    assert(data@.subrange(0, 3) =~= data@);
                }
                Ok(v)
            }
            Err(e) => Err(e),
        }
    }

    fn read_i32(&mut self) -> (r: Result<i32, BiteError>)
        ensures
            match r {
                Ok(v) => old(self).stream().len() >= 4 && v as int == sign_val(le_value(old(self).stream().subrange(0, 4)), 4) && final(self).stream() == old(self).stream().skip(4),
                Err(e) => e == BiteError::UnexpectedEnd,
            },
    {
        let mut data = crate::stream::zeroed(4);
        match self.read_exact(&mut data) {
            Ok(()) => {
                let v = LittleEndian::read_i32(data.as_slice());
                proof {
                    assert(data@.subrange(0, 4) =~= data@);
                }
                Ok(v)
            }
            Err(e) => Err(e),
        }
    }

    fn read_i64(&mut self) -> (r: Result<i64, BiteError>)
        ensures
            match r {
                Ok(v) => old(self).stream().len() >= 8 && v as int == sign_val(le_value(old(self).stream().subrange(0, 8)), 8) && final(self).stream() == old(self).stream().skip(8),
                Err(e) => e == BiteError::UnexpectedEnd,
            },
    {
        let mut data = crate::stream::zeroed(8);
        match self.read_exact(&mut data) {
            Ok(()) => {
                let v = LittleEndian::read_i64(data.as_slice());
                proof {
                    assert(data@.subrange(0, 8) =~= data@);
                }
                Ok(v)
            }
            Err(e) => Err(e),
        }
    }

    fn read_i128(&mut self) -> (r: Result<i128, BiteError>)
        ensures
            match r {
                Ok(v) => old(self).stream().len() >= 16 && v as int == sign_val(le_value(old(self).stream().subrange(0, 16)), 16) && final(self).stream() == old(self).stream().skip(16),
                Err(e) => e == BiteError::UnexpectedEnd,
            },
    {
        let mut data = crate::stream::zeroed(16);
        match self.read_exact(&mut data) {
            Ok(()) => {
                let v = LittleEndian::read_i128(data.as_slice());
                proof {
                    assert(data@.subrange(0, 16) =~= data@);
                }
                Ok(v)
            }
            Err(e) => Err(e),
        }
    }

    /// Reads an unsigned integer of `bytes` bytes.
    fn read_uint(&mut self, bytes: usize) -> (r: Result<u64, BiteError>)
        requires
            1 <= bytes <= 8,
        ensures
            match r {
                Ok(v) => old(self).stream().len() >= bytes && v as nat == le_value(old(self).stream().subrange(0, bytes as int)) && (v as nat) < pow256(bytes as nat) && final(self).stream() == old(self).stream().skip(bytes as int),
                Err(e) => e == BiteError::UnexpectedEnd,
            },
    {
        let mut data = crate::stream::zeroed(bytes);
        match self.read_exact(&mut data) {
            Ok(()) => {
                let v = LittleEndian::read_uint(data.as_slice(), bytes);
                proof {
                    assert(data@.subrange(0, bytes as int) =~= data@);
                }
                Ok(v)
            }
            Err(e) => Err(e),
        }
    }

    /// Reads an unsigned integer of `bytes` bytes.
    fn read_uint128(&mut self, bytes: usize) -> (r: Result<u128, BiteError>)
        requires
            1 <= bytes <= 16,
        ensures
            match r {
                Ok(v) => old(self).stream().len() >= bytes && v as nat == le_value(old(self).stream().subrange(0, bytes as int)) && (v as nat) < pow256(bytes as nat) && final(self).stream() == old(self).stream().skip(bytes as int),
                Err(e) => e == BiteError::UnexpectedEnd,
            },
    {
        let mut data = crate::stream::zeroed(bytes);
        match self.read_exact(&mut data) {
            Ok(()) => {
                let v = LittleEndian::read_uint128(data.as_slice(), bytes);
                proof {
                    assert(data@.subrange(0, bytes as int) =~= data@);
                }
                Ok(v)
            }
            Err(e) => Err(e),
        }
    }

    /// Reads a signed integer of `bytes` bytes, sign-extended to the full width.
    fn read_int(&mut self, bytes: usize) -> (r: Result<i64, BiteError>)
        requires
            1 <= bytes <= 8,
        ensures
            match r {
                Ok(v) => old(self).stream().len() >= bytes && v as int == sign_val(le_value(old(self).stream().subrange(0, bytes as int)), bytes as nat) && final(self).stream() == old(self).stream().skip(bytes as int),
                Err(e) => e == BiteError::UnexpectedEnd,
            },
    {
        let mut data = crate::stream::zeroed(bytes);
        match self.read_exact(&mut data) {
            Ok(()) => {
                let v = LittleEndian::read_int(data.as_slice(), bytes);
                proof {
                    assert(data@.subrange(0, bytes as int) =~= data@);
                }
                Ok(v)
            }
            Err(e) => Err(e),
        }
    }

    /// Reads a signed integer of `bytes` bytes, sign-extended to the full width.
    fn read_int128(&mut self, bytes: usize) -> (r: Result<i128, BiteError>)
        requires
            1 <= bytes <= 16,
        ensures
            match r {
                Ok(v) => old(self).stream().len() >= bytes && v as int == sign_val(le_value(old(self).stream().subrange(0, bytes as int)), bytes as nat) && final(self).stream() == old(self).stream().skip(bytes as int),
                Err(e) => e == BiteError::UnexpectedEnd,
            },
    {
        let mut data = crate::stream::zeroed(bytes);
        match self.read_exact(&mut data) {
            Ok(()) => {
                let v = LittleEndian::read_int128(data.as_slice(), bytes);
                proof {
                    assert(data@.subrange(0, bytes as int) =~= data@);
                }
                Ok(v)
            }
            Err(e) => Err(e),
        }
    }

    /// Reads `values.len()` integers of 2 bytes each from the stream,
    /// in order, replacing the elements of `values`.
    fn read_slice_u16(&mut self, values: &mut Vec<u16>) -> (r: Result<(), BiteError>)
        requires
            2 * old(values)@.len() <= usize::MAX,
        ensures
            final(values)@.len() == old(values)@.len(),
            match r {
                Ok(()) => old(self).stream().len() >= 2 * old(values)@.len() && (forall|j: int|
                    0 <= j < old(values)@.len() ==> final(values)@[j] as nat == le_value(old(self).stream().subrange(2 * j, 2 * j + 2))) && final(self).stream() == old(self).stream().skip(2 * old(values)@.len() as int),
                Err(e) => e == BiteError::UnexpectedEnd && final(values)@ == old(values)@,
            },
    {
        let n = values.len();
        let mut data = crate::stream::zeroed(2 * n);
        match self.read_exact(&mut data) {
            Ok(()) => {
                LittleEndian::read_slice_u16(data.as_slice(), values);
                proof {
                    assert forall|j: int| 0 <= j < old(values)@.len() implies #[trigger] data@.subrange(
                        2 * j,
                        2 * j + 2,
                    ) == old(self).stream().subrange(2 * j, 2 * j + 2) by {
                        assert(data@.subrange(2 * j, 2 * j + 2) =~= old(self).stream().subrange(
                            2 * j,
                            2 * j + 2,
                        ));
                    }
                }
                Ok(())
            }
            Err(e) => Err(e),
        }
    }

    /// Reads `values.len()` integers of 4 bytes each from the stream,
    /// in order, replacing the elements of `values`.
    fn read_slice_u32(&mut self, values: &mut Vec<u32>) -> (r: Result<(), BiteError>)
        requires
            4 * old(values)@.len() <= usize::MAX,
        ensures
            final(values)@.len() == old(values)@.len(),
            match r {
                Ok(()) => old(self).stream().len() >= 4 * old(values)@.len() && (forall|j: int|
                    0 <= j < old(values)@.len() ==> final(values)@[j] as nat == le_value(old(self).stream().subrange(4 * j, 4 * j + 4))) && final(self).stream() == old(self).stream().skip(4 * old(values)@.len() as int),
                Err(e) => e == BiteError::UnexpectedEnd && final(values)@ == old(values)@,
            },
    {
        let n = values.len();
        let mut data = crate::stream::zeroed(4 * n);
        match self.read_exact(&mut data) {
            Ok(()) => {
                LittleEndian::read_slice_u32(data.as_slice(), values);
                proof {
                    assert forall|j: int| 0 <= j < old(values)@.len() implies #[trigger] data@.subrange(
                        4 * j,
                        4 * j + 4,
                    ) == old(self).stream().subrange(4 * j, 4 * j + 4) by {
                        assert(data@.subrange(4 * j, 4 * j + 4) =~= old(self).stream().subrange(
                            4 * j,
                            4 * j + 4,
                        ));
                    }
                }
                Ok(())
            }
            Err(e) => Err(e),
        }
    }

    /// Reads `values.len()` integers of 8 bytes each from the stream,
    /// in order, replacing the elements of `values`.
    fn read_slice_u64(&mut self, values: &mut Vec<u64>) -> (r: Result<(), BiteError>)
        requires
            8 * old(values)@.len() <= usize::MAX,
        ensures
            final(values)@.len() == old(values)@.len(),
            match r {
                Ok(()) => old(self).stream().len() >= 8 * old(values)@.len() && (forall|j: int|
                    0 <= j < old(values)@.len() ==> final(values)@[j] as nat == le_value(old(self).stream().subrange(8 * j, 8 * j + 8))) && final(self).stream() == old(self).stream().skip(8 * old(values)@.len() as int),
                Err(e) => e == BiteError::UnexpectedEnd && final(values)@ == old(values)@,
            },
    {
        let n = values.len();
        let mut data = crate::stream::zeroed(8 * n);
        match self.read_exact(&mut data) {
            Ok(()) => {
                LittleEndian::read_slice_u64(data.as_slice(), values);
                proof {
                    assert forall|j: int| 0 <= j < old(values)@.len() implies #[trigger] data@.subrange(
                        8 * j,
                        8 * j + 8,
                    ) == old(self).stream().subrange(8 * j, 8 * j + 8) by {
                        assert(data@.subrange(8 * j, 8 * j + 8) =~= old(self).stream().subrange(
                            8 * j,
                            8 * j + 8,
                        ));
                    }
                }
                Ok(())
            }
            Err(e) => Err(e),
        }
    }

    /// Reads `values.len()` integers of 16 bytes each from the stream,
    /// in order, replacing the elements of `values`.
    fn read_slice_u128(&mut self, values: &mut Vec<u128>) -> (r: Result<(), BiteError>)
        requires
            16 * old(values)@.len() <= usize::MAX,
        ensures
            final(values)@.len() == old(values)@.len(),
            match r {
                Ok(()) => old(self).stream().len() >= 16 * old(values)@.len() && (forall|j: int|
                    0 <= j < old(values)@.len() ==> final(values)@[j] as nat == le_value(old(self).stream().subrange(16 * j, 16 * j + 16))) && final(self).stream() == old(self).stream().skip(16 * old(values)@.len() as int),
                Err(e) => e == BiteError::UnexpectedEnd && final(values)@ == old(values)@,
            },
    {
        let n = values.len();
        let mut data = crate::stream::zeroed(16 * n);
        match self.read_exact(&mut data) {
            Ok(()) => {
                LittleEndian::read_slice_u128(data.as_slice(), values);
                proof {
                    assert forall|j: int| 0 <= j < old(values)@.len() implies #[trigger] data@.subrange(
                        16 * j,
                        16 * j + 16,
                    ) == old(self).stream().subrange(16 * j, 16 * j + 16) by {
                        assert(data@.subrange(16 * j, 16 * j + 16) =~= old(self).stream().subrange(
                            16 * j,
                            16 * j + 16,
                        ));
                    }
                }
                Ok(())
            }
            Err(e) => Err(e),
        }
    }

    /// Reads `values.len()` signed integers of 2 bytes each from the stream,
    /// in order, replacing the elements of `values`.
    fn read_slice_i16(&mut self, values: &mut Vec<i16>) -> (r: Result<(), BiteError>)
        requires
            2 * old(values)@.len() <= usize::MAX,
        ensures
            final(values)@.len() == old(values)@.len(),
            match r {
                Ok(()) => old(self).stream().len() >= 2 * old(values)@.len() && (forall|j: int|
                    0 <= j < old(values)@.len() ==> final(values)@[j] as int == sign_val(le_value(old(self).stream().subrange(2 * j, 2 * j + 2)), 2)) && final(self).stream() == old(self).stream().skip(2 * old(values)@.len() as int),
                Err(e) => e == BiteError::UnexpectedEnd && final(values)@ == old(values)@,
            },
    {
        let n = values.len();
        let mut data = crate::stream::zeroed(2 * n);
        match self.read_exact(&mut data) {
            Ok(()) => {
                LittleEndian::read_slice_i16(data.as_slice(), values);
                proof {
                    assert forall|j: int| 0 <= j < old(values)@.len() implies #[trigger] data@.subrange(
                        2 * j,
                        2 * j + 2,
                    ) == old(self).stream().subrange(2 * j, 2 * j + 2) by {
                        assert(data@.subrange(2 * j, 2 * j + 2) =~= old(self).stream().subrange(
                            2 * j,
                            2 * j + 2,
                        ));
                    }
                }
                Ok(())
            }
            Err(e) => Err(e),
        }
    }

    /// Reads `values.len()` signed integers of 4 bytes each from the stream,
    /// in order, replacing the elements of `values`.
    fn read_slice_i32(&mut self, values: &mut Vec<i32>) -> (r: Result<(), BiteError>)
        requires
            4 * old(values)@.len() <= usize::MAX,
        ensures
            final(values)@.len() == old(values)@.len(),
            match r {
                Ok(()) => old(self).stream().len() >= 4 * old(values)@.len() && (forall|j: int|
                    0 <= j < old(values)@.len() ==> final(values)@[j] as int == sign_val(le_value(old(self).stream().subrange(4 * j, 4 * j + 4)), 4)) && final(self).stream() == old(self).stream().skip(4 * old(values)@.len() as int),
                Err(e) => e == BiteError::UnexpectedEnd && final(values)@ == old(values)@,
            },
    {
        let n = values.len();
        let mut data = crate::stream::zeroed(4 * n);
        match self.read_exact(&mut data) {
            Ok(()) => {
                LittleEndian::read_slice_i32(data.as_slice(), values);
                proof {
                    assert forall|j: int| 0 <= j < old(values)@.len() implies #[trigger] data@.subrange(
                        4 * j,
                        4 * j + 4,
                    ) == old(self).stream().subrange(4 * j, 4 * j + 4) by {
                        assert(data@.subrange(4 * j, 4 * j + 4) =~= old(self).stream().subrange(
                            4 * j,
                            4 * j + 4,
                        ));
                    }
                }
                Ok(())
            }
            Err(e) => Err(e),
        }
    }

    /// Reads `values.len()` signed integers of 8 bytes each from the stream,
    /// in order, replacing the elements of `values`.
    fn read_slice_i64(&mut self, values: &mut Vec<i64>) -> (r: Result<(), BiteError>)
        requires
            8 * old(values)@.len() <= usize::MAX,
        ensures
            final(values)@.len() == old(values)@.len(),
            match r {
                Ok(()) => old(self).stream().len() >= 8 * old(values)@.len() && (forall|j: int|
                    0 <= j < old(values)@.len() ==> final(values)@[j] as int == sign_val(le_value(old(self).stream().subrange(8 * j, 8 * j + 8)), 8)) && final(self).stream() == old(self).stream().skip(8 * old(values)@.len() as int),
                Err(e) => e == BiteError::UnexpectedEnd && final(values)@ == old(values)@,
            },
    {
        let n = values.len();
        let mut data = crate::stream::zeroed(8 * n);
        match self.read_exact(&mut data) {
            Ok(()) => {
                LittleEndian::read_slice_i64(data.as_slice(), values);
                proof {
                    assert forall|j: int| 0 <= j < old(values)@.len() implies #[trigger] data@.subrange(
                        8 * j,
                        8 * j + 8,
                    ) == old(self).stream().subrange(8 * j, 8 * j + 8) by {
                        assert(data@.subrange(8 * j, 8 * j + 8) =~= old(self).stream().subrange(
                            8 * j,
                            8 * j + 8,
                        ));
                    }
                }
                Ok(())
            }
            Err(e) => Err(e),
        }
    }

    /// Reads `values.len()` signed integers of 16 bytes each from the stream,
    /// in order, replacing the elements of `values`.
    fn read_slice_i128(&mut self, values: &mut Vec<i128>) -> (r: Result<(), BiteError>)
        requires
            16 * old(values)@.len() <= usize::MAX,
        ensures
            final(values)@.len() == old(values)@.len(),
            match r {
                Ok(()) => old(self).stream().len() >= 16 * old(values)@.len() && (forall|j: int|
                    0 <= j < old(values)@.len() ==> final(values)@[j] as int == sign_val(le_value(old(self).stream().subrange(16 * j, 16 * j + 16)), 16)) && final(self).stream() == old(self).stream().skip(16 * old(values)@.len() as int),
                Err(e) => e == BiteError::UnexpectedEnd && final(values)@ == old(values)@,
            },
    {
        let n = values.len();
        let mut data = crate::stream::zeroed(16 * n);
        match self.read_exact(&mut data) {
            Ok(()) => {
                LittleEndian::read_slice_i128(data.as_slice(), values);
                proof {
                    assert forall|j: int| 0 <= j < old(values)@.len() implies #[trigger] data@.subrange(
                        16 * j,
                        16 * j + 16,
                    ) == old(self).stream().subrange(16 * j, 16 * j + 16) by {
                        assert(data@.subrange(16 * j, 16 * j + 16) =~= old(self).stream().subrange(
                            16 * j,
                            16 * j + 16,
                        ));
                    }
                }
                Ok(())
            }
            Err(e) => Err(e),
        }
    }

    /// Reads a length-prefixed frame, rejecting any frame whose declared
    /// length exceeds `maximum` before reading a byte of the payload.
    fn read_framed_max(&mut self, maximum: usize) -> (r: Result<Vec<u8>, BiteError>)
        ensures
            match r {
                Ok(data) => ({
                    let s = old(self).stream();
                    let len = le_value(s.subrange(0, 4));
                    &&& s.len() >= 4 + len as int
                    &&& len <= maximum
                    &&& data@ == s.subrange(4, 4 + len as int)
                    &&& final(self).stream() == s.skip(4 + len as int)
                }),
                Err(e) => e == BiteError::UnexpectedEnd || (e == BiteError::InvalidData && ({
                    let s = old(self).stream();
                    &&& s.len() >= 4
                    &&& le_value(s.subrange(0, 4)) > maximum
                    &&& final(self).stream() == s.skip(4)
                })),
            },
    {
        let mut prefix = crate::stream::zeroed(4);
        let length32 = match self.read_exact(&mut prefix) {
            Ok(()) => {
                let v = LittleEndian::read_u32(prefix.as_slice());
                proof {
                    assert(prefix@.subrange(0, 4) =~= prefix@);
                }
                v
            },
            Err(e) => {
                return Err(e);
            },
        };
        let length = length32 as usize;
        if length > maximum {
            return Err(BiteError::InvalidData);
        }
        let mut data = crate::stream::zeroed(length);
        match self.read_exact(&mut data) {
            Ok(()) => {
                proof {
                    let s = old(self).stream();
                    assert(s.skip(4).subrange(0, length as int) =~= s.subrange(4, 4 + length));
                    assert(s.skip(4).skip(length as int) =~= s.skip(4 + length));
                }
                Ok(data)
            },
            Err(e) => Err(e),
        }
    }

    /// Reads a length-prefixed frame with no ceiling on the declared
    /// length; see [`crate::read::BiteReadExpandedExt::read_framed`] for
    /// the caution on hostile input.
    fn read_framed(&mut self) -> (r: Result<Vec<u8>, BiteError>)
        ensures
            match r {
                Ok(data) => ({
                    let s = old(self).stream();
                    let len = le_value(s.subrange(0, 4));
                    &&& s.len() >= 4 + len as int
                    &&& data@ == s.subrange(4, 4 + len as int)
                    &&& final(self).stream() == s.skip(4 + len as int)
                }),
                Err(e) => e == BiteError::UnexpectedEnd,
            },
    {
        let r = self.read_framed_max(usize::MAX);
        proof {
            let s = old(self).stream();
            if s.len() >= 4 {
                lemma_le_value_bound(s.subrange(0, 4));
                lemma_pow256_values();
            }
        }
        r
    }
}

impl<T: BiteRead> BiteReadExt for T {

}

} // verus!
