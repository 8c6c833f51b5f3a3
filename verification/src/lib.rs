//! A binary codec for integers of one to sixteen bytes, parameterized by
//! byte order, together with a length-prefixed framing protocol over a byte
//! stream.
//!
//! The [`Endianness`] trait carries the codec: reads and writes of fixed-
//! and variable-width integers against an exact-length byte window, with
//! sign extension across arbitrary widths and the minimal-width rule of
//! [`pack_size`] for writers. [`BiteRead`] and [`BiteWrite`] are the two
//! operations the codec asks of a byte stream; every implementor, such as
//! the in-memory [`Cursor`], gets the typed stream operations of
//! [`BiteReadExpandedExt`] and [`BiteWriteExpandedExt`], their
//! little-endian shorthands [`BiteReadExt`] and [`BiteWriteExt`], and the
//! framing reader with its ceiling against hostile length fields.
//!
//! Every contract is stated over the base-256 model of [`model`], and
//! [`laws`] states the round trips of the codec and of the framing
//! protocol once, proved for every input.

pub mod codec;
pub mod endian;
pub mod laws;
pub mod le_read;
pub mod le_write;
pub mod model;
pub mod read;
pub mod stream;
pub mod write;

pub use codec::{pack_size, pack_size128};
pub use endian::{BigEndian, Endianness, LittleEndian, NetworkEndian};
pub use endian::{extend_sign, extend_sign128, unextend_sign, unextend_sign128};
pub use le_read::BiteReadExt;
pub use le_write::BiteWriteExt;
pub use read::BiteReadExpandedExt;
pub use stream::{BiteError, BiteRead, BiteWrite, Cursor};
pub use write::BiteWriteExpandedExt;
