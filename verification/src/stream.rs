//! The byte-stream collaborator interface, and an in-memory stream.
//!
//! The codec needs exactly two operations of a stream: read exactly `n`
//! bytes or fail, and write all given bytes or fail. `BiteRead` and
//! `BiteWrite` state those contracts; [`Cursor`] implements both over a
//! buffer in memory, and every implementor gets the typed operations of
//! [`crate::read`] and [`crate::write`].

use vstd::prelude::*;

verus! {

/// An error surfaced by the stream layer or the framing protocol.
#[derive(Clone, Copy, Debug, PartialEq, Eq, Structural)]
pub enum BiteError {
    /// The stream ended early, or could not provide or accept the bytes.
    UnexpectedEnd,
    /// A frame's length prefix is above the configured maximum.
    InvalidData,
}

/// A readable byte stream: something that can hand over exactly the
/// requested number of bytes, or fail.
pub trait BiteRead: Sized {
    /// The bytes not yet consumed.
    spec fn stream(&self) -> Seq<u8>;

    /// Fills `buffer` completely with the next bytes of the stream and
    /// consumes them, or fails with `UnexpectedEnd`, leaving the stream in
    /// an unspecified state.
    fn read_exact(&mut self, buffer: &mut Vec<u8>) -> (r: Result<(), BiteError>)
        ensures
            final(buffer)@.len() == old(buffer)@.len(),
            match r {
                Ok(()) => old(self).stream().len() >= old(buffer)@.len() && final(buffer)@ == old(
                    self,
                ).stream().subrange(0, old(buffer)@.len() as int) && final(self).stream() == old(
                    self,
                ).stream().skip(old(buffer)@.len() as int),
                Err(e) => e == BiteError::UnexpectedEnd,
            },
    ;
}

/// A writable byte stream: something that accepts all given bytes, or fails.
pub trait BiteWrite: Sized {
    /// The bytes written so far.
    spec fn sink(&self) -> Seq<u8>;

    /// Appends all of `buffer` to the stream, or fails with `UnexpectedEnd`,
    /// leaving the sink in an unspecified, possibly partially written state.
    fn write_all(&mut self, buffer: &[u8]) -> (r: Result<(), BiteError>)
        ensures
            match r {
                Ok(()) => final(self).sink() == old(self).sink() + buffer@,
                Err(e) => e == BiteError::UnexpectedEnd,
            },
    ;
}

/// A zero-filled buffer of the given length: the scratch window that a
/// typed read fills.
pub(crate) fn zeroed(n: usize) -> (r: Vec<u8>)
    ensures
        r@.len() == n,
{
    let mut data: Vec<u8> = Vec::new();
    let mut k: usize = 0;
    while k < n
        invariant
            k <= n,
            data@.len() == k,
        decreases n - k,
    {
        data.push(0);
        k = k + 1;
    }
    data
}

/// An in-memory byte stream: reads consume from the front of the buffer,
/// writes append to its end.
pub struct Cursor {
    data: Vec<u8>,
    position: usize,
}

impl Cursor {
    #[verifier::type_invariant]
    closed spec fn wf(&self) -> bool {
        self.position <= self.data@.len()
    }

    /// The bytes still to be read.
    pub closed spec fn remaining(&self) -> Seq<u8> {
        if self.position <= self.data@.len() {
            self.data@.skip(self.position as int)
        } else {
            Seq::empty()
        }
    }

    /// Every byte held, consumed or not.
    pub closed spec fn contents(&self) -> Seq<u8> {
        self.data@
    }

    /// A stream over `data`, positioned at its first byte.
    pub fn new(data: Vec<u8>) -> (r: Cursor)
        ensures
            r.remaining() == data@,
            r.contents() == data@,
    {
        let c = Cursor { data, position: 0 };
        proof {
            assert(c.remaining() =~= c.data@);
        }
        c
    }

    /// Hands the underlying buffer back.
    pub fn into_inner(self) -> (r: Vec<u8>)
        ensures
            r@ == self.contents(),
    {
        self.data
    }
}

impl BiteRead for Cursor {
    open spec fn stream(&self) -> Seq<u8> {
        self.remaining()
    }

    fn read_exact(&mut self, buffer: &mut Vec<u8>) -> (r: Result<(), BiteError>)
        ensures
            r is Ok <==> old(self).remaining().len() >= old(buffer)@.len(),
            r is Err ==> *final(self) == *old(self) && final(buffer)@ == old(buffer)@,
    {
        proof {
            use_type_invariant(&*self);
        }
        let n = buffer.len();
        let total = self.data.len();
        if total - self.position < n {
            return Err(BiteError::UnexpectedEnd);
        }
        let ghost gdata = self.data@;
        let ghost gpos = self.position as int;
        let mut k: usize = 0;
        while k < n
            invariant
                k <= n,
                n == buffer@.len(),
                self.data@ == gdata,
                self.position == gpos,
                gpos + n <= gdata.len(),
                gdata.len() == total,
                forall|t: int| 0 <= t < k ==> buffer@[t] == gdata[gpos + t],
            decreases n - k,
        {
            let b = self.data[self.position + k];
            buffer.set(k, b);
            k = k + 1;
        }
        self.position = self.position + n;
        proof {
            assert(buffer@ =~= gdata.skip(gpos).subrange(0, n as int));
            assert(self.remaining() =~= gdata.skip(gpos).skip(n as int));
        }
        Ok(())
    }
}

impl BiteWrite for Cursor {
    open spec fn sink(&self) -> Seq<u8> {
        self.contents()
    }

    fn write_all(&mut self, buffer: &[u8]) -> (r: Result<(), BiteError>)
        ensures
            r is Ok,
            final(self).remaining() == old(self).remaining() + buffer@,
    {
        proof {
            use_type_invariant(&*self);
        }
        let pos = self.position;
        self.position = 0;
        let mut d: Vec<u8> = Vec::new();
        std::mem::swap(&mut d, &mut self.data);
        let ghost gdata = d@;
        let n = buffer.len();
        let mut k: usize = 0;
        while k < n
            invariant
                k <= n,
                n == buffer@.len(),
                d@ == gdata + buffer@.subrange(0, k as int),
            decreases n - k,
        {
            let b = buffer[k];
            d.push(b);
            k = k + 1;
            proof {
                assert(d@ =~= gdata + buffer@.subrange(0, k as int));
            }
        }
        proof {
            assert(d@ =~= gdata + buffer@);
        }
        std::mem::swap(&mut d, &mut self.data);
        self.position = pos;
        proof {
            assert(self.remaining() =~= old(self).remaining() + buffer@);
        }
        Ok(())
    }
}

} // verus!
