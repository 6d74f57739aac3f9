//! The byte cursor: one received chunk and a read position in it.

use vstd::prelude::*;
use vstd::slice::slice_subrange;

verus! {

/// One chunk of inbound bytes together with the position of the first
/// unread byte. The position never passes the end of the chunk.
pub struct ByteCursor<'a> {
    bytes: &'a [u8],
    offset: usize,
}

impl<'a> ByteCursor<'a> {
    /// All bytes of the chunk, read or not.
    pub closed spec fn chunk(&self) -> Seq<u8> {
        self.bytes@
    }

    /// Number of bytes already consumed.
    pub closed spec fn position(&self) -> nat {
        self.offset as nat
    }

    /// The position is inside the chunk or at its end. This holds of every
    /// cursor there is.
    #[verifier::type_invariant]
    pub open spec fn in_bounds(&self) -> bool {
        self.position() <= self.chunk().len()
    }

    /// The unread bytes, in order.
    pub open spec fn unread(&self) -> Seq<u8> {
        self.chunk().skip(self.position() as int)
    }

    /// Wraps a chunk, with nothing consumed yet.
    pub fn new(bytes: &'a [u8]) -> (cursor: Self)
        ensures
            cursor.chunk() == bytes@,
            cursor.position() == 0,
    {
        ByteCursor { bytes, offset: 0 }
    }

    /// Number of bytes already consumed.
    pub fn offset(&self) -> (n: usize)
        ensures
            n == self.position(),
            n <= self.chunk().len(),
    {
        proof {
            use_type_invariant(self);
        }
        self.offset
    }

    /// The bytes consumed since the position was `from`.
    pub fn consumed_since(&self, from: usize) -> (bytes: &'a [u8])
        requires
            from <= self.position(),
        ensures
            bytes@ == self.chunk().subrange(from as int, self.position() as int),
    {
        proof {
            use_type_invariant(self);
        }
        slice_subrange(self.bytes, from, self.offset)
    }

    /// Count of unread bytes.
    pub fn remaining(&self) -> (n: usize)
        ensures
            n == self.unread().len(),
            n == self.chunk().len() - self.position(),
            self.position() <= self.chunk().len(),
    {
        proof {
            use_type_invariant(self);
        }
        self.bytes.len() - self.offset
    }

    /// True exactly when every byte of the chunk has been consumed.
    pub fn at_end(&self) -> (end: bool)
        ensures
            end <==> self.position() == self.chunk().len(),
            end <==> self.unread().len() == 0,
    {
        proof {
            use_type_invariant(self);
        }
        self.offset == self.bytes.len()
    }

    /// Consumes exactly `n` bytes, or none at all: when fewer than `n`
    /// bytes are unread the cursor is left as it was and `None` signals that
    /// more input is needed.
    pub fn take(&mut self, n: usize) -> (taken: Option<&'a [u8]>)
        ensures
            final(self).chunk() == old(self).chunk(),
            match taken {
                Some(bytes) => {
                    &&& n <= old(self).unread().len()
                    &&& bytes@ == old(self).unread().take(n as int)
                    &&& final(self).position() == old(self).position() + n
                },
                None => {
                    &&& n > old(self).unread().len()
                    &&& final(self).position() == old(self).position()
                },
            },
    {
        proof {
            use_type_invariant(&*self);
        }
        if n > self.bytes.len() - self.offset {
            None
        } else {
            let start = self.offset;
            let out = slice_subrange(self.bytes, start, start + n);
            self.offset = start + n;
            assert(out@ == self.bytes@.skip(start as int).take(n as int));
            Some(out)
        }
    }
}

} // verus!
