use vstd::prelude::*;
use vstd::slice::slice_subrange;

verus! {

/// A forward-only reader over an immutable byte buffer.
///
/// The reader never allocates and never backtracks: its only state is an
/// offset into the borrowed buffer, and every operation either leaves the
/// offset in place or moves it forward.
pub struct ByteReader<'a> {
    data: &'a [u8],
    offset: usize,
}

impl<'a> ByteReader<'a> {
    /// The whole underlying buffer, independent of the current position.
    pub closed spec fn bytes(&self) -> Seq<u8> {
        self.data@
    }

    /// The current read position.
    pub closed spec fn pos(&self) -> nat {
        self.offset as nat
    }

    #[verifier::type_invariant]
    closed spec fn wf(&self) -> bool {
        self.offset <= self.data@.len()
    }

    pub fn new(data: &'a [u8]) -> (reader: ByteReader<'a>)
        ensures
            reader.bytes() == data@,
            reader.pos() == 0,
    {
        ByteReader { data, offset: 0 }
    }

    /// Consumes and returns the byte at the current position, or `None` at
    /// the end of the buffer.
    pub fn read_byte(&mut self) -> (r: Option<u8>)
        ensures
            final(self).bytes() == old(self).bytes(),
            final(self).pos() <= final(self).bytes().len(),
            match r {
                Some(b) => old(self).pos() < old(self).bytes().len()
                    && b == old(self).bytes()[old(self).pos() as int]
                    && final(self).pos() == old(self).pos() + 1,
                None => old(self).pos() >= old(self).bytes().len()
                    && final(self).pos() == old(self).pos(),
            },
    {
        proof {
            use_type_invariant(&*self);
        }
        if self.offset >= self.data.len() {
            return None;
        }

        let byte = self.data[self.offset];

        self.offset = self.offset + 1;

        Some(byte)
    }

    /// Returns the byte at the current position without consuming it.
    pub fn peek_byte(&self) -> (r: Option<u8>)
        ensures
            match r {
                Some(b) => self.pos() < self.bytes().len() && b == self.bytes()[self.pos() as int],
                None => self.pos() >= self.bytes().len(),
            },
    {
        if self.offset >= self.data.len() {
            None
        } else {
            Some(self.data[self.offset])
        }
    }

    /// The number of bytes left between the current position and the end of
    /// the buffer.
    pub fn bytes_remaining(&self) -> (r: usize)
        ensures
            r == self.bytes().len() - self.pos(),
    {
        proof {
            use_type_invariant(&*self);
        }
        self.data.len() - self.offset
    }

    /// Consumes the maximal run of bytes satisfying `f`, starting at the
    /// current position, and returns the consumed bytes as a view into the
    /// underlying buffer.
    pub fn read_while<F: Fn(u8) -> bool>(&mut self, f: F) -> (r: &'a [u8])
        requires
            forall|b: u8| #[trigger] f.requires((b,)),
        ensures
            final(self).bytes() == old(self).bytes(),
            old(self).pos() <= final(self).pos() <= final(self).bytes().len(),
            forall|i: int| old(self).pos() <= i < final(self).pos()
                ==> f.ensures((old(self).bytes()[i],), true),
            final(self).pos() < final(self).bytes().len()
                ==> f.ensures((old(self).bytes()[final(self).pos() as int],), false),
            r@ == old(self).bytes().subrange(old(self).pos() as int, final(self).pos() as int),
    {
        proof {
            use_type_invariant(&*self);
        }
        let start = self.offset;

        loop
            invariant
                self.data@ == old(self).bytes(),
                start == old(self).pos(),
                start <= self.offset <= self.data@.len(),
                forall|i: int| start <= i < self.offset
                    ==> f.ensures((self.data@[i],), true),
                forall|b: u8| #[trigger] f.requires((b,)),
            ensures
                start <= self.offset <= self.data@.len(),
                self.data@ == old(self).bytes(),
                forall|i: int| start <= i < self.offset
                    ==> f.ensures((self.data@[i],), true),
                self.offset < self.data@.len()
                    ==> f.ensures((self.data@[self.offset as int],), false),
            decreases self.data@.len() - self.offset,
        {
            if self.offset >= self.data.len() {
                break;
            }

            if !f(self.data[self.offset]) {
                break;
            }

            self.offset = self.offset + 1;
        }

        slice_subrange(self.data, start, self.offset)
    }

    /// Consumes and returns exactly `length` bytes. Having enough bytes left
    /// is the caller's responsibility, stated as a precondition.
    pub fn slice(&mut self, length: usize) -> (r: &'a [u8])
        requires
            old(self).pos() + length <= old(self).bytes().len(),
        ensures
            final(self).bytes() == old(self).bytes(),
            final(self).pos() == old(self).pos() + length,
            r@ == old(self).bytes().subrange(old(self).pos() as int, old(self).pos() + length),
    {
        proof {
            use_type_invariant(&*self);
        }
        let total = self.data.len();
        assert(self.offset + length <= total);
        let s = slice_subrange(self.data, self.offset, self.offset + length);

        self.offset = self.offset + length;

        s
    }
}

} // verus!
