//! The byte source that the parsers draw from: a buffer in memory that hands
//! out its bytes front to back.

use vstd::prelude::*;
use crate::error::ID3Error;

verus! {

/// A byte source over a buffer in memory. Its view is the bytes that have not
/// been handed out yet.
#[derive(Debug)]
pub struct Reader {
    data: Vec<u8>,
    pos: usize,
}

impl View for Reader {
    type V = Seq<u8>;

    closed spec fn view(&self) -> Seq<u8> {
        self.data@.skip(self.pos as int)
    }
}

impl Reader {
    #[verifier::type_invariant]
    spec fn in_bounds(&self) -> bool {
        self.pos <= self.data.len()
    }

    /// A source that will hand out `data` from its first byte on.
    pub fn new(data: Vec<u8>) -> (reader: Self)
        ensures
            reader@ == data@,
    {
        Reader { data, pos: 0 }
    }

    /// The number of bytes that have not been handed out yet.
    pub fn remaining(&self) -> (n: usize)
        ensures
            n == self@.len(),
    {
        proof {
            use_type_invariant(self);
        }
        self.data.len() - self.pos
    }

    /// Hands out the next `n` bytes. Where fewer than `n` are left the read
    /// fails and the source is left exhausted.
    pub fn read_n_bytes(&mut self, n: usize) -> (r: Result<Vec<u8>, ID3Error>)
        ensures
            n <= old(self)@.len() ==> ({
                &&& r is Ok
                &&& r->Ok_0@ == old(self)@.take(n as int)
                &&& final(self)@ == old(self)@.skip(n as int)
            }),
            n > old(self)@.len() ==> ({
                &&& r matches Err(ID3Error::NotEnoughBytes)
                &&& final(self)@ == Seq::<u8>::empty()
            }),
    {
        proof {
            use_type_invariant(&*self);
        }
        let len: usize = self.data.len();
        if n > len - self.pos {
            self.pos = len;
            return Err(ID3Error::NotEnoughBytes);
        }
        let end: usize = self.pos + n;
        let mut buf: Vec<u8> = Vec::with_capacity(n);
        let mut i: usize = self.pos;
        while i < end
            invariant
                self.pos <= i <= end <= self.data.len(),
                buf@ == self.data@.subrange(self.pos as int, i as int),
            decreases end - i,
        {
            buf.push(self.data[i]);
            i = i + 1;
            assert(buf@ =~= self.data@.subrange(self.pos as int, i as int));
        }
        assert(buf@ =~= old(self)@.take(n as int));
        self.pos = end;
        assert(self@ =~= old(self)@.skip(n as int));
        Ok(buf)
    }

    /// Moves past the next `n` bytes without handing them out. Where fewer
    /// than `n` are left the skip fails and stops at the end of the data.
    pub fn skip_n_bytes(&mut self, n: usize) -> (r: Result<(), ID3Error>)
        ensures
            n <= old(self)@.len() ==> ({
                &&& r is Ok
                &&& final(self)@ == old(self)@.skip(n as int)
            }),
            n > old(self)@.len() ==> ({
                &&& r matches Err(ID3Error::NotEnoughBytes)
                &&& final(self)@ == Seq::<u8>::empty()
            }),
    {
        proof {
            use_type_invariant(&*self);
        }
        let len: usize = self.data.len();
        if n > len - self.pos {
            self.pos = len;
            return Err(ID3Error::NotEnoughBytes);
        }
        self.pos = self.pos + n;
        assert(self@ =~= old(self)@.skip(n as int));
        Ok(())
    }
}

} // verus!
