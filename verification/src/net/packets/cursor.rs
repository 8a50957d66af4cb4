//! A read head over the bytes of a packet.

use vstd::prelude::*;
use crate::net::packets::error::Error;

verus! {

/// The bytes of a buffer that have not been read yet. A read hands out bytes
/// from the front and moves past them; the buffer itself is never changed.
#[derive(Debug)]
pub struct Cursor {
    data: Vec<u8>,
    pos: usize,
}

impl View for Cursor {
    type V = Seq<u8>;

    /// The bytes that remain to be read.
    closed spec fn view(&self) -> Seq<u8> {
        if self.pos <= self.data@.len() {
            self.data@.subrange(self.pos as int, self.data@.len() as int)
        } else {
            Seq::empty()
        }
    }
}

impl Cursor {
    /// A cursor at the start of `data`.
    pub fn new(data: Vec<u8>) -> (res: Self)
        ensures
            res@ == data@,
    {
        proof {
            assert(data@.subrange(0, data@.len() as int) =~= data@);
        }
        Cursor { data, pos: 0 }
    }

    /// The number of bytes that remain.
    pub fn len(&self) -> (res: usize)
        ensures
            res == self@.len(),
    {
        if self.pos <= self.data.len() {
            self.data.len() - self.pos
        } else {
            0
        }
    }

    /// Whether every byte has been read.
    pub fn is_empty(&self) -> (res: bool)
        ensures
            res == (self@.len() == 0),
    {
        self.len() == 0
    }

    /// Hands out the next `n` bytes and moves past them. Where fewer than `n`
    /// remain, nothing is read.
    pub fn take(&mut self, n: usize) -> (res: Result<Vec<u8>, Error>)
        ensures
            n <= old(self)@.len() ==> res is Ok && res->Ok_0@ == old(self)@.take(n as int)
                && final(self)@ == old(self)@.skip(n as int),
            n > old(self)@.len() ==> res is Err && res->Err_0 == Error::TooSmallPacket
                && final(self)@ == old(self)@,
    {
        if n > self.len() {
            return Err(Error::TooSmallPacket);
        }
        let start: usize = if self.pos <= self.data.len() {
            self.pos
        } else {
            self.data.len()
        };
        let end: usize = start + n;
        let mut out: Vec<u8> = Vec::with_capacity(n);
        let mut i: usize = start;
        while i < end
            invariant
                start <= i <= end <= self.data@.len(),
                out@ == self.data@.subrange(start as int, i as int),
            decreases end - i,
        {
            out.push(self.data[i]);
            i += 1;
            proof {
                assert(out@ =~= self.data@.subrange(start as int, i as int));
            }
        }
        self.pos = end;
        proof {
            assert(out@ =~= old(self)@.take(n as int));
            assert(self@ =~= old(self)@.skip(n as int));
        }
        Ok(out)
    }

    /// A copy of the bytes that remain.
    pub fn remaining(&self) -> (res: Vec<u8>)
        ensures
            res@ == self@,
    {
        let mut out: Vec<u8> = Vec::new();
        if self.pos > self.data.len() {
            return out;
        }
        let mut i: usize = self.pos;
        while i < self.data.len()
            invariant
                self.pos <= i <= self.data@.len(),
                out@ == self.data@.subrange(self.pos as int, i as int),
            decreases self.data@.len() - i,
        {
            out.push(self.data[i]);
            i += 1;
            proof {
                assert(out@ =~= self.data@.subrange(self.pos as int, i as int));
            }
        }
        out
    }
}

} // verus!
