//! A forward-only cursor over a byte buffer.

use crate::error::ErrorKind;
use vstd::prelude::*;
use vstd::slice::slice_subrange;

verus! {

/// A position in a borrowed byte buffer that only moves forward.
pub struct Cursor<'a> {
    data: &'a [u8],
    pos: usize,
}

impl<'a> Cursor<'a> {
    /// The whole buffer under the cursor.
    pub closed spec fn input(&self) -> Seq<u8> {
        self.data@
    }

    /// How many bytes have been read.
    pub closed spec fn consumed(&self) -> nat {
        self.pos as nat
    }

    /// The cursor stands inside its buffer.
    pub open spec fn wf(&self) -> bool {
        self.consumed() <= self.input().len() <= usize::MAX
    }

    /// The bytes that have not been read.
    pub open spec fn ahead(&self) -> Seq<u8> {
        self.input().skip(self.consumed() as int)
    }

    /// A cursor at the start of `data`.
    pub fn new(data: &'a [u8]) -> (c: Self)
        ensures
            c.wf(),
            c.input() == data@,
            c.consumed() == 0,
    {
        // Asking for the length tells the proof that it fits a `usize`.
        let _ = data.len();
        Cursor { data, pos: 0 }
    }

    /// The number of bytes read so far.
    pub fn position(&self) -> (r: usize)
        ensures
            r == self.consumed(),
    {
        self.pos
    }

    /// The number of bytes still ahead.
    pub fn remaining(&self) -> (r: usize)
        requires
            self.wf(),
        ensures
            r == self.ahead().len(),
    {
        self.data.len() - self.pos
    }

    /// The bytes still ahead, without moving.
    pub fn peek(&self) -> (r: &'a [u8])
        requires
            self.wf(),
        ensures
            r@ == self.ahead(),
    {
        slice_subrange(self.data, self.pos, self.data.len())
    }

    /// Reads the next `count` bytes, or fails with `UnexpectedEof` and stays
    /// in place where fewer are ahead.
    pub fn take(&mut self, count: usize) -> (r: Result<&'a [u8], ErrorKind>)
        requires
            old(self).wf(),
        ensures
            final(self).wf(),
            final(self).input() == old(self).input(),
            count <= old(self).ahead().len() ==> r is Ok && r.unwrap()@ == old(self).ahead().subrange(
                0,
                count as int,
            ) && final(self).consumed() == old(self).consumed() + count,
            count > old(self).ahead().len() ==> r == Err::<&[u8], ErrorKind>(
                ErrorKind::UnexpectedEof,
            ) && final(self).consumed() == old(self).consumed(),
    {
        if count > self.data.len() - self.pos {
            Err(ErrorKind::UnexpectedEof)
        } else {
            let out = slice_subrange(self.data, self.pos, self.pos + count);
            self.pos = self.pos + count;
            Ok(out)
        }
    }
}

} // verus!
