//! The input side of the codec: a cursor over bytes that are yet to be read.

use crate::error::{Failure, IoErrorKind, LBSError};
use vstd::prelude::*;
use vstd::slice::slice_subrange;

verus! {

/// A cursor over a byte buffer. Its view is the bytes not yet consumed.
pub struct Reader<'a> {
    rest: &'a [u8],
}

impl<'a> View for Reader<'a> {
    type V = Seq<u8>;

    closed spec fn view(&self) -> Seq<u8> {
        self.rest@
    }
}

impl<'a> Reader<'a> {
    /// A cursor at the start of `bytes`.
    pub fn new(bytes: &'a [u8]) -> (reader: Self)
        ensures
            reader@ == bytes@,
    {
        Reader { rest: bytes }
    }

    /// The number of bytes not yet consumed.
    pub fn remaining(&self) -> (count: usize)
        ensures
            count == self@.len(),
    {
        self.rest.len()
    }

    /// Whether every byte has been consumed.
    pub fn is_empty(&self) -> (empty: bool)
        ensures
            empty == (self@.len() == 0),
    {
        self.rest.len() == 0
    }

    /// Consumes the next `count` bytes. When fewer remain, nothing is
    /// consumed and the failure is an unexpected end of input.
    pub fn take(&mut self, count: usize) -> (taken: Result<&'a [u8], LBSError>)
        ensures
            match taken {
                Ok(bytes) => {
                    &&& count <= old(self)@.len()
                    &&& bytes@ == old(self)@.take(count as int)
                    &&& final(self)@ == old(self)@.skip(count as int)
                },
                Err(e) => {
                    &&& count > old(self)@.len()
                    &&& e@ == Failure::Io(IoErrorKind::UnexpectedEof)
                    &&& final(self)@ == old(self)@
                },
            },
    {
        let length = self.rest.len();
        if count > length {
            return Err(LBSError::Io(IoErrorKind::UnexpectedEof));
        }
        let head = slice_subrange(self.rest, 0, count);
        let tail = slice_subrange(self.rest, count, length);
        self.rest = tail;
        Ok(head)
    }
}

} // verus!
