//! Values behind a copy-on-write wrapper. The wrapper leaves no trace on
//! the wire, and decoding always yields an owned value.

use crate::error::{Failure, LBSError};
use crate::format::{parse_str, str_outcome, str_wire, Parsed};
use crate::read::LBSRead;
use crate::stream::Reader;
use crate::write::LBSWrite;
use std::borrow::Cow;
use vstd::prelude::*;

verus! {

impl<'a, T: LBSWrite + Clone> LBSWrite for Cow<'a, T> {
    open spec fn wire(&self) -> Seq<u8> {
        match self {
            Cow::Borrowed(value) => value.wire(),
            Cow::Owned(value) => value.wire(),
        }
    }

    open spec fn outcome(&self) -> Result<(), Failure> {
        match self {
            Cow::Borrowed(value) => value.outcome(),
            Cow::Owned(value) => value.outcome(),
        }
    }

    open spec fn must_write(&self) -> bool {
        true
    }

    fn lbs_write(&self, w: &mut Vec<u8>) -> (res: Result<(), LBSError>) {
        match self {
            Cow::Borrowed(value) => value.lbs_write(w),
            Cow::Owned(value) => value.lbs_write(w),
        }
    }

    fn lbs_must_write(&self) -> (must: bool) {
        true
    }
}

impl<'a> LBSWrite for Cow<'a, str> {
    open spec fn wire(&self) -> Seq<u8> {
        str_wire(self@)
    }

    open spec fn outcome(&self) -> Result<(), Failure> {
        str_outcome(self@)
    }

    open spec fn must_write(&self) -> bool {
        true
    }

    fn lbs_write(&self, w: &mut Vec<u8>) -> (res: Result<(), LBSError>) {
        match self {
            Cow::Borrowed(text) => text.lbs_write(w),
            Cow::Owned(text) => text.lbs_write(w),
        }
    }

    fn lbs_must_write(&self) -> (must: bool) {
        true
    }
}

impl<'a, T: LBSRead + Clone> LBSRead for Cow<'a, T> {
    open spec fn parse(input: Seq<u8>) -> Parsed<T::V> {
        T::parse(input)
    }

    fn lbs_read(r: &mut Reader) -> (res: Result<Self, LBSError>) {
        Ok(Cow::Owned(T::lbs_read(r)?))
    }
}

impl<'a> LBSRead for Cow<'a, str> {
    open spec fn parse(input: Seq<u8>) -> Parsed<Seq<char>> {
        parse_str(input)
    }

    fn lbs_read(r: &mut Reader) -> (res: Result<Self, LBSError>) {
        Ok(Cow::Owned(String::lbs_read(r)?))
    }
}

} // verus!
