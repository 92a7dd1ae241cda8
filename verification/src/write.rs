//! Encoding: the trait by which a type states its wire form, and its
//! implementations for the simple and the composite values.

use crate::endian::{le_bytes, lemma_radix_values, put_le, radix};
use crate::error::{Failure, LBSError, IoErrorKind};
use crate::format::{
    bool_wire, char_wire, len_outcome, len_written, signed_wire, str_outcome, str_wire,
};
use std::ops::Range;
use std::rc::Rc;
use std::sync::Arc;
use vstd::prelude::*;

verus! {

/// The mathematical content of what a write returned.
pub open spec fn written(res: Result<(), LBSError>) -> Result<(), Failure> {
    match res {
        Ok(_) => Ok(()),
        Err(e) => Err(e@),
    }
}

/// A value that can be encoded.
pub trait LBSWrite {
    /// The bytes that [`LBSWrite::lbs_write`] appends to the sink. When the
    /// write fails, these are the bytes appended before it failed.
    spec fn wire(&self) -> Seq<u8>;

    /// How writing this value ends.
    spec fn outcome(&self) -> Result<(), Failure>;

    /// Whether a record has to write a field that holds this value: false
    /// for a value that decoding restores without reading anything.
    spec fn must_write(&self) -> bool;

    /// Appends the encoding of this value to `w`.
    fn lbs_write(&self, w: &mut Vec<u8>) -> (res: Result<(), LBSError>)
        ensures
            final(w)@ == old(w)@ + self.wire(),
            written(res) == self.outcome(),
    ;

    /// Whether a record has to write a field that holds this value.
    fn lbs_must_write(&self) -> (must: bool)
        ensures
            must == self.must_write(),
    ;
}

/// Appends `bytes` to `sink`.
pub fn append(sink: &mut Vec<u8>, bytes: &[u8])
    ensures
        final(sink)@ == old(sink)@ + bytes@,
{
    let ghost before = sink@;
    let mut index: usize = 0;
    while index < bytes.len()
        invariant
            index <= bytes@.len(),
            sink@ == before + bytes@.take(index as int),
        decreases bytes@.len() - index,
    {
        sink.push(bytes[index]);
        index += 1;
        assert(sink@ =~= before + bytes@.take(index as int));
    }
    assert(bytes@.take(index as int) =~= bytes@);
}

impl LBSWrite for u8 {
    open spec fn wire(&self) -> Seq<u8> {
        le_bytes(*self as nat, 1)
    }

    open spec fn outcome(&self) -> Result<(), Failure> {
        Ok(())
    }

    open spec fn must_write(&self) -> bool {
        *self != 0
    }

    fn lbs_write(&self, w: &mut Vec<u8>) -> (res: Result<(), LBSError>) {
        put_le(w, *self as u128, 1);
        Ok(())
    }

    fn lbs_must_write(&self) -> (must: bool) {
        *self != 0
    }
}

impl LBSWrite for u16 {
    open spec fn wire(&self) -> Seq<u8> {
        le_bytes(*self as nat, 2)
    }

    open spec fn outcome(&self) -> Result<(), Failure> {
        Ok(())
    }

    open spec fn must_write(&self) -> bool {
        *self != 0
    }

    fn lbs_write(&self, w: &mut Vec<u8>) -> (res: Result<(), LBSError>) {
        put_le(w, *self as u128, 2);
        Ok(())
    }

    fn lbs_must_write(&self) -> (must: bool) {
        *self != 0
    }
}

impl LBSWrite for u32 {
    open spec fn wire(&self) -> Seq<u8> {
        le_bytes(*self as nat, 4)
    }

    open spec fn outcome(&self) -> Result<(), Failure> {
        Ok(())
    }

    open spec fn must_write(&self) -> bool {
        *self != 0
    }

    fn lbs_write(&self, w: &mut Vec<u8>) -> (res: Result<(), LBSError>) {
        put_le(w, *self as u128, 4);
        Ok(())
    }

    fn lbs_must_write(&self) -> (must: bool) {
        *self != 0
    }
}

impl LBSWrite for u64 {
    open spec fn wire(&self) -> Seq<u8> {
        le_bytes(*self as nat, 8)
    }

    open spec fn outcome(&self) -> Result<(), Failure> {
        Ok(())
    }

    open spec fn must_write(&self) -> bool {
        *self != 0
    }

    fn lbs_write(&self, w: &mut Vec<u8>) -> (res: Result<(), LBSError>) {
        put_le(w, *self as u128, 8);
        Ok(())
    }

    fn lbs_must_write(&self) -> (must: bool) {
        *self != 0
    }
}

impl LBSWrite for usize {
    open spec fn wire(&self) -> Seq<u8> {
        le_bytes(*self as nat, 8)
    }

    open spec fn outcome(&self) -> Result<(), Failure> {
        Ok(())
    }

    open spec fn must_write(&self) -> bool {
        *self != 0
    }

    fn lbs_write(&self, w: &mut Vec<u8>) -> (res: Result<(), LBSError>) {
        put_le(w, *self as u128, 8);
        Ok(())
    }

    fn lbs_must_write(&self) -> (must: bool) {
        *self != 0
    }
}

impl LBSWrite for u128 {
    open spec fn wire(&self) -> Seq<u8> {
        le_bytes(*self as nat, 16)
    }

    open spec fn outcome(&self) -> Result<(), Failure> {
        Ok(())
    }

    open spec fn must_write(&self) -> bool {
        *self != 0
    }

    fn lbs_write(&self, w: &mut Vec<u8>) -> (res: Result<(), LBSError>) {
        put_le(w, *self as u128, 16);
        Ok(())
    }

    fn lbs_must_write(&self) -> (must: bool) {
        *self != 0
    }
}

impl LBSWrite for i8 {
    open spec fn wire(&self) -> Seq<u8> {
        signed_wire(*self as int, 1)
    }

    open spec fn outcome(&self) -> Result<(), Failure> {
        Ok(())
    }

    open spec fn must_write(&self) -> bool {
        *self != 0
    }

    fn lbs_write(&self, w: &mut Vec<u8>) -> (res: Result<(), LBSError>) {
        proof {
            lemma_radix_values();
        }
        write_signed(w, *self as i128, 1);
        Ok(())
    }

    fn lbs_must_write(&self) -> (must: bool) {
        *self != 0
    }
}

impl LBSWrite for i16 {
    open spec fn wire(&self) -> Seq<u8> {
        signed_wire(*self as int, 2)
    }

    open spec fn outcome(&self) -> Result<(), Failure> {
        Ok(())
    }

    open spec fn must_write(&self) -> bool {
        *self != 0
    }

    fn lbs_write(&self, w: &mut Vec<u8>) -> (res: Result<(), LBSError>) {
        proof {
            lemma_radix_values();
        }
        write_signed(w, *self as i128, 2);
        Ok(())
    }

    fn lbs_must_write(&self) -> (must: bool) {
        *self != 0
    }
}

impl LBSWrite for i32 {
    open spec fn wire(&self) -> Seq<u8> {
        signed_wire(*self as int, 4)
    }

    open spec fn outcome(&self) -> Result<(), Failure> {
        Ok(())
    }

    open spec fn must_write(&self) -> bool {
        *self != 0
    }

    fn lbs_write(&self, w: &mut Vec<u8>) -> (res: Result<(), LBSError>) {
        proof {
            lemma_radix_values();
        }
        write_signed(w, *self as i128, 4);
        Ok(())
    }

    fn lbs_must_write(&self) -> (must: bool) {
        *self != 0
    }
}

impl LBSWrite for i64 {
    open spec fn wire(&self) -> Seq<u8> {
        signed_wire(*self as int, 8)
    }

    open spec fn outcome(&self) -> Result<(), Failure> {
        Ok(())
    }

    open spec fn must_write(&self) -> bool {
        *self != 0
    }

    fn lbs_write(&self, w: &mut Vec<u8>) -> (res: Result<(), LBSError>) {
        proof {
            lemma_radix_values();
        }
        write_signed(w, *self as i128, 8);
        Ok(())
    }

    fn lbs_must_write(&self) -> (must: bool) {
        *self != 0
    }
}

impl LBSWrite for isize {
    open spec fn wire(&self) -> Seq<u8> {
        signed_wire(*self as int, 8)
    }

    open spec fn outcome(&self) -> Result<(), Failure> {
        Ok(())
    }

    open spec fn must_write(&self) -> bool {
        *self != 0
    }

    fn lbs_write(&self, w: &mut Vec<u8>) -> (res: Result<(), LBSError>) {
        proof {
            lemma_radix_values();
        }
        write_signed(w, *self as i128, 8);
        Ok(())
    }

    fn lbs_must_write(&self) -> (must: bool) {
        *self != 0
    }
}

impl LBSWrite for i128 {
    open spec fn wire(&self) -> Seq<u8> {
        signed_wire(*self as int, 16)
    }

    open spec fn outcome(&self) -> Result<(), Failure> {
        Ok(())
    }

    open spec fn must_write(&self) -> bool {
        *self != 0
    }

    fn lbs_write(&self, w: &mut Vec<u8>) -> (res: Result<(), LBSError>) {
        proof {
            lemma_radix_values();
        }
        write_signed(w, *self as i128, 16);
        Ok(())
    }

    fn lbs_must_write(&self) -> (must: bool) {
        *self != 0
    }
}

impl LBSWrite for () {
    open spec fn wire(&self) -> Seq<u8> {
        Seq::empty()
    }

    open spec fn outcome(&self) -> Result<(), Failure> {
        Ok(())
    }

    open spec fn must_write(&self) -> bool {
        true
    }

    fn lbs_write(&self, w: &mut Vec<u8>) -> (res: Result<(), LBSError>) {
        assert(w@ + Seq::<u8>::empty() =~= w@);
        Ok(())
    }

    fn lbs_must_write(&self) -> (must: bool) {
        true
    }
}

impl<T1: LBSWrite, T2: LBSWrite> LBSWrite for (T1, T2) {
    open spec fn wire(&self) -> Seq<u8> {
        if self.0.outcome() is Ok {
            self.0.wire() + self.1.wire()
        } else {
            self.0.wire()
        }
    }

    open spec fn outcome(&self) -> Result<(), Failure> {
        if self.0.outcome() is Ok {
            self.1.outcome()
        } else {
            self.0.outcome()
        }
    }

    open spec fn must_write(&self) -> bool {
        true
    }

    fn lbs_write(&self, w: &mut Vec<u8>) -> (res: Result<(), LBSError>) {
        let ghost before = w@;
        self.0.lbs_write(w)?;
        let second = self.1.lbs_write(w);
        assert(w@ =~= before + (self.0.wire() + self.1.wire()));
        second
    }

    fn lbs_must_write(&self) -> (must: bool) {
        true
    }
}

impl<T1: LBSWrite, T2: LBSWrite, T3: LBSWrite> LBSWrite for (T1, T2, T3) {
    open spec fn wire(&self) -> Seq<u8> {
        if self.0.outcome() is Err {
            self.0.wire()
        } else if self.1.outcome() is Err {
            self.0.wire() + self.1.wire()
        } else {
            self.0.wire() + self.1.wire() + self.2.wire()
        }
    }

    open spec fn outcome(&self) -> Result<(), Failure> {
        if self.0.outcome() is Err {
            self.0.outcome()
        } else if self.1.outcome() is Err {
            self.1.outcome()
        } else {
            self.2.outcome()
        }
    }

    open spec fn must_write(&self) -> bool {
        true
    }

    fn lbs_write(&self, w: &mut Vec<u8>) -> (res: Result<(), LBSError>) {
        let ghost before = w@;
        self.0.lbs_write(w)?;
        let second = self.1.lbs_write(w);
        assert(w@ =~= before + (self.0.wire() + self.1.wire()));
        second?;
        let third = self.2.lbs_write(w);
        assert(w@ =~= before + (self.0.wire() + self.1.wire() + self.2.wire()));
        third
    }

    fn lbs_must_write(&self) -> (must: bool) {
        true
    }
}

impl LBSWrite for bool {
    open spec fn wire(&self) -> Seq<u8> {
        bool_wire(*self)
    }

    open spec fn outcome(&self) -> Result<(), Failure> {
        Ok(())
    }

    open spec fn must_write(&self) -> bool {
        *self
    }

    fn lbs_write(&self, w: &mut Vec<u8>) -> (res: Result<(), LBSError>) {
        if *self {
            (1_u8).lbs_write(w)
        } else {
            (0_u8).lbs_write(w)
        }
    }

    fn lbs_must_write(&self) -> (must: bool) {
        *self
    }
}

impl LBSWrite for char {
    open spec fn wire(&self) -> Seq<u8> {
        char_wire(*self)
    }

    open spec fn outcome(&self) -> Result<(), Failure> {
        Ok(())
    }

    open spec fn must_write(&self) -> bool {
        true
    }

    fn lbs_write(&self, w: &mut Vec<u8>) -> (res: Result<(), LBSError>) {
        write_char(w, *self)
    }

    fn lbs_must_write(&self) -> (must: bool) {
        true
    }
}

impl LBSWrite for str {
    open spec fn wire(&self) -> Seq<u8> {
        str_wire(self@)
    }

    open spec fn outcome(&self) -> Result<(), Failure> {
        str_outcome(self@)
    }

    open spec fn must_write(&self) -> bool {
        self@.len() != 0
    }

    fn lbs_write(&self, w: &mut Vec<u8>) -> (res: Result<(), LBSError>) {
        let ghost before = w@;
        let bytes = self.as_bytes();
        write_len(w, bytes.len())?;
        append(w, bytes);
        assert(w@ =~= before + str_wire(self@));
        Ok(())
    }

    fn lbs_must_write(&self) -> (must: bool) {
        !self.is_empty()
    }
}

impl LBSWrite for String {
    open spec fn wire(&self) -> Seq<u8> {
        str_wire(self@)
    }

    open spec fn outcome(&self) -> Result<(), Failure> {
        str_outcome(self@)
    }

    open spec fn must_write(&self) -> bool {
        self@.len() != 0
    }

    fn lbs_write(&self, w: &mut Vec<u8>) -> (res: Result<(), LBSError>) {
        self.as_str().lbs_write(w)
    }

    fn lbs_must_write(&self) -> (must: bool) {
        self.as_str().lbs_must_write()
    }
}

impl<T: LBSWrite + PartialOrd> LBSWrite for Range<T> {
    open spec fn wire(&self) -> Seq<u8> {
        if self.start.outcome() is Ok {
            self.start.wire() + self.end.wire()
        } else {
            self.start.wire()
        }
    }

    open spec fn outcome(&self) -> Result<(), Failure> {
        if self.start.outcome() is Ok {
            self.end.outcome()
        } else {
            self.start.outcome()
        }
    }

    open spec fn must_write(&self) -> bool {
        true
    }

    fn lbs_write(&self, w: &mut Vec<u8>) -> (res: Result<(), LBSError>) {
        let ghost before = w@;
        self.start.lbs_write(w)?;
        let second = self.end.lbs_write(w);
        assert(w@ =~= before + (self.start.wire() + self.end.wire()));
        second
    }

    fn lbs_must_write(&self) -> (must: bool) {
        true
    }
}

impl<T: LBSWrite> LBSWrite for Box<T> {
    open spec fn wire(&self) -> Seq<u8> {
        (**self).wire()
    }

    open spec fn outcome(&self) -> Result<(), Failure> {
        (**self).outcome()
    }

    open spec fn must_write(&self) -> bool {
        true
    }

    fn lbs_write(&self, w: &mut Vec<u8>) -> (res: Result<(), LBSError>) {
        (**self).lbs_write(w)
    }

    fn lbs_must_write(&self) -> (must: bool) {
        true
    }
}

impl<T: LBSWrite> LBSWrite for Rc<T> {
    open spec fn wire(&self) -> Seq<u8> {
        (**self).wire()
    }

    open spec fn outcome(&self) -> Result<(), Failure> {
        (**self).outcome()
    }

    open spec fn must_write(&self) -> bool {
        true
    }

    fn lbs_write(&self, w: &mut Vec<u8>) -> (res: Result<(), LBSError>) {
        (**self).lbs_write(w)
    }

    fn lbs_must_write(&self) -> (must: bool) {
        true
    }
}

impl<T: LBSWrite> LBSWrite for Arc<T> {
    open spec fn wire(&self) -> Seq<u8> {
        (**self).wire()
    }

    open spec fn outcome(&self) -> Result<(), Failure> {
        (**self).outcome()
    }

    open spec fn must_write(&self) -> bool {
        true
    }

    fn lbs_write(&self, w: &mut Vec<u8>) -> (res: Result<(), LBSError>) {
        (**self).lbs_write(w)
    }

    fn lbs_must_write(&self) -> (must: bool) {
        true
    }
}

impl<T: LBSWrite> LBSWrite for Option<T> {
    open spec fn wire(&self) -> Seq<u8> {
        match self {
            Some(value) => bool_wire(true) + value.wire(),
            None => bool_wire(false),
        }
    }

    open spec fn outcome(&self) -> Result<(), Failure> {
        match self {
            Some(value) => value.outcome(),
            None => Ok(()),
        }
    }

    open spec fn must_write(&self) -> bool {
        self is Some
    }

    fn lbs_write(&self, w: &mut Vec<u8>) -> (res: Result<(), LBSError>) {
        let ghost before = w@;
        if let Some(v) = self {
            (1_u8).lbs_write(w)?;
            let inner = v.lbs_write(w);
            assert(w@ =~= before + (bool_wire(true) + v.wire()));
            inner
        } else {
            (0_u8).lbs_write(w)
        }
    }

    fn lbs_must_write(&self) -> (must: bool) {
        self.is_some()
    }
}

/// What writing the items one after another appends, up to and including the
/// first that fails.
pub open spec fn wire_each<T: LBSWrite>(items: Seq<T>) -> Seq<u8>
    decreases items.len(),
{
    if items.len() == 0 {
        Seq::empty()
    } else if items[0].outcome() is Ok {
        items[0].wire() + wire_each(items.drop_first())
    } else {
        items[0].wire()
    }
}

/// How writing the items one after another ends: with the first failure.
pub open spec fn outcome_each<T: LBSWrite>(items: Seq<T>) -> Result<(), Failure>
    decreases items.len(),
{
    if items.len() == 0 {
        Ok(())
    } else if items[0].outcome() is Ok {
        outcome_each(items.drop_first())
    } else {
        items[0].outcome()
    }
}

/// What writing a collection appends: the count of its items, then the
/// items in iteration order. A count that does not fit is not written.
pub open spec fn list_wire<T: LBSWrite>(items: Seq<T>) -> Seq<u8> {
    if len_outcome(items.len()) is Ok {
        len_written(items.len()) + wire_each(items)
    } else {
        Seq::empty()
    }
}

/// How writing a collection ends.
pub open spec fn list_outcome<T: LBSWrite>(items: Seq<T>) -> Result<(), Failure> {
    if len_outcome(items.len()) is Ok {
        outcome_each(items)
    } else {
        len_outcome(items.len())
    }
}

impl<T: LBSWrite> LBSWrite for Vec<T> {
    open spec fn wire(&self) -> Seq<u8> {
        list_wire(self@)
    }

    open spec fn outcome(&self) -> Result<(), Failure> {
        list_outcome(self@)
    }

    open spec fn must_write(&self) -> bool {
        self@.len() != 0
    }

    fn lbs_write(&self, w: &mut Vec<u8>) -> (res: Result<(), LBSError>) {
        let ghost before = w@;
        write_len(w, self.len())?;
        let ghost target = w@ + wire_each(self@);
        let mut index: usize = 0;
        assert(self@.skip(0) =~= self@);
        assert(target =~= before + (len_written(self@.len()) + wire_each(self@)));
        while index < self.len()
            invariant
                index <= self@.len(),
                len_outcome(self@.len()) is Ok,
                target == old(w)@ + (len_written(self@.len()) + wire_each(self@)),
                target == w@ + wire_each(self@.skip(index as int)),
                outcome_each(self@) == outcome_each(self@.skip(index as int)),
            decreases self@.len() - index,
        {
            let ghost left = self@.skip(index as int);
            let ghost so_far = w@;
            assert(left.drop_first() =~= self@.skip(index + 1));
            let item = self[index].lbs_write(w);
            if item.is_err() {
                return item;
            }
            assert(so_far + wire_each(left) =~= w@ + wire_each(left.drop_first()));
            index += 1;
        }
        assert(w@ + Seq::<u8>::empty() =~= w@);
        Ok(())
    }

    fn lbs_must_write(&self) -> (must: bool) {
        self.len() != 0
    }
}

/// Appends the two's complement of `n` in `width` bytes to `w`.
pub(crate) fn write_signed(w: &mut Vec<u8>, n: i128, width: usize)
    requires
        width == 1 || width == 2 || width == 4 || width == 8 || width == 16,
        -(radix(width as nat) as int) <= 2 * n < radix(width as nat),
    ensures
        final(w)@ == old(w)@ + signed_wire(n as int, width as nat),
{
    proof {
        lemma_radix_values();
    }
    let pattern: u128 = if n >= 0 {
        n as u128
    } else if width == 1 {
        (n + 0x100) as u128
    } else if width == 2 {
        (n + 0x1_0000) as u128
    } else if width == 4 {
        (n + 0x1_0000_0000) as u128
    } else if width == 8 {
        (n + 0x1_0000_0000_0000_0000) as u128
    } else {
        (n - i128::MIN) as u128 + 0x8000_0000_0000_0000_0000_0000_0000_0000
    };
    put_le(w, pattern, width);
}

/// Writes the scalar value of `c` in four bytes.
fn write_char(w: &mut Vec<u8>, c: char) -> (res: Result<(), LBSError>)
    ensures
        final(w)@ == old(w)@ + char_wire(c),
        res is Ok,
{
    (c as u32).lbs_write(w)
}

/// Writes the number of fields that a record is about to write.
pub fn write_field_count(w: &mut Vec<u8>, count: u16) -> (res: Result<(), LBSError>)
    ensures
        final(w)@ == old(w)@ + le_bytes(count as nat, 2),
        res is Ok,
{
    count.lbs_write(w)
}

/// Writes the id of a field or of a variant.
pub fn write_field_id(w: &mut Vec<u8>, id: u16) -> (res: Result<(), LBSError>)
    ensures
        final(w)@ == old(w)@ + le_bytes(id as nat, 2),
        res is Ok,
{
    id.lbs_write(w)
}

/// Writes the 32-bit prefix that announces `l` bytes or elements. A count
/// that does not fit is reported and nothing is written.
pub fn write_len(w: &mut Vec<u8>, l: usize) -> (res: Result<(), LBSError>)
    ensures
        final(w)@ == old(w)@ + len_written(l as nat),
        written(res) == len_outcome(l as nat),
{
    if l > 0xFFFF_FFFF {
        assert(w@ + Seq::<u8>::empty() =~= w@);
        return Err(LBSError::Io(IoErrorKind::InvalidInput));
    }
    put_le(w, l as u128, 4);
    Ok(())
}

} // verus!

