//! Decoding inverts encoding, type by type.

use crate::address::IpAddress;
use crate::endian::{le_bytes, lemma_radix_values};
use crate::format::{
    bool_wire, lemma_bool_round_trip, lemma_char_round_trip, lemma_signed_round_trip,
    lemma_str_round_trip, lemma_unsigned_round_trip, len_wire, Parsed,
};
use crate::read::{parse_each, parse_range, LBSRead};
use crate::write::{outcome_each, wire_each, LBSWrite};
use std::borrow::Cow;
use std::ops::Range;
use std::rc::Rc;
use std::sync::Arc;
use vstd::prelude::*;

verus! {

/// A type whose decoding inverts its encoding: a value that was written
/// without failure is read back as it was, up to the bytes that followed it.
pub trait RoundTrip: LBSRead + LBSWrite {
    proof fn lemma_round_trip(&self, rest: Seq<u8>)
        requires
            self.outcome() is Ok,
        ensures
            Self::parse(self.wire() + rest) == Parsed::done(self.deep_view(), rest),
    ;
}

impl RoundTrip for u8 {
    proof fn lemma_round_trip(&self, rest: Seq<u8>) {
        lemma_radix_values();
        lemma_unsigned_round_trip(*self as nat, 1, rest);
    }
}

impl RoundTrip for u16 {
    proof fn lemma_round_trip(&self, rest: Seq<u8>) {
        lemma_radix_values();
        lemma_unsigned_round_trip(*self as nat, 2, rest);
    }
}

impl RoundTrip for u32 {
    proof fn lemma_round_trip(&self, rest: Seq<u8>) {
        lemma_radix_values();
        lemma_unsigned_round_trip(*self as nat, 4, rest);
    }
}

impl RoundTrip for u64 {
    proof fn lemma_round_trip(&self, rest: Seq<u8>) {
        lemma_radix_values();
        lemma_unsigned_round_trip(*self as nat, 8, rest);
    }
}

impl RoundTrip for u128 {
    proof fn lemma_round_trip(&self, rest: Seq<u8>) {
        lemma_radix_values();
        lemma_unsigned_round_trip(*self as nat, 16, rest);
    }
}

impl RoundTrip for usize {
    proof fn lemma_round_trip(&self, rest: Seq<u8>) {
        lemma_radix_values();
        lemma_unsigned_round_trip(*self as nat, 8, rest);
    }
}

impl RoundTrip for i8 {
    proof fn lemma_round_trip(&self, rest: Seq<u8>) {
        lemma_radix_values();
        lemma_signed_round_trip(*self as int, 1, rest);
    }
}

impl RoundTrip for i16 {
    proof fn lemma_round_trip(&self, rest: Seq<u8>) {
        lemma_radix_values();
        lemma_signed_round_trip(*self as int, 2, rest);
    }
}

impl RoundTrip for i32 {
    proof fn lemma_round_trip(&self, rest: Seq<u8>) {
        lemma_radix_values();
        lemma_signed_round_trip(*self as int, 4, rest);
    }
}

impl RoundTrip for i64 {
    proof fn lemma_round_trip(&self, rest: Seq<u8>) {
        lemma_radix_values();
        lemma_signed_round_trip(*self as int, 8, rest);
    }
}

impl RoundTrip for i128 {
    proof fn lemma_round_trip(&self, rest: Seq<u8>) {
        lemma_radix_values();
        lemma_signed_round_trip(*self as int, 16, rest);
    }
}

impl RoundTrip for isize {
    proof fn lemma_round_trip(&self, rest: Seq<u8>) {
        lemma_radix_values();
        lemma_signed_round_trip(*self as int, 8, rest);
    }
}

impl RoundTrip for () {
    proof fn lemma_round_trip(&self, rest: Seq<u8>) {
        assert(self.wire() + rest =~= rest);
    }
}

impl RoundTrip for bool {
    proof fn lemma_round_trip(&self, rest: Seq<u8>) {
        lemma_bool_round_trip(*self, rest);
    }
}

impl RoundTrip for char {
    proof fn lemma_round_trip(&self, rest: Seq<u8>) {
        lemma_char_round_trip(*self, rest);
    }
}

impl RoundTrip for String {
    proof fn lemma_round_trip(&self, rest: Seq<u8>) {
        lemma_str_round_trip(self@, rest);
    }
}

impl RoundTrip for IpAddress {
    proof fn lemma_round_trip(&self, rest: Seq<u8>) {
        lemma_radix_values();
        match self {
            IpAddress::V4(number) => {
                let tail = le_bytes(*number as nat, 4);
                assert(self.wire() + rest =~= bool_wire(true) + (tail + rest));
                lemma_bool_round_trip(true, tail + rest);
                lemma_unsigned_round_trip(*number as nat, 4, rest);
            },
            IpAddress::V6(number) => {
                let tail = le_bytes(*number as nat, 16);
                assert(self.wire() + rest =~= bool_wire(false) + (tail + rest));
                lemma_bool_round_trip(false, tail + rest);
                lemma_unsigned_round_trip(*number as nat, 16, rest);
            },
        }
    }
}

impl<T1: RoundTrip, T2: RoundTrip> RoundTrip for (T1, T2) {
    proof fn lemma_round_trip(&self, rest: Seq<u8>) {
        let tail = self.1.wire();
        assert(self.wire() + rest =~= self.0.wire() + (tail + rest));
        self.0.lemma_round_trip(tail + rest);
        self.1.lemma_round_trip(rest);
    }
}

impl<T1: RoundTrip, T2: RoundTrip, T3: RoundTrip> RoundTrip for (T1, T2, T3) {
    proof fn lemma_round_trip(&self, rest: Seq<u8>) {
        let last = self.2.wire();
        let tail = self.1.wire() + (last + rest);
        assert(self.wire() + rest =~= self.0.wire() + tail);
        self.0.lemma_round_trip(tail);
        self.1.lemma_round_trip(last + rest);
        self.2.lemma_round_trip(rest);
    }
}

impl<T: RoundTrip> RoundTrip for Box<T> {
    proof fn lemma_round_trip(&self, rest: Seq<u8>) {
        (**self).lemma_round_trip(rest);
    }
}

impl<T: RoundTrip> RoundTrip for Rc<T> {
    proof fn lemma_round_trip(&self, rest: Seq<u8>) {
        (**self).lemma_round_trip(rest);
    }
}

impl<T: RoundTrip> RoundTrip for Arc<T> {
    proof fn lemma_round_trip(&self, rest: Seq<u8>) {
        (**self).lemma_round_trip(rest);
    }
}

impl<'a, T: RoundTrip + Clone> RoundTrip for Cow<'a, T> {
    proof fn lemma_round_trip(&self, rest: Seq<u8>) {
        match self {
            Cow::Borrowed(value) => value.lemma_round_trip(rest),
            Cow::Owned(value) => value.lemma_round_trip(rest),
        }
    }
}

impl<'a> RoundTrip for Cow<'a, str> {
    proof fn lemma_round_trip(&self, rest: Seq<u8>) {
        lemma_str_round_trip(self@, rest);
    }
}

impl<T: RoundTrip> RoundTrip for Option<T> {
    proof fn lemma_round_trip(&self, rest: Seq<u8>) {
        lemma_radix_values();
        match self {
            Some(value) => {
                let tail = value.wire();
                assert(self.wire() + rest =~= bool_wire(true) + (tail + rest));
                lemma_unsigned_round_trip(1, 1, tail + rest);
                value.lemma_round_trip(rest);
            },
            None => {
                lemma_unsigned_round_trip(0, 1, rest);
            },
        }
    }
}

/// Decoding inverts the encoding of a half-open range.
pub proof fn lemma_range_round_trip<T: RoundTrip + PartialOrd>(range: Range<T>, rest: Seq<u8>)
    requires
        range.outcome() is Ok,
    ensures
        parse_range::<T>(range.wire() + rest) == Parsed::done(
            (range.start.deep_view(), range.end.deep_view()),
            rest,
        ),
{
    let tail = range.end.wire();
    assert(range.wire() + rest =~= range.start.wire() + (tail + rest));
    range.start.lemma_round_trip(tail + rest);
    range.end.lemma_round_trip(rest);
}

/// Decoding inverts the encoding of several values of one type.
pub proof fn lemma_each_round_trip<T: RoundTrip>(items: Seq<T>, rest: Seq<u8>)
    requires
        outcome_each(items) is Ok,
    ensures
        parse_each::<T>(wire_each(items) + rest, items.len()) == Parsed::done(
            Seq::new(items.len(), |i: int| items[i].deep_view()),
            rest,
        ),
    decreases items.len(),
{
    let views = Seq::new(items.len(), |i: int| items[i].deep_view());
    if items.len() == 0 {
        assert(wire_each(items) + rest =~= rest);
        assert(views =~= Seq::<T::V>::empty());
    } else {
        let others = items.drop_first();
        let tail = wire_each(others);
        assert(wire_each(items) + rest =~= items[0].wire() + (tail + rest));
        items[0].lemma_round_trip(tail + rest);
        lemma_each_round_trip(others, rest);
        let other_views = Seq::new(others.len(), |i: int| others[i].deep_view());
        assert(seq![items[0].deep_view()] + other_views =~= views);
    }
}

impl<T: RoundTrip> RoundTrip for Vec<T> {
    proof fn lemma_round_trip(&self, rest: Seq<u8>) {
        lemma_radix_values();
        let tail = wire_each(self@);
        assert(self.wire() + rest =~= len_wire(self@.len()) + (tail + rest));
        lemma_unsigned_round_trip(self@.len(), 4, tail + rest);
        lemma_each_round_trip(self@, rest);
        assert(self.deep_view() =~= Seq::new(self@.len(), |i: int| self@[i].deep_view()));
    }
}

} // verus!
