//! Decoding: the trait by which a type states how it is read back, and its
//! implementations for the simple and the composite values.

use crate::endian::{get_le, lemma_le_value_bound, lemma_radix_values, radix};
use crate::error::{Failure, LBSError, IoErrorKind};
use crate::format::{
    invalid_input, parse_bool, parse_char, parse_len, parse_signed, parse_str, parse_unsigned,
    utf8_error_text, Parsed, is_scalar_value,
};
use crate::stream::Reader;
use std::ops::Range;
use std::rc::Rc;
use std::sync::Arc;
use vstd::prelude::*;
use vstd::slice::slice_to_vec;
use vstd::utf8::{decode_utf8, valid_utf8};

verus! {

/// The mathematical content of what a read returned.
pub open spec fn decoded<T: DeepView>(res: Result<T, LBSError>) -> Result<T::V, Failure> {
    match res {
        Ok(value) => Ok(value.deep_view()),
        Err(e) => Err(e@),
    }
}

/// A value that can be decoded.
pub trait LBSRead: Sized + DeepView {
    /// What decoding a value of this type from `input` yields.
    spec fn parse(input: Seq<u8>) -> Parsed<Self::V>;

    /// Decodes one value from the front of `r`.
    fn lbs_read(r: &mut Reader) -> (res: Result<Self, LBSError>)
        ensures
            decoded(res) == Self::parse(old(r)@).result,
            final(r)@ == Self::parse(old(r)@).rest,
    ;
}

/// Validates UTF-8 with `String::from_utf8`. The bytes that are UTF-8 come
/// back as the string they encode; for the others the result is the text in
/// which the standard library's error describes them.
#[verifier::external_body]
fn string_from_utf8(bytes: Vec<u8>) -> (res: Result<String, String>)
    ensures
        match res {
            Ok(text) => valid_utf8(bytes@) && text@ == decode_utf8(bytes@),
            Err(why) => !valid_utf8(bytes@) && why@ == utf8_error_text(bytes@),
        },
{
    match String::from_utf8(bytes) {
        Ok(text) => Ok(text),
        Err(e) => Err(e.to_string()),
    }
}

/// `char::from_u32` yields the character of a Unicode scalar value, and
/// nothing for a surrogate or a number above `0x10FFFF`.
pub assume_specification[ char::from_u32 ](i: u32) -> (c: Option<char>)
    ensures
        c == if is_scalar_value(i as nat) {
            Some(i as char)
        } else {
            None
        },
;

/// Consumes `width` bytes and returns the number they spell.
pub(crate) fn read_unsigned(r: &mut Reader, width: usize) -> (res: Result<u128, LBSError>)
    requires
        width <= 16,
    ensures
        match res {
            Ok(value) => parse_unsigned(old(r)@, width as nat).result == Ok::<nat, Failure>(
                value as nat,
            ) && value < radix(width as nat),
            Err(e) => parse_unsigned(old(r)@, width as nat).result == Err::<nat, Failure>(e@),
        },
        final(r)@ == parse_unsigned(old(r)@, width as nat).rest,
{
    let bytes = r.take(width)?;
    proof {
        lemma_le_value_bound(bytes@);
    }
    Ok(get_le(bytes))
}

impl LBSRead for u8 {
    open spec fn parse(input: Seq<u8>) -> Parsed<u8> {
        parse_unsigned(input, 1).map(|value: nat| value as u8)
    }

    fn lbs_read(r: &mut Reader) -> (res: Result<Self, LBSError>) {
        proof {
            lemma_radix_values();
        }
        let value = read_unsigned(r, 1)?;
        Ok(value as u8)
    }
}

impl LBSRead for u16 {
    open spec fn parse(input: Seq<u8>) -> Parsed<u16> {
        parse_unsigned(input, 2).map(|value: nat| value as u16)
    }

    fn lbs_read(r: &mut Reader) -> (res: Result<Self, LBSError>) {
        proof {
            lemma_radix_values();
        }
        let value = read_unsigned(r, 2)?;
        Ok(value as u16)
    }
}

impl LBSRead for u32 {
    open spec fn parse(input: Seq<u8>) -> Parsed<u32> {
        parse_unsigned(input, 4).map(|value: nat| value as u32)
    }

    fn lbs_read(r: &mut Reader) -> (res: Result<Self, LBSError>) {
        proof {
            lemma_radix_values();
        }
        let value = read_unsigned(r, 4)?;
        Ok(value as u32)
    }
}

impl LBSRead for u64 {
    open spec fn parse(input: Seq<u8>) -> Parsed<u64> {
        parse_unsigned(input, 8).map(|value: nat| value as u64)
    }

    fn lbs_read(r: &mut Reader) -> (res: Result<Self, LBSError>) {
        proof {
            lemma_radix_values();
        }
        let value = read_unsigned(r, 8)?;
        Ok(value as u64)
    }
}

impl LBSRead for usize {
    open spec fn parse(input: Seq<u8>) -> Parsed<usize> {
        let number = parse_unsigned(input, 8);
        match number.result {
            Ok(value) => if value <= usize::MAX {
                Parsed::done(value as usize, number.rest)
            } else {
                Parsed::failed(invalid_input(), number.rest)
            },
            Err(failure) => Parsed::failed(failure, number.rest),
        }
    }

    fn lbs_read(r: &mut Reader) -> (res: Result<Self, LBSError>) {
        let value = read_unsigned(r, 8)?;
        if value <= usize::MAX as u128 {
            Ok(value as usize)
        } else {
            Err(LBSError::Io(IoErrorKind::InvalidInput))
        }
    }
}

impl LBSRead for u128 {
    open spec fn parse(input: Seq<u8>) -> Parsed<u128> {
        parse_unsigned(input, 16).map(|value: nat| value as u128)
    }

    fn lbs_read(r: &mut Reader) -> (res: Result<Self, LBSError>) {
        proof {
            lemma_radix_values();
        }
        let value = read_unsigned(r, 16)?;
        Ok(value as u128)
    }
}

impl LBSRead for i8 {
    open spec fn parse(input: Seq<u8>) -> Parsed<i8> {
        parse_signed(input, 1).map(|value: int| value as i8)
    }

    fn lbs_read(r: &mut Reader) -> (res: Result<Self, LBSError>) {
        proof {
            lemma_radix_values();
        }
        let value = read_signed(r, 1)?;
        Ok(value as i8)
    }
}

impl LBSRead for i16 {
    open spec fn parse(input: Seq<u8>) -> Parsed<i16> {
        parse_signed(input, 2).map(|value: int| value as i16)
    }

    fn lbs_read(r: &mut Reader) -> (res: Result<Self, LBSError>) {
        proof {
            lemma_radix_values();
        }
        let value = read_signed(r, 2)?;
        Ok(value as i16)
    }
}

impl LBSRead for i32 {
    open spec fn parse(input: Seq<u8>) -> Parsed<i32> {
        parse_signed(input, 4).map(|value: int| value as i32)
    }

    fn lbs_read(r: &mut Reader) -> (res: Result<Self, LBSError>) {
        proof {
            lemma_radix_values();
        }
        let value = read_signed(r, 4)?;
        Ok(value as i32)
    }
}

impl LBSRead for i64 {
    open spec fn parse(input: Seq<u8>) -> Parsed<i64> {
        parse_signed(input, 8).map(|value: int| value as i64)
    }

    fn lbs_read(r: &mut Reader) -> (res: Result<Self, LBSError>) {
        proof {
            lemma_radix_values();
        }
        let value = read_signed(r, 8)?;
        Ok(value as i64)
    }
}

impl LBSRead for isize {
    open spec fn parse(input: Seq<u8>) -> Parsed<isize> {
        let number = parse_signed(input, 8);
        match number.result {
            Ok(value) => if isize::MIN <= value <= isize::MAX {
                Parsed::done(value as isize, number.rest)
            } else {
                Parsed::failed(invalid_input(), number.rest)
            },
            Err(failure) => Parsed::failed(failure, number.rest),
        }
    }

    fn lbs_read(r: &mut Reader) -> (res: Result<Self, LBSError>) {
        proof {
            lemma_radix_values();
        }
        let value = read_signed(r, 8)?;
        if isize::MIN as i128 <= value && value <= isize::MAX as i128 {
            Ok(value as isize)
        } else {
            Err(LBSError::Io(IoErrorKind::InvalidInput))
        }
    }
}

impl LBSRead for i128 {
    open spec fn parse(input: Seq<u8>) -> Parsed<i128> {
        parse_signed(input, 16).map(|value: int| value as i128)
    }

    fn lbs_read(r: &mut Reader) -> (res: Result<Self, LBSError>) {
        proof {
            lemma_radix_values();
        }
        let value = read_signed(r, 16)?;
        Ok(value as i128)
    }
}

impl LBSRead for () {
    open spec fn parse(input: Seq<u8>) -> Parsed<()> {
        Parsed::done((), input)
    }

    fn lbs_read(r: &mut Reader) -> (res: Result<Self, LBSError>) {
        Ok(())
    }
}

impl<T1: LBSRead, T2: LBSRead> LBSRead for (T1, T2) {
    open spec fn parse(input: Seq<u8>) -> Parsed<(T1::V, T2::V)> {
        let first = T1::parse(input);
        match first.result {
            Ok(a) => T2::parse(first.rest).map(|b: T2::V| (a, b)),
            Err(failure) => Parsed::failed(failure, first.rest),
        }
    }

    fn lbs_read(r: &mut Reader) -> (res: Result<Self, LBSError>) {
        let a = T1::lbs_read(r)?;
        let b = T2::lbs_read(r)?;
        Ok((a, b))
    }
}

impl<T1: LBSRead, T2: LBSRead, T3: LBSRead> LBSRead for (T1, T2, T3) {
    open spec fn parse(input: Seq<u8>) -> Parsed<(T1::V, T2::V, T3::V)> {
        let first = T1::parse(input);
        match first.result {
            Ok(a) => {
                let second = T2::parse(first.rest);
                match second.result {
                    Ok(b) => T3::parse(second.rest).map(|c: T3::V| (a, b, c)),
                    Err(failure) => Parsed::failed(failure, second.rest),
                }
            },
            Err(failure) => Parsed::failed(failure, first.rest),
        }
    }

    fn lbs_read(r: &mut Reader) -> (res: Result<Self, LBSError>) {
        let a = T1::lbs_read(r)?;
        let b = T2::lbs_read(r)?;
        let c = T3::lbs_read(r)?;
        Ok((a, b, c))
    }
}

impl LBSRead for bool {
    open spec fn parse(input: Seq<u8>) -> Parsed<bool> {
        parse_bool(input)
    }

    fn lbs_read(r: &mut Reader) -> (res: Result<Self, LBSError>) {
        let byte = read_unsigned(r, 1)?;
        Ok(byte == 1)
    }
}

impl LBSRead for char {
    open spec fn parse(input: Seq<u8>) -> Parsed<char> {
        parse_char(input)
    }

    fn lbs_read(r: &mut Reader) -> (res: Result<Self, LBSError>) {
        read_char(r)
    }
}

impl LBSRead for String {
    open spec fn parse(input: Seq<u8>) -> Parsed<Seq<char>> {
        parse_str(input)
    }

    fn lbs_read(r: &mut Reader) -> (res: Result<Self, LBSError>) {
        let l = read_len(r)?;
        if l == 0 {
            proof {
                let empty = old(r)@.skip(4).take(0);
                assert(empty =~= Seq::<u8>::empty());
                assert(r@ =~= r@.skip(0));
            }
            return Ok(String::new());
        }
        let bytes = r.take(l)?;
        match string_from_utf8(slice_to_vec(bytes)) {
            Ok(text) => Ok(text),
            Err(why) => Err(LBSError::Parsing(why)),
        }
    }
}

/// Decodes a half-open range: its start, then its end.
pub open spec fn parse_range<T: LBSRead>(input: Seq<u8>) -> Parsed<(T::V, T::V)> {
    let start = T::parse(input);
    match start.result {
        Ok(a) => T::parse(start.rest).map(|b: T::V| (a, b)),
        Err(failure) => Parsed::failed(failure, start.rest),
    }
}

/// Decodes a half-open range from the front of `r`.
pub fn read_range<T: LBSRead + PartialOrd>(r: &mut Reader) -> (res: Result<Range<T>, LBSError>)
    ensures
        match res {
            Ok(range) => parse_range::<T>(old(r)@).result == Ok::<(T::V, T::V), Failure>(
                (range.start.deep_view(), range.end.deep_view()),
            ),
            Err(e) => parse_range::<T>(old(r)@).result == Err::<(T::V, T::V), Failure>(e@),
        },
        final(r)@ == parse_range::<T>(old(r)@).rest,
{
    let start = T::lbs_read(r)?;
    let end = T::lbs_read(r)?;
    Ok(Range { start, end })
}

impl<T: LBSRead> LBSRead for Box<T> {
    open spec fn parse(input: Seq<u8>) -> Parsed<T::V> {
        T::parse(input)
    }

    fn lbs_read(r: &mut Reader) -> (res: Result<Self, LBSError>) {
        Ok(Box::new(T::lbs_read(r)?))
    }
}

impl<T: LBSRead> LBSRead for Rc<T> {
    open spec fn parse(input: Seq<u8>) -> Parsed<T::V> {
        T::parse(input)
    }

    fn lbs_read(r: &mut Reader) -> (res: Result<Self, LBSError>) {
        Ok(Rc::new(T::lbs_read(r)?))
    }
}

impl<T: LBSRead> LBSRead for Arc<T> {
    open spec fn parse(input: Seq<u8>) -> Parsed<T::V> {
        T::parse(input)
    }

    fn lbs_read(r: &mut Reader) -> (res: Result<Self, LBSError>) {
        Ok(Arc::new(T::lbs_read(r)?))
    }
}

impl<T: LBSRead> LBSRead for Option<T> {
    open spec fn parse(input: Seq<u8>) -> Parsed<Option<T::V>> {
        let flag = parse_unsigned(input, 1);
        match flag.result {
            Ok(byte) => if byte == 1 {
                T::parse(flag.rest).map(|value: T::V| Some(value))
            } else {
                Parsed::done(None, flag.rest)
            },
            Err(failure) => Parsed::failed(failure, flag.rest),
        }
    }

    fn lbs_read(r: &mut Reader) -> (res: Result<Self, LBSError>) {
        let flag = read_unsigned(r, 1)?;
        if flag == 1 {
            Ok(Some(T::lbs_read(r)?))
        } else {
            Ok(None)
        }
    }
}

/// Puts already decoded items in front of what decoding the rest yields.
pub open spec fn after<V>(items: Seq<V>, more: Parsed<Seq<V>>) -> Parsed<Seq<V>> {
    more.map(|rest: Seq<V>| items + rest)
}

/// Decodes `count` values of one type, one after another, and stops at the
/// first failure.
pub open spec fn parse_each<T: LBSRead>(input: Seq<u8>, count: nat) -> Parsed<Seq<T::V>>
    decreases count,
{
    if count == 0 {
        Parsed::done(Seq::empty(), input)
    } else {
        let first = T::parse(input);
        match first.result {
            Ok(value) => after(seq![value], parse_each::<T>(first.rest, (count - 1) as nat)),
            Err(failure) => Parsed::failed(failure, first.rest),
        }
    }
}

impl<T: LBSRead> LBSRead for Vec<T> {
    open spec fn parse(input: Seq<u8>) -> Parsed<Seq<T::V>> {
        let len = parse_len(input);
        match len.result {
            Ok(count) => parse_each::<T>(len.rest, count),
            Err(failure) => Parsed::failed(failure, len.rest),
        }
    }

    fn lbs_read(r: &mut Reader) -> (res: Result<Self, LBSError>) {
        let l = read_len(r)?;
        let ghost start = r@;
        let mut v: Vec<T> = Vec::new();
        let mut index: usize = 0;
        assert(after(v.deep_view(), parse_each::<T>(r@, l as nat)) == parse_each::<T>(
            start,
            l as nat,
        )) by {
            lemma_after_nothing(parse_each::<T>(r@, l as nat));
        }
        while index < l
            invariant
                index <= l,
                parse_len(old(r)@).result == Ok::<nat, Failure>(l as nat),
                parse_len(old(r)@).rest == start,
                parse_each::<T>(start, l as nat) == after(
                    v.deep_view(),
                    parse_each::<T>(r@, (l - index) as nat),
                ),
            decreases l - index,
        {
            let ghost before = v.deep_view();
            let ghost input = r@;
            let item = T::lbs_read(r)?;
            proof {
                lemma_after_one(
                    before,
                    item.deep_view(),
                    parse_each::<T>(r@, (l - index - 1) as nat),
                );
            }
            v.push(item);
            assert(v.deep_view() =~= before.push(item.deep_view()));
            index += 1;
        }
        assert(v.deep_view() + Seq::<T::V>::empty() =~= v.deep_view());
        Ok(v)
    }
}

/// Nothing in front changes nothing.
pub proof fn lemma_after_nothing<V>(more: Parsed<Seq<V>>)
    ensures
        after(Seq::<V>::empty(), more) == more,
{
    match more.result {
        Ok(rest) => {
            assert(Seq::<V>::empty() + rest =~= rest);
        },
        Err(_) => {},
    }
}

/// One more decoded item moves from the remainder to the front.
pub proof fn lemma_after_one<V>(items: Seq<V>, item: V, more: Parsed<Seq<V>>)
    ensures
        after(items, after(seq![item], more)) == after(items.push(item), more),
{
    match more.result {
        Ok(rest) => {
            assert(items + (seq![item] + rest) =~= items.push(item) + rest);
        },
        Err(_) => {},
    }
}

/// Consumes `width` bytes and returns the signed number whose two's
/// complement they hold.
pub(crate) fn read_signed(r: &mut Reader, width: usize) -> (res: Result<i128, LBSError>)
    requires
        width == 1 || width == 2 || width == 4 || width == 8 || width == 16,
    ensures
        match res {
            Ok(value) => parse_signed(old(r)@, width as nat).result == Ok::<int, Failure>(
                value as int,
            ) && -(radix(width as nat) as int) <= 2 * value < radix(width as nat),
            Err(e) => parse_signed(old(r)@, width as nat).result == Err::<int, Failure>(e@),
        },
        final(r)@ == parse_signed(old(r)@, width as nat).rest,
{
    proof {
        lemma_radix_values();
    }
    let pattern = read_unsigned(r, width)?;
    let value: i128 = if width == 1 {
        if pattern >= 0x80 {
            pattern as i128 - 0x100
        } else {
            pattern as i128
        }
    } else if width == 2 {
        if pattern >= 0x8000 {
            pattern as i128 - 0x1_0000
        } else {
            pattern as i128
        }
    } else if width == 4 {
        if pattern >= 0x8000_0000 {
            pattern as i128 - 0x1_0000_0000
        } else {
            pattern as i128
        }
    } else if width == 8 {
        if pattern >= 0x8000_0000_0000_0000 {
            pattern as i128 - 0x1_0000_0000_0000_0000
        } else {
            pattern as i128
        }
    } else {
        if pattern >= 0x8000_0000_0000_0000_0000_0000_0000_0000 {
            (pattern - 0x8000_0000_0000_0000_0000_0000_0000_0000) as i128 + i128::MIN
        } else {
            pattern as i128
        }
    };
    Ok(value)
}

/// Reads four bytes and returns the character whose scalar value they hold.
fn read_char(r: &mut Reader) -> (res: Result<char, LBSError>)
    ensures
        match res {
            Ok(c) => parse_char(old(r)@).result == Ok::<char, Failure>(c),
            Err(e) => parse_char(old(r)@).result == Err::<char, Failure>(e@),
        },
        final(r)@ == parse_char(old(r)@).rest,
{
    proof {
        lemma_radix_values();
    }
    let code = read_unsigned(r, 4)?;
    match char::from_u32(code as u32) {
        Some(c) => Ok(c),
        None => Err(LBSError::InvalidChar),
    }
}

/// Reads the number of fields that a record wrote.
pub fn read_field_count(r: &mut Reader) -> (res: Result<u16, LBSError>)
    ensures
        match res {
            Ok(count) => parse_unsigned(old(r)@, 2).result == Ok::<nat, Failure>(count as nat),
            Err(e) => parse_unsigned(old(r)@, 2).result == Err::<nat, Failure>(e@),
        },
        final(r)@ == parse_unsigned(old(r)@, 2).rest,
{
    proof {
        lemma_radix_values();
        lemma_le_value_bound(r@.take(2));
    }
    u16::lbs_read(r)
}

/// Reads the id of a field or of a variant.
pub fn read_field_id(r: &mut Reader) -> (res: Result<u16, LBSError>)
    ensures
        match res {
            Ok(id) => parse_unsigned(old(r)@, 2).result == Ok::<nat, Failure>(id as nat),
            Err(e) => parse_unsigned(old(r)@, 2).result == Err::<nat, Failure>(e@),
        },
        final(r)@ == parse_unsigned(old(r)@, 2).rest,
{
    proof {
        lemma_radix_values();
        lemma_le_value_bound(r@.take(2));
    }
    u16::lbs_read(r)
}

/// Reads one value of the type that the caller names.
pub fn read<T: LBSRead>(r: &mut Reader) -> (res: Result<T, LBSError>)
    ensures
        decoded(res) == T::parse(old(r)@).result,
        final(r)@ == T::parse(old(r)@).rest,
{
    T::lbs_read(r)
}

/// Reads a 32-bit length prefix.
pub fn read_len(r: &mut Reader) -> (res: Result<usize, LBSError>)
    ensures
        match res {
            Ok(count) => parse_len(old(r)@).result == Ok::<nat, Failure>(count as nat),
            Err(e) => parse_len(old(r)@).result == Err::<nat, Failure>(e@),
        },
        final(r)@ == parse_len(old(r)@).rest,
{
    proof {
        lemma_radix_values();
    }
    let count = read_unsigned(r, 4)?;
    Ok(count as usize)
}

} // verus!
