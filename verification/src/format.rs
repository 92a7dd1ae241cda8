//! The wire layout of the simple values, stated over mathematical models.

use crate::endian::{
    from_twos_complement, le_bytes, le_value, lemma_le_bytes_len, lemma_le_value_of_bytes,
    lemma_radix_values, lemma_twos_complement_inverse, radix, twos_complement,
};
use crate::error::{Failure, IoErrorKind};
use vstd::prelude::*;
use vstd::utf8::{decode_utf8, encode_utf8, valid_utf8};

verus! {

/// What decoding one value from a byte sequence yields: the value or the
/// failure, and the bytes that are left for the next value.
pub ghost struct Parsed<T> {
    pub result: Result<T, Failure>,
    pub rest: Seq<u8>,
}

impl<T> Parsed<T> {
    /// A successful decoding.
    pub open spec fn done(value: T, rest: Seq<u8>) -> Self {
        Parsed { result: Ok(value), rest }
    }

    /// A failed decoding.
    pub open spec fn failed(failure: Failure, rest: Seq<u8>) -> Self {
        Parsed { result: Err(failure), rest }
    }

    /// The same outcome with the decoded value passed through `convert`.
    pub open spec fn map<U>(self, convert: spec_fn(T) -> U) -> Parsed<U> {
        Parsed {
            result: match self.result {
                Ok(value) => Ok(convert(value)),
                Err(failure) => Err(failure),
            },
            rest: self.rest,
        }
    }
}

/// What encoding one value yields: the bytes that reach the sink and how
/// the write ends. After a failure the bytes are those written before it.
pub ghost struct Encoded {
    pub bytes: Seq<u8>,
    pub result: Result<(), Failure>,
}

impl Encoded {
    /// The encoding that writes nothing and succeeds.
    pub open spec fn nothing() -> Encoded {
        Encoded { bytes: Seq::empty(), result: Ok(()) }
    }

    /// The encoding that writes `bytes` and succeeds.
    pub open spec fn of(bytes: Seq<u8>) -> Encoded {
        Encoded { bytes, result: Ok(()) }
    }

    /// The encoding that writes nothing and fails.
    pub open spec fn failed(failure: Failure) -> Encoded {
        Encoded { bytes: Seq::empty(), result: Err(failure) }
    }

    /// This encoding followed by `next`, which is not begun when this one
    /// fails.
    pub open spec fn followed_by(self, next: Encoded) -> Encoded {
        if self.result is Ok {
            Encoded { bytes: self.bytes + next.bytes, result: next.result }
        } else {
            self
        }
    }
}

/// The encoding of a length prefix.
pub open spec fn len_encoded(count: nat) -> Encoded {
    Encoded { bytes: len_written(count), result: len_outcome(count) }
}

/// The encoding of a string.
pub open spec fn str_encoded(text: Seq<char>) -> Encoded {
    Encoded { bytes: str_wire(text), result: str_outcome(text) }
}

/// The failure of an input that ends too early.
pub open spec fn eof() -> Failure {
    Failure::Io(IoErrorKind::UnexpectedEof)
}

/// The failure of a length that does not fit its prefix.
pub open spec fn invalid_input() -> Failure {
    Failure::Io(IoErrorKind::InvalidInput)
}

/// Decodes `width` bytes as an unsigned little-endian number. A shorter
/// input is left untouched.
pub open spec fn parse_unsigned(input: Seq<u8>, width: nat) -> Parsed<nat> {
    if input.len() < width {
        Parsed::failed(eof(), input)
    } else {
        Parsed::done(le_value(input.take(width as int)), input.skip(width as int))
    }
}

/// Decodes `width` bytes as a signed little-endian number in two's complement.
pub open spec fn parse_signed(input: Seq<u8>, width: nat) -> Parsed<int> {
    parse_unsigned(input, width).map(|pattern: nat| from_twos_complement(pattern, width))
}

/// The bytes of a signed number in two's complement.
pub open spec fn signed_wire(value: int, width: nat) -> Seq<u8> {
    le_bytes(twos_complement(value, width), width)
}

/// The single byte of a `bool`.
pub open spec fn bool_wire(value: bool) -> Seq<u8> {
    le_bytes(if value { 1 } else { 0 }, 1)
}

/// Decodes a `bool`: the byte `1` is true, every other byte is false.
pub open spec fn parse_bool(input: Seq<u8>) -> Parsed<bool> {
    parse_unsigned(input, 1).map(|byte: nat| byte == 1)
}

/// Whether a number is a Unicode scalar value.
pub open spec fn is_scalar_value(code: nat) -> bool {
    code < 0xD800 || 0xE000 <= code <= 0x10FFFF
}

/// The four bytes of a `char`: its scalar value.
pub open spec fn char_wire(value: char) -> Seq<u8> {
    le_bytes(value as nat, 4)
}

/// Decodes a `char` from four bytes, which must hold a Unicode scalar value.
pub open spec fn parse_char(input: Seq<u8>) -> Parsed<char> {
    let code = parse_unsigned(input, 4);
    match code.result {
        Ok(number) => if is_scalar_value(number) {
            Parsed::done(number as char, code.rest)
        } else {
            Parsed::failed(Failure::InvalidChar, code.rest)
        },
        Err(failure) => Parsed::failed(failure, code.rest),
    }
}

/// Whether a count fits the 32-bit prefix that frames strings and collections.
pub open spec fn fits_len(count: nat) -> bool {
    count <= 0xFFFF_FFFF
}

/// The four bytes that announce `count` bytes or elements.
pub open spec fn len_wire(count: nat) -> Seq<u8> {
    le_bytes(count, 4)
}

/// Decodes a 32-bit length prefix.
pub open spec fn parse_len(input: Seq<u8>) -> Parsed<nat> {
    parse_unsigned(input, 4)
}

/// What writing a length prefix appends: nothing when the count does not fit.
pub open spec fn len_written(count: nat) -> Seq<u8> {
    if fits_len(count) {
        len_wire(count)
    } else {
        Seq::empty()
    }
}

/// How writing a length prefix ends.
pub open spec fn len_outcome(count: nat) -> Result<(), Failure> {
    if fits_len(count) {
        Ok(())
    } else {
        Err(invalid_input())
    }
}

/// What writing a string appends: the count of its UTF-8 bytes, then the bytes.
pub open spec fn str_wire(text: Seq<char>) -> Seq<u8> {
    let bytes = encode_utf8(text);
    if fits_len(bytes.len()) {
        len_wire(bytes.len()) + bytes
    } else {
        Seq::empty()
    }
}

/// How writing a string ends.
pub open spec fn str_outcome(text: Seq<char>) -> Result<(), Failure> {
    len_outcome(encode_utf8(text).len())
}

/// The text with which the standard library describes why `bytes` are not
/// UTF-8.
pub uninterp spec fn utf8_error_text(bytes: Seq<u8>) -> Seq<char>;

/// Decodes a string: a length prefix, then that many bytes of UTF-8.
pub open spec fn parse_str(input: Seq<u8>) -> Parsed<Seq<char>> {
    let len = parse_len(input);
    match len.result {
        Ok(count) => if len.rest.len() < count {
            Parsed::failed(eof(), len.rest)
        } else {
            let bytes = len.rest.take(count as int);
            let rest = len.rest.skip(count as int);
            if valid_utf8(bytes) {
                Parsed::done(decode_utf8(bytes), rest)
            } else {
                Parsed::failed(Failure::Parsing(utf8_error_text(bytes)), rest)
            }
        },
        Err(failure) => Parsed::failed(failure, len.rest),
    }
}

/// Decoding what was written for an unsigned number that fits its width
/// yields the number and leaves what followed it.
pub proof fn lemma_unsigned_round_trip(value: nat, width: nat, rest: Seq<u8>)
    requires
        value < radix(width),
    ensures
        parse_unsigned(le_bytes(value, width) + rest, width) == Parsed::done(value, rest),
{
    let bytes = le_bytes(value, width);
    lemma_le_bytes_len(value, width);
    lemma_le_value_of_bytes(value, width);
    assert((bytes + rest).take(width as int) =~= bytes);
    assert((bytes + rest).skip(width as int) =~= rest);
}

/// Decoding what was written for a signed number of the width yields it.
pub proof fn lemma_signed_round_trip(value: int, width: nat, rest: Seq<u8>)
    requires
        width > 0,
        -(radix(width) as int) <= 2 * value < radix(width),
    ensures
        parse_signed(signed_wire(value, width) + rest, width) == Parsed::done(value, rest),
{
    lemma_twos_complement_inverse(value, width);
    lemma_unsigned_round_trip(twos_complement(value, width), width, rest);
}

/// Decoding what was written for a `bool` yields it.
pub proof fn lemma_bool_round_trip(value: bool, rest: Seq<u8>)
    ensures
        parse_bool(bool_wire(value) + rest) == Parsed::done(value, rest),
{
    lemma_radix_values();
    lemma_unsigned_round_trip(if value { 1 } else { 0 }, 1, rest);
}

/// Decoding what was written for a `char` yields it.
pub proof fn lemma_char_round_trip(value: char, rest: Seq<u8>)
    ensures
        parse_char(char_wire(value) + rest) == Parsed::done(value, rest),
{
    lemma_radix_values();
    lemma_unsigned_round_trip(value as nat, 4, rest);
}

/// Decoding what was written for a string yields it.
pub proof fn lemma_str_round_trip(text: Seq<char>, rest: Seq<u8>)
    requires
        str_outcome(text) is Ok,
    ensures
        parse_str(str_wire(text) + rest) == Parsed::done(text, rest),
{
    broadcast use vstd::utf8::encode_utf8_valid_utf8, vstd::utf8::encode_utf8_decode_utf8;

    let bytes = encode_utf8(text);
    let count = bytes.len();
    lemma_radix_values();
    assert(str_wire(text) + rest =~= len_wire(count) + (bytes + rest));
    lemma_unsigned_round_trip(count, 4, bytes + rest);
    assert((bytes + rest).take(count as int) =~= bytes);
    assert((bytes + rest).skip(count as int) =~= rest);
}

} // verus!
