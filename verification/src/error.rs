//! The closed set of failures that encoding and decoding can report. A
//! failure raised inside a field of a record carries the id of that field.

use vstd::prelude::*;

verus! {

/// The reason a byte transfer failed.
#[derive(Clone, Copy, Debug, PartialEq, Eq, Structural)]
pub enum IoErrorKind {
    /// The input ended before the requested bytes were available.
    UnexpectedEof,
    /// A value cannot be written: a length does not fit the prefix that
    /// frames it, or the value is not one that its wire form can hold.
    InvalidInput,
    /// Any other failure of the underlying stream.
    Other,
}

/// A failure raised while encoding or decoding.
#[derive(Debug)]
pub enum LBSError {
    /// A required field was absent from a decoded record.
    RequiredButMissing,
    /// A decoded variant id belongs to no variant of the union.
    UnexpectedVariant,
    /// A timestamp lies outside the representable domain.
    InvalidTimestamp,
    /// Four decoded bytes are not a Unicode scalar value.
    InvalidChar,
    /// The byte stream failed.
    Io(IoErrorKind),
    /// A value could not be parsed; the text says why.
    Parsing(String),
    /// A failure raised while decoding the field with the given id.
    WithField(u16, Box<LBSError>),
}

/// The mathematical content of an [`LBSError`].
pub ghost enum Failure {
    RequiredButMissing,
    UnexpectedVariant,
    InvalidTimestamp,
    InvalidChar,
    Io(IoErrorKind),
    Parsing(Seq<char>),
    WithField(u16, Box<Failure>),
}

impl Failure {
    /// Whether the failure is, at its root, an input that ended too early.
    pub open spec fn is_eof(self) -> bool
        decreases self,
    {
        match self {
            Failure::Io(kind) => kind == IoErrorKind::UnexpectedEof,
            Failure::WithField(_, inner) => inner.is_eof(),
            _ => false,
        }
    }

    /// The failure tagged with a field id, unless it already carries one.
    pub open spec fn with_field(self, field_id: u16) -> Failure {
        match self {
            Failure::WithField(..) => self,
            other => Failure::WithField(field_id, Box::new(other)),
        }
    }
}

/// Tagging keeps the first field id: a failure that carries one is not
/// tagged again.
pub proof fn lemma_with_field_keeps_first(failure: Failure, first: u16, second: u16)
    ensures
        failure.with_field(first).with_field(second) == failure.with_field(first),
        failure.with_field(first).is_eof() == failure.is_eof(),
{
}

impl View for LBSError {
    type V = Failure;

    open spec fn view(&self) -> Failure {
        self.failure()
    }
}

impl LBSError {
    /// The failure that this error stands for.
    pub open spec fn failure(&self) -> Failure
        decreases self,
    {
        match self {
            LBSError::RequiredButMissing => Failure::RequiredButMissing,
            LBSError::UnexpectedVariant => Failure::UnexpectedVariant,
            LBSError::InvalidTimestamp => Failure::InvalidTimestamp,
            LBSError::InvalidChar => Failure::InvalidChar,
            LBSError::Io(kind) => Failure::Io(*kind),
            LBSError::Parsing(text) => Failure::Parsing(text@),
            LBSError::WithField(id, inner) => Failure::WithField(*id, Box::new(inner.failure())),
        }
    }

    /// Tells a truncated input apart from every other failure, looking
    /// through a field tag.
    pub fn is_eof(&self) -> (eof: bool)
        ensures
            eof == self@.is_eof(),
        decreases self,
    {
        match self {
            LBSError::Io(kind) => match kind {
                IoErrorKind::UnexpectedEof => true,
                _ => false,
            },
            LBSError::WithField(_, inner) => inner.is_eof(),
            _ => false,
        }
    }

    /// Tags the failure with the id of the field being decoded. A failure
    /// that already carries a field id is returned unchanged: of the records
    /// nested around a failure, the innermost one names the field, and no
    /// path of ids is built.
    pub fn with_field(self, field_id: u16) -> (tagged: Self)
        ensures
            tagged@ == self@.with_field(field_id),
    {
        match self {
            LBSError::WithField(id, inner) => LBSError::WithField(id, inner),
            other => LBSError::WithField(field_id, Box::new(other)),
        }
    }
}

} // verus!
