//! From the declaration of a type to the two halves of its codec.

use crate::error::LBSError;
use crate::record::{decode_value, decoded_value, encode_value, encoding, parse};
use crate::schema::{
    gather_enum_meta, gather_struct_meta, gathered_fields, gathered_variants, payloads_valid,
    types_valid, Data, DeriveInput, Fields, SchemaError,
};
use crate::stream::Reader;
use crate::value::{Kind, Value};
use crate::write::written;
use vstd::prelude::*;

verus! {

/// The writing half of a declared type's codec.
#[derive(Debug, PartialEq, Eq)]
pub struct Encoder {
    kind: Kind,
}

/// The reading half of a declared type's codec.
#[derive(Debug, PartialEq, Eq)]
pub struct Decoder {
    kind: Kind,
}

/// Whether every type that the declaration names is well formed.
pub open spec fn names_valid_types(data: Data) -> bool {
    match data {
        Data::Struct(Fields::Named(fields)) => types_valid(fields@),
        Data::Enum(variants) => payloads_valid(variants@),
        _ => true,
    }
}

/// Why a declaration has no codec, if it has none: untagged unions and
/// structs with unnamed fields are not supported, and the fields or
/// variants may be refused.
pub open spec fn refusal(data: Data) -> Option<SchemaError> {
    match data {
        Data::Enum(variants) => match gathered_variants(variants@, variants@.len()) {
            Ok(_) => None,
            Err(e) => Some(e),
        },
        Data::Union => Some(SchemaError::UnsupportedUnion),
        Data::Struct(Fields::Named(fields)) => match gathered_fields(fields@, fields@.len()) {
            Ok(_) => None,
            Err(e) => Some(e),
        },
        Data::Struct(Fields::Unnamed(_)) => Some(SchemaError::UnsupportedTupleStruct),
        Data::Struct(Fields::Unit) => None,
    }
}

/// Whether `kind` is the kind of the declared type: a union of the
/// gathered variants, a record of the gathered fields, or the unit for a
/// struct without fields.
pub open spec fn describes(kind: Kind, data: Data) -> bool {
    match data {
        Data::Enum(variants) => kind matches Kind::Union(schema) && gathered_variants(
            variants@,
            variants@.len(),
        ) == Ok::<_, SchemaError>(schema@),
        Data::Struct(Fields::Named(fields)) => kind matches Kind::Record(schema)
            && gathered_fields(fields@, fields@.len()) == Ok::<_, SchemaError>(schema@),
        Data::Struct(Fields::Unit) => kind is Unit,
        _ => false,
    }
}

/// The kind of a declared type.
fn derive_kind(data: Data) -> (res: Result<Kind, SchemaError>)
    ensures
        match res {
            Ok(kind) => refusal(data) is None && describes(kind, data) && (names_valid_types(data)
                ==> kind.wf()),
            Err(e) => refusal(data) == Some(e),
        },
{
    match data {
        Data::Enum(variants) => Ok(Kind::Union(gather_enum_meta(variants)?)),
        Data::Union => Err(SchemaError::UnsupportedUnion),
        Data::Struct(fields) => match fields {
            Fields::Named(fields) => Ok(Kind::Record(gather_struct_meta(fields)?)),
            Fields::Unnamed(_) => Err(SchemaError::UnsupportedTupleStruct),
            Fields::Unit => Ok(Kind::Unit),
        },
    }
}

/// The writing half of the codec of a declared type.
pub fn derive_lbs_write(input: DeriveInput) -> (res: Result<Encoder, SchemaError>)
    ensures
        match res {
            Ok(encoder) => refusal(input.data) is None && describes(encoder@, input.data) && (
            names_valid_types(input.data) ==> encoder@.wf()),
            Err(e) => refusal(input.data) == Some(e),
        },
{
    let DeriveInput { ident, data } = input;
    Ok(Encoder { kind: derive_kind(data)? })
}

/// The reading half of the codec of a declared type.
pub fn derive_lbs_read(input: DeriveInput) -> (res: Result<Decoder, SchemaError>)
    ensures
        match res {
            Ok(decoder) => refusal(input.data) is None && describes(decoder@, input.data) && (
            names_valid_types(input.data) ==> decoder@.wf()),
            Err(e) => refusal(input.data) == Some(e),
        },
{
    let DeriveInput { ident, data } = input;
    Ok(Decoder { kind: derive_kind(data)? })
}

impl View for Encoder {
    type V = Kind;

    closed spec fn view(&self) -> Kind {
        self.kind
    }
}

impl View for Decoder {
    type V = Kind;

    closed spec fn view(&self) -> Kind {
        self.kind
    }
}

impl Encoder {
    /// The kind of the values that the encoder writes.
    pub fn kind(&self) -> (kind: &Kind)
        ensures
            *kind == self@,
    {
        &self.kind
    }

    /// The kind as a value of its own, to name the declared type as the
    /// type of a field or payload.
    pub fn into_kind(self) -> (kind: Kind)
        ensures
            kind == self@,
    {
        self.kind
    }

    /// Whether `value` is one that the encoder writes.
    pub fn accepts(&self, value: &Value) -> (ok: bool)
        ensures
            ok == value@.conforms(self@),
    {
        value.has_kind(&self.kind)
    }

    /// Appends the encoding of `value` to `w`. A value that is not of the
    /// encoder's kind is reported and nothing is written.
    pub fn lbs_write(&self, value: &Value, w: &mut Vec<u8>) -> (res: Result<(), LBSError>)
        ensures
            final(w)@ == old(w)@ + encoding(self@, value@).bytes,
            written(res) == encoding(self@, value@).result,
    {
        encode_value(&self.kind, value, w)
    }
}

impl Decoder {
    /// The kind of the values that the decoder reads.
    pub fn kind(&self) -> (kind: &Kind)
        ensures
            *kind == self@,
    {
        &self.kind
    }

    /// The kind as a value of its own, to name the declared type as the
    /// type of a field or payload.
    pub fn into_kind(self) -> (kind: Kind)
        ensures
            kind == self@,
    {
        self.kind
    }

    /// Decodes one value from the front of `r`.
    pub fn lbs_read(&self, r: &mut Reader) -> (res: Result<Value, LBSError>)
        ensures
            decoded_value(res) == parse(self@, old(r)@).result,
            final(r)@ == parse(self@, old(r)@).rest,
    {
        decode_value(&self.kind, r)
    }
}

} // verus!
