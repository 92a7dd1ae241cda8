//! The codec that a schema drives: records as sparse lists of fields keyed
//! by id, tagged unions as one variant id and at most one payload.
//!
//! A field id that the reading schema does not know is passed over without
//! consuming anything, because a value carries no length of its own: such a
//! field is decoded correctly only when it is the last one written.

use crate::endian::{le_bytes, put_le};
use crate::error::{Failure, IoErrorKind, LBSError};
use crate::format::{
    bool_wire, char_wire, invalid_input, len_encoded, parse_bool, parse_char, parse_len,
    parse_signed, parse_str, parse_unsigned, signed_wire, str_encoded, Encoded, Parsed,
};
use crate::read::{
    after, lemma_after_nothing, lemma_after_one, read_field_count, read_field_id, read_len,
    read_signed, read_unsigned, LBSRead,
};
use crate::stream::Reader;
use crate::value::{
    contents, field_position, initial_values, variant_position, FieldMeta, Kind, RecordSchema,
    Value, ValueView, VariantMeta, VariantSchema,
};
use crate::write::{
    write_field_count, write_field_id, write_len, write_signed, written, LBSWrite,
};
use vstd::pervasive::unreached;
use vstd::prelude::*;

verus! {

/// Whether a record writes the field: it is not skipped and its value is
/// not one that decoding restores by itself.
pub open spec fn is_written(field: FieldMeta, value: ValueView) -> bool {
    !field.skip && value.must_write()
}

/// The number of fields at or after `from` that a record writes.
pub open spec fn written_count(fields: Seq<FieldMeta>, values: Seq<ValueView>, from: int) -> nat
    decreases fields.len() - from,
{
    if from < 0 || from >= fields.len() || from >= values.len() {
        0
    } else if is_written(fields[from], values[from]) {
        1 + written_count(fields, values, from + 1)
    } else {
        written_count(fields, values, from + 1)
    }
}

/// The encoding of a value of the given kind.
pub open spec fn encode(kind: Kind, value: ValueView) -> Encoded
    decreases value, 0nat,
{
    match (kind, value) {
        (Kind::Unit, ValueView::Unit) => Encoded::nothing(),
        (Kind::Bool, ValueView::Bool(b)) => Encoded::of(bool_wire(b)),
        (Kind::Char, ValueView::Char(c)) => Encoded::of(char_wire(c)),
        (Kind::Unsigned(width), ValueView::Unsigned(n)) => Encoded::of(le_bytes(n, width.bytes())),
        (Kind::Signed(width), ValueView::Signed(n)) => Encoded::of(signed_wire(n, width.bytes())),
        (Kind::Str, ValueView::Str(text)) => str_encoded(text),
        (Kind::Opt(_), ValueView::Opt(None)) => Encoded::of(bool_wire(false)),
        (Kind::Opt(of), ValueView::Opt(Some(inner))) => Encoded::of(bool_wire(true)).followed_by(
            encode(*of, *inner),
        ),
        (Kind::List(of), ValueView::List(items)) => len_encoded(items.len()).followed_by(
            encode_each(*of, items),
        ),
        (Kind::Pair(a, b), ValueView::Pair(first, second)) => encode(*a, *first).followed_by(
            encode(*b, *second),
        ),
        (Kind::Owned(of), ValueView::Owned(inner)) => encode(*of, *inner),
        (Kind::Record(schema), ValueView::Record(values)) => {
            let count = written_count(schema@, values, 0);
            if count > 0xFFFF {
                Encoded::failed(invalid_input())
            } else {
                Encoded::of(le_bytes(count, 2)).followed_by(encode_fields(schema@, values, 0))
            }
        },
        (Kind::Union(schema), ValueView::Union(id, payload)) => Encoded::of(
            le_bytes(id as nat, 2),
        ).followed_by(
            match (variant_position(schema@, id, 0), payload) {
                (Some(at), Some(inner)) => match schema@[at].payload {
                    Some(of) => encode(of, *inner),
                    None => Encoded::nothing(),
                },
                _ => Encoded::nothing(),
            },
        ),
        _ => Encoded::nothing(),
    }
}

/// The encoding of several values of one kind, one after another.
pub open spec fn encode_each(kind: Kind, items: Seq<ValueView>) -> Encoded
    decreases items, 0nat,
{
    if items.len() == 0 {
        Encoded::nothing()
    } else {
        encode(kind, items[0]).followed_by(encode_each(kind, items.drop_first()))
    }
}

/// The encoding of the fields at or after `from` that a record writes: for
/// each, in the order of declaration, its id and then its value.
pub open spec fn encode_fields(fields: Seq<FieldMeta>, values: Seq<ValueView>, from: int) -> Encoded
    decreases values, values.len() - from,
{
    if from < 0 || from >= fields.len() || from >= values.len() {
        Encoded::nothing()
    } else if is_written(fields[from], values[from]) {
        Encoded::of(le_bytes(fields[from].id as nat, 2)).followed_by(
            encode(fields[from].kind, values[from]),
        ).followed_by(encode_fields(fields, values, from + 1))
    } else {
        encode_fields(fields, values, from + 1)
    }
}

/// What a record's decoding holds while it reads its fields: the values so
/// far and, for each field, whether it was read.
pub ghost struct Progress {
    pub values: Seq<ValueView>,
    pub seen: Seq<bool>,
}

/// What a record's decoding holds before it has read a field: the
/// schema's initial values, none of them read.
pub open spec fn starting(schema: RecordSchema) -> Progress {
    Progress {
        values: initial_values(schema, schema@.len()),
        seen: Seq::new(schema@.len(), |i: int| false),
    }
}

/// The position of the first required field at or after `from` that was
/// not read.
pub open spec fn first_missing(fields: Seq<FieldMeta>, seen: Seq<bool>, from: int) -> Option<int>
    decreases fields.len() - from,
{
    if from < 0 || from >= fields.len() || from >= seen.len() {
        None
    } else if fields[from].required && !seen[from] {
        Some(from)
    } else {
        first_missing(fields, seen, from + 1)
    }
}

/// What a record yields once its fields are read: the record, unless a
/// required field was not among them.
pub open spec fn finish(fields: Seq<FieldMeta>, progress: Progress) -> Result<ValueView, Failure> {
    match first_missing(fields, progress.seen, 0) {
        Some(at) => Err(Failure::RequiredButMissing.with_field(fields[at].id)),
        None => Ok(ValueView::Record(progress.values)),
    }
}

/// A found position lies within the fields, at a field that is not skipped
/// and has the id.
pub proof fn lemma_field_position(fields: Seq<FieldMeta>, id: u16, from: int)
    requires
        0 <= from,
    ensures
        field_position(fields, id, from) matches Some(at) ==> from <= at < fields.len()
            && fields[at].id == id && !fields[at].skip,
    decreases fields.len() - from,
{
    if from < fields.len() && !(fields[from].id == id && !fields[from].skip) {
        lemma_field_position(fields, id, from + 1);
    }
}

/// A found position lies within the variants, at a variant with the id.
pub proof fn lemma_variant_position(variants: Seq<VariantMeta>, id: u16, from: int)
    requires
        0 <= from,
    ensures
        variant_position(variants, id, from) matches Some(at) ==> from <= at < variants.len()
            && variants[at].id == id,
    decreases variants.len() - from,
{
    if from < variants.len() && variants[from].id != id {
        lemma_variant_position(variants, id, from + 1);
    }
}

/// What decoding a value of the given kind from `input` yields.
pub open spec fn parse(kind: Kind, input: Seq<u8>) -> Parsed<ValueView>
    decreases kind, 0nat,
{
    match kind {
        Kind::Unit => Parsed::done(ValueView::Unit, input),
        Kind::Bool => parse_bool(input).map(|b: bool| ValueView::Bool(b)),
        Kind::Char => parse_char(input).map(|c: char| ValueView::Char(c)),
        Kind::Unsigned(width) => parse_unsigned(input, width.bytes()).map(
            |n: nat| ValueView::Unsigned(n),
        ),
        Kind::Signed(width) => parse_signed(input, width.bytes()).map(
            |n: int| ValueView::Signed(n),
        ),
        Kind::Str => parse_str(input).map(|text: Seq<char>| ValueView::Str(text)),
        Kind::Opt(of) => {
            let flag = parse_unsigned(input, 1);
            match flag.result {
                Ok(byte) => if byte == 1 {
                    parse(*of, flag.rest).map(
                        |inner: ValueView| ValueView::Opt(Some(Box::new(inner))),
                    )
                } else {
                    Parsed::done(ValueView::Opt(None), flag.rest)
                },
                Err(failure) => Parsed::failed(failure, flag.rest),
            }
        },
        Kind::List(of) => {
            let len = parse_len(input);
            match len.result {
                Ok(count) => parse_each(*of, len.rest, count).map(
                    |items: Seq<ValueView>| ValueView::List(items),
                ),
                Err(failure) => Parsed::failed(failure, len.rest),
            }
        },
        Kind::Pair(a, b) => {
            let first = parse(*a, input);
            match first.result {
                Ok(x) => parse(*b, first.rest).map(
                    |y: ValueView| ValueView::Pair(Box::new(x), Box::new(y)),
                ),
                Err(failure) => Parsed::failed(failure, first.rest),
            }
        },
        Kind::Owned(of) => parse(*of, input).map(
            |inner: ValueView| ValueView::Owned(Box::new(inner)),
        ),
        Kind::Record(schema) => {
            let count = parse_unsigned(input, 2);
            match count.result {
                Ok(pairs) => {
                    let fields = parse_fields(schema, count.rest, pairs, starting(schema));
                    match fields.result {
                        Ok(progress) => Parsed {
                            result: finish(schema@, progress),
                            rest: fields.rest,
                        },
                        Err(failure) => Parsed::failed(failure, fields.rest),
                    }
                },
                Err(failure) => Parsed::failed(failure, count.rest),
            }
        },
        Kind::Union(schema) => {
            let tag = parse_unsigned(input, 2);
            match tag.result {
                Ok(id) => match variant_position(schema@, id as u16, 0) {
                    Some(at) => {
                        proof {
                            lemma_variant_position(schema@, id as u16, 0);
                            schema.lemma_decreases(at);
                        }
                        match schema@[at].payload {
                            Some(of) => parse(of, tag.rest).map(
                                |inner: ValueView|
                                    ValueView::Union(id as u16, Some(Box::new(inner))),
                            ),
                            None => Parsed::done(ValueView::Union(id as u16, None), tag.rest),
                        }
                    },
                    None => Parsed::failed(Failure::UnexpectedVariant, tag.rest),
                },
                Err(failure) => Parsed::failed(failure, tag.rest),
            }
        },
    }
}

/// Decodes `count` values of one kind, one after another, and stops at the
/// first failure.
pub open spec fn parse_each(kind: Kind, input: Seq<u8>, count: nat) -> Parsed<Seq<ValueView>>
    decreases kind, count,
{
    if count == 0 {
        Parsed::done(Seq::empty(), input)
    } else {
        let first = parse(kind, input);
        match first.result {
            Ok(value) => after(seq![value], parse_each(kind, first.rest, (count - 1) as nat)),
            Err(failure) => Parsed::failed(failure, first.rest),
        }
    }
}

/// Decodes `count` pairs of a field id and a value into `progress`. The
/// value after a known id replaces the field's value; an unknown id is
/// passed over. A failure inside a value is tagged with the field's id.
pub open spec fn parse_fields(
    schema: RecordSchema,
    input: Seq<u8>,
    count: nat,
    progress: Progress,
) -> Parsed<Progress>
    decreases schema, count,
{
    if count == 0 {
        Parsed::done(progress, input)
    } else {
        let tag = parse_unsigned(input, 2);
        match tag.result {
            Ok(id) => match field_position(schema@, id as u16, 0) {
                Some(at) => {
                    proof {
                        lemma_field_position(schema@, id as u16, 0);
                        schema.lemma_decreases(at);
                    }
                    let value = parse(schema@[at].kind, tag.rest);
                    match value.result {
                        Ok(decoded) => parse_fields(
                            schema,
                            value.rest,
                            (count - 1) as nat,
                            Progress {
                                values: progress.values.update(at, decoded),
                                seen: progress.seen.update(at, true),
                            },
                        ),
                        Err(failure) => Parsed::failed(failure.with_field(id as u16), value.rest),
                    }
                },
                None => parse_fields(schema, tag.rest, (count - 1) as nat, progress),
            },
            Err(failure) => Parsed::failed(failure, tag.rest),
        }
    }
}

/// What writing `value` as a value of `kind` yields: its encoding, or a
/// failure with nothing written when the value is not one of the kind.
pub open spec fn encoding(kind: Kind, value: ValueView) -> Encoded {
    if value.conforms(kind) {
        encode(kind, value)
    } else {
        Encoded::failed(invalid_input())
    }
}

/// The mathematical content of what decoding a value returned.
pub open spec fn decoded_value(res: Result<Value, LBSError>) -> Result<ValueView, Failure> {
    match res {
        Ok(value) => Ok(value@),
        Err(e) => Err(e@),
    }
}

/// Appends the encoding of `value`, taken as a value of `kind`, to `w`. A
/// value that is not of the kind is reported and nothing is written.
pub fn encode_value(kind: &Kind, value: &Value, w: &mut Vec<u8>) -> (res: Result<(), LBSError>)
    ensures
        final(w)@ == old(w)@ + encoding(*kind, value@).bytes,
        written(res) == encoding(*kind, value@).result,
{
    if !value.has_kind(kind) {
        assert(w@ + Seq::<u8>::empty() =~= w@);
        return Err(LBSError::Io(IoErrorKind::InvalidInput));
    }
    encode_conforming(kind, value, w)
}

/// Appends the encoding of a value of the kind to `w`.
fn encode_conforming(kind: &Kind, value: &Value, w: &mut Vec<u8>) -> (res: Result<(), LBSError>)
    requires
        value@.conforms(*kind),
    ensures
        final(w)@ == old(w)@ + encode(*kind, value@).bytes,
        written(res) == encode(*kind, value@).result,
    decreases value, 0nat,
{
    let ghost before = w@;
    assert(before + Seq::<u8>::empty() =~= before);
    match value {
        Value::Unit => Ok(()),
        Value::Bool(b) => match kind {
            Kind::Bool => b.lbs_write(w),
            _ => unreached(),
        },
        Value::Char(c) => match kind {
            Kind::Char => c.lbs_write(w),
            _ => unreached(),
        },
        Value::Unsigned(n) => match kind {
            Kind::Unsigned(width) => {
                put_le(w, *n, width.byte_count());
                Ok(())
            },
            _ => unreached(),
        },
        Value::Signed(n) => match kind {
            Kind::Signed(width) => {
                write_signed(w, *n, width.byte_count());
                Ok(())
            },
            _ => unreached(),
        },
        Value::Str(text) => match kind {
            Kind::Str => text.lbs_write(w),
            _ => unreached(),
        },
        Value::Opt(inner) => match kind {
            Kind::Opt(of) => match inner {
                Some(inner) => {
                    true.lbs_write(w)?;
                    let res = encode_conforming(of, inner, w);
                    assert(w@ =~= before + (bool_wire(true) + encode(**of, inner@).bytes));
                    res
                },
                None => false.lbs_write(w),
            },
            _ => unreached(),
        },
        Value::List(items) => match kind {
            Kind::List(of) => {
                proof {
                    Value::lemma_list_content(*items);
                }
                write_len(w, items.len())?;
                let res = encode_items(of, items, w);
                assert(w@ =~= before + (len_encoded(items@.len()).bytes + encode_each(
                    **of,
                    contents(items@),
                ).bytes));
                res
            },
            _ => unreached(),
        },
        Value::Pair(first, second) => match kind {
            Kind::Pair(a, b) => {
                encode_conforming(a, first, w)?;
                let res = encode_conforming(b, second, w);
                assert(w@ =~= before + (encode(**a, first@).bytes + encode(**b, second@).bytes));
                res
            },
            _ => unreached(),
        },
        Value::Owned(inner) => match kind {
            Kind::Owned(of) => encode_conforming(of, inner, w),
            _ => unreached(),
        },
        Value::Record(values) => match kind {
            Kind::Record(schema) => {
                proof {
                    Value::lemma_list_content(*values);
                }
                encode_record(schema, values, w)
            },
            _ => unreached(),
        },
        Value::Union(id, payload) => match kind {
            Kind::Union(schema) => {
                write_field_id(w, *id)?;
                match payload {
                    Some(inner) => match schema.position(*id) {
                        Some(at) => match &schema.variants()[at].payload {
                            Some(of) => {
                                let res = encode_conforming(of, inner, w);
                                assert(w@ =~= before + (le_bytes(*id as nat, 2) + encode(
                                    *of,
                                    inner@,
                                ).bytes));
                                res
                            },
                            None => unreached(),
                        },
                        None => unreached(),
                    },
                    None => {
                        assert(w@ =~= before + (le_bytes(*id as nat, 2) + Seq::<u8>::empty()));
                        Ok(())
                    },
                }
            },
            _ => unreached(),
        },
    }
}

/// Appends the encodings of the items, one after another.
fn encode_items(kind: &Kind, items: &Vec<Value>, w: &mut Vec<u8>) -> (res: Result<(), LBSError>)
    requires
        forall|i: int| 0 <= i < items@.len() ==> (#[trigger] contents(items@)[i]).conforms(*kind),
    ensures
        final(w)@ == old(w)@ + encode_each(*kind, contents(items@)).bytes,
        written(res) == encode_each(*kind, contents(items@)).result,
    decreases items, 0nat,
{
    let ghost view = contents(items@);
    let ghost target = w@ + encode_each(*kind, view).bytes;
    let mut index: usize = 0;
    assert(view.skip(0) =~= view);
    while index < items.len()
        invariant
            index <= items@.len(),
            view == contents(items@),
            forall|i: int| 0 <= i < view.len() ==> (#[trigger] view[i]).conforms(*kind),
            target == old(w)@ + encode_each(*kind, view).bytes,
            target == w@ + encode_each(*kind, view.skip(index as int)).bytes,
            encode_each(*kind, view).result == encode_each(*kind, view.skip(index as int)).result,
        decreases items@.len() - index,
    {
        let ghost left = view.skip(index as int);
        let ghost so_far = w@;
        assert(left.drop_first() =~= view.skip(index + 1));
        assert(view[index as int].conforms(*kind));
        let res = encode_conforming(kind, &items[index], w);
        if res.is_err() {
            return res;
        }
        assert(so_far + encode_each(*kind, left).bytes =~= w@ + encode_each(
            *kind,
            left.drop_first(),
        ).bytes);
        index += 1;
    }
    assert(w@ + Seq::<u8>::empty() =~= w@);
    Ok(())
}

/// Appends the encoding of a record: the number of fields that are
/// written, then each of them as its id and its value.
fn encode_record(schema: &RecordSchema, values: &Vec<Value>, w: &mut Vec<u8>) -> (res: Result<
    (),
    LBSError,
>)
    requires
        ValueView::Record(contents(values@)).conforms(Kind::Record(*schema)),
    ensures
        final(w)@ == old(w)@ + encode(
            Kind::Record(*schema),
            ValueView::Record(contents(values@)),
        ).bytes,
        written(res) == encode(
            Kind::Record(*schema),
            ValueView::Record(contents(values@)),
        ).result,
    decreases values, 0nat,
{
    let ghost before = w@;
    let ghost view = contents(values@);
    let fields = schema.fields();
    let limit = if fields.len() < values.len() {
        fields.len()
    } else {
        values.len()
    };
    let mut count: usize = 0;
    let mut index: usize = 0;
    while index < limit
        invariant
            index <= limit,
            limit <= fields@.len(),
            limit <= values@.len(),
            limit == fields@.len() || limit == values@.len(),
            view == contents(values@),
            fields@ == schema@,
            count <= index,
            written_count(schema@, view, 0) == count + written_count(schema@, view, index as int),
        decreases limit - index,
    {
        if !fields[index].skip && values[index].lbs_must_write() {
            count += 1;
        }
        index += 1;
    }
    if count > 0xFFFF {
        assert(before + Seq::<u8>::empty() =~= before);
        return Err(LBSError::Io(IoErrorKind::InvalidInput));
    }
    write_field_count(w, count as u16)?;
    let ghost target = w@ + encode_fields(schema@, view, 0).bytes;
    assert(target =~= before + (le_bytes(count as nat, 2) + encode_fields(schema@, view, 0).bytes));
    index = 0;
    while index < limit
        invariant
            index <= limit,
            limit <= fields@.len(),
            limit <= values@.len(),
            limit == fields@.len() || limit == values@.len(),
            view == contents(values@),
            fields@ == schema@,
            count == written_count(schema@, view, 0),
            count <= 0xFFFF,
            ValueView::Record(view).conforms(Kind::Record(*schema)),
            target == old(w)@ + (le_bytes(count as nat, 2) + encode_fields(schema@, view, 0).bytes),
            target == w@ + encode_fields(schema@, view, index as int).bytes,
            encode_fields(schema@, view, 0).result == encode_fields(
                schema@,
                view,
                index as int,
            ).result,
        decreases limit - index,
    {
        let ghost so_far = w@;
        let field = &fields[index];
        if !field.skip && values[index].lbs_must_write() {
            write_field_id(w, field.id)?;
            assert(view[index as int].conforms(schema@[index as int].kind));
            let res = encode_conforming(&field.kind, &values[index], w);
            assert(w@ =~= so_far + (le_bytes(field.id as nat, 2) + encode(
                field.kind,
                view[index as int],
            ).bytes));
            if res.is_err() {
                return res;
            }
            assert(so_far + encode_fields(schema@, view, index as int).bytes =~= w@
                + encode_fields(schema@, view, index + 1).bytes);
        }
        index += 1;
    }
    assert(w@ + Seq::<u8>::empty() =~= w@);
    Ok(())
}

/// Decodes one value of the given kind from the front of `r`.
pub fn decode_value(kind: &Kind, r: &mut Reader) -> (res: Result<Value, LBSError>)
    ensures
        decoded_value(res) == parse(*kind, old(r)@).result,
        final(r)@ == parse(*kind, old(r)@).rest,
    decreases kind, 0nat,
{
    match kind {
        Kind::Unit => Ok(Value::Unit),
        Kind::Bool => Ok(Value::Bool(bool::lbs_read(r)?)),
        Kind::Char => Ok(Value::Char(char::lbs_read(r)?)),
        Kind::Unsigned(width) => Ok(Value::Unsigned(read_unsigned(r, width.byte_count())?)),
        Kind::Signed(width) => Ok(Value::Signed(read_signed(r, width.byte_count())?)),
        Kind::Str => Ok(Value::Str(String::lbs_read(r)?)),
        Kind::Opt(of) => {
            let flag = read_unsigned(r, 1)?;
            if flag == 1 {
                Ok(Value::Opt(Some(Box::new(decode_value(of, r)?))))
            } else {
                Ok(Value::Opt(None))
            }
        },
        Kind::List(of) => {
            let count = read_len(r)?;
            let items = decode_items(of, r, count)?;
            proof {
                Value::lemma_list_content(items);
            }
            Ok(Value::List(items))
        },
        Kind::Pair(a, b) => {
            let first = decode_value(a, r)?;
            let second = decode_value(b, r)?;
            Ok(Value::Pair(Box::new(first), Box::new(second)))
        },
        Kind::Owned(of) => Ok(Value::Owned(Box::new(decode_value(of, r)?))),
        Kind::Record(schema) => decode_record(schema, r),
        Kind::Union(schema) => decode_union(schema, r),
    }
}

/// Decodes `count` values of one kind, one after another.
fn decode_items(kind: &Kind, r: &mut Reader, count: usize) -> (res: Result<Vec<Value>, LBSError>)
    ensures
        match res {
            Ok(items) => parse_each(*kind, old(r)@, count as nat).result == Ok::<
                Seq<ValueView>,
                Failure,
            >(contents(items@)),
            Err(e) => parse_each(*kind, old(r)@, count as nat).result == Err::<
                Seq<ValueView>,
                Failure,
            >(e@),
        },
        final(r)@ == parse_each(*kind, old(r)@, count as nat).rest,
    decreases kind, 1nat,
{
    let mut items: Vec<Value> = Vec::new();
    let mut index: usize = 0;
    proof {
        lemma_after_nothing(parse_each(*kind, r@, count as nat));
        assert(contents(items@) =~= Seq::<ValueView>::empty());
    }
    while index < count
        invariant
            index <= count,
            parse_each(*kind, old(r)@, count as nat) == after(
                contents(items@),
                parse_each(*kind, r@, (count - index) as nat),
            ),
        decreases count - index,
    {
        let ghost before = contents(items@);
        let item = decode_value(kind, r)?;
        proof {
            lemma_after_one(before, item@, parse_each(*kind, r@, (count - index - 1) as nat));
        }
        items.push(item);
        assert(contents(items@) =~= before.push(item@));
        index += 1;
    }
    assert(contents(items@) + Seq::<ValueView>::empty() =~= contents(items@));
    Ok(items)
}

/// Decodes a record: its fields start at their initial values, the pairs
/// of id and value that follow the count replace the values of the fields
/// they name, and no required field may be left unread.
fn decode_record(schema: &RecordSchema, r: &mut Reader) -> (res: Result<Value, LBSError>)
    ensures
        decoded_value(res) == parse(Kind::Record(*schema), old(r)@).result,
        final(r)@ == parse(Kind::Record(*schema), old(r)@).rest,
    decreases schema, 1nat,
{
    let fields = schema.fields();
    let mut values = schema.initial();
    let mut seen: Vec<bool> = Vec::new();
    while seen.len() < fields.len()
        invariant
            seen@.len() <= fields@.len(),
            forall|i: int| 0 <= i < seen@.len() ==> !seen@[i],
        decreases fields@.len() - seen@.len(),
    {
        seen.push(false);
    }
    let ghost start = starting(*schema);
    proof {
        lemma_initial_values_len(*schema, schema@.len());
        assert(seen@ =~= start.seen);
    }
    let count = read_field_count(r)?;
    let ghost input = r@;
    let mut index: u16 = 0;
    while index < count
        invariant
            index <= count,
            fields@ == schema@,
            values@.len() == schema@.len(),
            seen@.len() == schema@.len(),
            parse_unsigned(old(r)@, 2).result == Ok::<nat, Failure>(count as nat),
            parse_unsigned(old(r)@, 2).rest == input,
            start == starting(*schema),
            parse_fields(*schema, input, count as nat, start) == parse_fields(
                *schema,
                r@,
                (count - index) as nat,
                Progress { values: contents(values@), seen: seen@ },
            ),
        decreases count - index,
    {
        let id = read_field_id(r)?;
        match schema.position(id) {
            Some(at) => {
                proof {
                    schema.lemma_decreases(at as int);
                }
                let ghost before = contents(values@);
                let value = match decode_value(&fields[at].kind, r) {
                    Ok(value) => value,
                    Err(e) => {
                        return Err(e.with_field(id));
                    },
                };
                values[at] = value;
                seen[at] = true;
                assert(contents(values@) =~= before.update(at as int, value@));
            },
            None => {},
        }
        index += 1;
    }
    let mut at: usize = 0;
    while at < fields.len()
        invariant
            at <= fields@.len(),
            fields@ == schema@,
            seen@.len() == schema@.len(),
            parse_unsigned(old(r)@, 2).result == Ok::<nat, Failure>(count as nat),
            parse_unsigned(old(r)@, 2).rest == input,
            start == starting(*schema),
            parse_fields(*schema, input, count as nat, start) == Parsed::done(
                Progress { values: contents(values@), seen: seen@ },
                r@,
            ),
            first_missing(schema@, seen@, 0) == first_missing(schema@, seen@, at as int),
        decreases fields@.len() - at,
    {
        if fields[at].required && !seen[at] {
            return Err(LBSError::RequiredButMissing.with_field(fields[at].id));
        }
        at += 1;
    }
    proof {
        Value::lemma_list_content(values);
    }
    Ok(Value::Record(values))
}

/// Decodes a tagged union: the id of a variant of the schema, then the
/// payload if that variant carries one.
fn decode_union(schema: &VariantSchema, r: &mut Reader) -> (res: Result<Value, LBSError>)
    ensures
        decoded_value(res) == parse(Kind::Union(*schema), old(r)@).result,
        final(r)@ == parse(Kind::Union(*schema), old(r)@).rest,
    decreases schema, 1nat,
{
    let id = read_field_id(r)?;
    match schema.position(id) {
        Some(at) => {
            proof {
                schema.lemma_decreases(at as int);
            }
            match &schema.variants()[at].payload {
                Some(of) => Ok(Value::Union(id, Some(Box::new(decode_value(of, r)?)))),
                None => Ok(Value::Union(id, None)),
            }
        },
        None => Err(LBSError::UnexpectedVariant),
    }
}

/// The initial values of a schema's first fields are as many as asked for.
pub proof fn lemma_initial_values_len(schema: RecordSchema, count: nat)
    requires
        count <= schema@.len(),
    ensures
        initial_values(schema, count).len() == count,
    decreases count,
{
    if count > 0 {
        lemma_initial_values_len(schema, (count - 1) as nat);
    }
}

} // verus!
