//! What holds of the codec as a whole: decoding inverts encoding, values
//! written one after another are read back one after another, and a record
//! of defaults is written as an empty record.

use crate::endian::{le_bytes, lemma_le_value_bound, lemma_radix_values};
use crate::error::Failure;
use crate::format::{
    bool_wire, fits_len, lemma_bool_round_trip, lemma_char_round_trip, lemma_signed_round_trip,
    lemma_str_round_trip, lemma_unsigned_round_trip, len_wire, parse_unsigned, Encoded, Parsed,
};
use crate::record::{
    encode, encode_each, encode_fields, finish, first_missing, is_written, lemma_field_position,
    lemma_initial_values_len, lemma_variant_position, parse, parse_each, parse_fields, starting,
    written_count, Progress,
};
use crate::value::{
    distinct_field_ids, distinct_variant_ids, field_position, initial_values, variant_position,
    FieldMeta, Kind, RecordSchema, ValueView, VariantMeta, VariantSchema,
};
use vstd::prelude::*;
use vstd::utf8::encode_utf8;

verus! {

/// Whether decoding restores what encoding leaves out of the value: in
/// every record inside it, a field that is not written holds its initial
/// value and is not required.
pub open spec fn restorable(kind: Kind, value: ValueView) -> bool
    decreases value,
{
    match (kind, value) {
        (Kind::Opt(of), ValueView::Opt(Some(inner))) => restorable(*of, *inner),
        (Kind::List(of), ValueView::List(items)) => items.len() == 0 || forall|i: int|
            0 <= i < items.len() ==> restorable(*of, #[trigger] items[i]),
        (Kind::Pair(a, b), ValueView::Pair(first, second)) => restorable(*a, *first)
            && restorable(*b, *second),
        (Kind::Owned(of), ValueView::Owned(inner)) => restorable(*of, *inner),
        (Kind::Record(schema), ValueView::Record(values)) => values.len() == schema@.len()
            && forall|i: int|
            0 <= i < values.len() ==> if is_written(schema@[i], #[trigger] values[i]) {
                restorable(schema@[i].kind, values[i])
            } else {
                values[i] == schema@[i].initial() && !schema@[i].required
            },
        (Kind::Union(schema), ValueView::Union(id, Some(inner))) => match variant_position(
            schema@,
            id,
            0,
        ) {
            Some(at) => match schema@[at].payload {
                Some(of) => restorable(of, *inner),
                None => true,
            },
            None => true,
        },
        _ => true,
    }
}

/// Each of a schema's initial values is the initial value of its field.
pub proof fn lemma_initial_values_index(schema: RecordSchema, count: nat, i: int)
    requires
        0 <= i < count <= schema@.len(),
    ensures
        initial_values(schema, count).len() == count,
        initial_values(schema, count)[i] == schema@[i].initial(),
    decreases count,
{
    lemma_initial_values_len(schema, count);
    lemma_initial_values_len(schema, (count - 1) as nat);
    if i < count - 1 {
        lemma_initial_values_index(schema, (count - 1) as nat, i);
    }
}

/// Where no two fields share an id, a field that is not skipped is found
/// under its id.
pub proof fn lemma_field_found(fields: Seq<FieldMeta>, at: int, from: int)
    requires
        distinct_field_ids(fields),
        0 <= from <= at < fields.len(),
        !fields[at].skip,
    ensures
        field_position(fields, fields[at].id, from) == Some(at),
    decreases at - from,
{
    if from < at {
        lemma_field_found(fields, at, from + 1);
    }
}

/// Where no two variants share an id, a variant is found under its id.
pub proof fn lemma_variant_found(variants: Seq<VariantMeta>, at: int, from: int)
    requires
        distinct_variant_ids(variants),
        0 <= from <= at < variants.len(),
    ensures
        variant_position(variants, variants[at].id, from) == Some(at),
    decreases at - from,
{
    if from < at {
        lemma_variant_found(variants, at, from + 1);
    }
}

/// What the fields hold after the fields at or after `from` that are
/// written have been read into `progress`.
pub open spec fn merged(
    progress: Progress,
    fields: Seq<FieldMeta>,
    values: Seq<ValueView>,
    from: int,
) -> Progress {
    Progress {
        values: Seq::new(
            progress.values.len(),
            |i: int|
                if from <= i < values.len() && is_written(fields[i], values[i]) {
                    values[i]
                } else {
                    progress.values[i]
                },
        ),
        seen: Seq::new(
            progress.seen.len(),
            |i: int|
                if from <= i < values.len() && is_written(fields[i], values[i]) {
                    true
                } else {
                    progress.seen[i]
                },
        ),
    }
}

/// Decoding inverts encoding: a value of a well-formed kind that was
/// written without failure, and from which nothing was left out that
/// decoding cannot restore, is read back as it was, up to the bytes that
/// followed it.
pub proof fn lemma_round_trip(kind: Kind, value: ValueView, rest: Seq<u8>)
    requires
        kind.wf(),
        value.conforms(kind),
        restorable(kind, value),
        encode(kind, value).result is Ok,
    ensures
        parse(kind, encode(kind, value).bytes + rest) == Parsed::done(value, rest),
    decreases value, 0nat,
{
    lemma_radix_values();
    let bytes = encode(kind, value).bytes;
    match kind {
        Kind::Unit => {
            assert(bytes + rest =~= rest);
        },
        Kind::Bool => {
            lemma_bool_round_trip(value->Bool_0, rest);
        },
        Kind::Char => {
            lemma_char_round_trip(value->Char_0, rest);
        },
        Kind::Unsigned(width) => {
            lemma_unsigned_round_trip(value->Unsigned_0, width.bytes(), rest);
        },
        Kind::Signed(width) => {
            lemma_signed_round_trip(value->Signed_0, width.bytes(), rest);
        },
        Kind::Str => {
            lemma_str_round_trip(value->Str_0, rest);
        },
        Kind::Opt(of) => {
            match value->Opt_0 {
                Some(inner) => {
                    let tail = encode(*of, *inner).bytes;
                    assert(bytes + rest =~= bool_wire(true) + (tail + rest));
                    lemma_unsigned_round_trip(1, 1, tail + rest);
                    lemma_round_trip(*of, *inner, rest);
                },
                None => {
                    lemma_unsigned_round_trip(0, 1, rest);
                },
            }
        },
        Kind::List(of) => {
            let items = value->List_0;
            let tail = encode_each(*of, items).bytes;
            assert(bytes + rest =~= le_bytes(items.len(), 4) + (tail + rest));
            lemma_unsigned_round_trip(items.len(), 4, tail + rest);
            lemma_each_round_trip(*of, items, rest);
        },
        Kind::Pair(a, b) => {
            let first = *value->Pair_0;
            let second = *value->Pair_1;
            let tail = encode(*b, second).bytes;
            assert(bytes + rest =~= encode(*a, first).bytes + (tail + rest));
            lemma_round_trip(*a, first, tail + rest);
            lemma_round_trip(*b, second, rest);
        },
        Kind::Owned(of) => {
            lemma_round_trip(*of, *value->Owned_0, rest);
        },
        Kind::Record(schema) => {
            let values = value->Record_0;
            let fields = schema@;
            let count = written_count(fields, values, 0);
            let tail = encode_fields(fields, values, 0).bytes;
            let start = starting(schema);
            lemma_initial_values_len(schema, fields.len());
            assert(bytes + rest =~= le_bytes(count, 2) + (tail + rest));
            lemma_unsigned_round_trip(count, 2, tail + rest);
            assert(fields.take(fields.len() as int) =~= fields);
            lemma_fields_round_trip(schema, fields, values, 0, start, rest);
            let end = merged(start, fields, values, 0);
            assert(end.values =~= values) by {
                assert forall|i: int| 0 <= i < values.len() implies end.values[i] == values[i] by {
                    lemma_initial_values_index(schema, fields.len(), i);
                }
            }
            lemma_none_missing(fields, end.seen, 0);
        },
        Kind::Union(schema) => {
            let id = value->Union_0;
            let at = variant_position(schema@, id, 0)->Some_0;
            lemma_variant_position(schema@, id, 0);
            match value->Union_1 {
                Some(inner) => {
                    let of = schema@[at].payload->Some_0;
                    let tail = encode(of, *inner).bytes;
                    schema.lemma_variants_wf(schema@.len());
                    assert(bytes + rest =~= le_bytes(id as nat, 2) + (tail + rest));
                    lemma_unsigned_round_trip(id as nat, 2, tail + rest);
                    lemma_round_trip(of, *inner, rest);
                },
                None => {
                    assert(bytes + rest =~= le_bytes(id as nat, 2) + rest);
                    lemma_unsigned_round_trip(id as nat, 2, rest);
                },
            }
        },
    }
}

/// No field is missing when every required field was read.
proof fn lemma_none_missing(fields: Seq<FieldMeta>, seen: Seq<bool>, from: int)
    requires
        0 <= from,
        seen.len() == fields.len(),
        forall|i: int| 0 <= i < fields.len() && (#[trigger] fields[i]).required ==> seen[i],
    ensures
        first_missing(fields, seen, from) is None,
    decreases fields.len() - from,
{
    if from < fields.len() {
        lemma_none_missing(fields, seen, from + 1);
    }
}

/// The first missing field is the first required field that was not read.
proof fn lemma_first_missing(fields: Seq<FieldMeta>, seen: Seq<bool>, at: int, from: int)
    requires
        0 <= from <= at < fields.len(),
        seen.len() == fields.len(),
        forall|i: int| from <= i < at && (#[trigger] fields[i]).required ==> seen[i],
        fields[at].required,
        !seen[at],
    ensures
        first_missing(fields, seen, from) == Some(at),
    decreases at - from,
{
    if from < at {
        lemma_first_missing(fields, seen, at, from + 1);
    }
}

/// Decoding inverts the encoding of several values of one kind.
proof fn lemma_each_round_trip(kind: Kind, items: Seq<ValueView>, rest: Seq<u8>)
    requires
        kind.wf(),
        forall|i: int| 0 <= i < items.len() ==> (#[trigger] items[i]).conforms(kind),
        forall|i: int| 0 <= i < items.len() ==> restorable(kind, #[trigger] items[i]),
        encode_each(kind, items).result is Ok,
    ensures
        parse_each(kind, encode_each(kind, items).bytes + rest, items.len()) == Parsed::done(
            items,
            rest,
        ),
    decreases items, 0nat,
{
    let bytes = encode_each(kind, items).bytes;
    if items.len() == 0 {
        assert(bytes + rest =~= rest);
        assert(items =~= Seq::<ValueView>::empty());
    } else {
        let first = items[0];
        let others = items.drop_first();
        let tail = encode_each(kind, others).bytes;
        assert(bytes + rest =~= encode(kind, first).bytes + (tail + rest));
        lemma_round_trip(kind, first, tail + rest);
        assert forall|i: int| 0 <= i < others.len() implies (#[trigger] others[i]).conforms(
            kind,
        ) && restorable(kind, others[i]) by {
            assert(others[i] == items[i + 1]);
        }
        lemma_each_round_trip(kind, others, rest);
        assert(seq![first] + others =~= items);
    }
}

/// Whether the values can be written as the given fields and read back:
/// each is of its field's kind, and the ones that are written are
/// restorable.
pub open spec fn writable_as(fields: Seq<FieldMeta>, values: Seq<ValueView>) -> bool {
    &&& values.len() == fields.len()
    &&& forall|i: int| 0 <= i < values.len() ==> (#[trigger] values[i]).conforms(fields[i].kind)
    &&& forall|i: int|
        0 <= i < values.len() && is_written(fields[i], #[trigger] values[i]) ==> restorable(
            fields[i].kind,
            values[i],
        )
}

/// Decoding the fields that a record wrote puts each of them in its place,
/// also under a schema that declares more fields after those of the writer.
proof fn lemma_fields_round_trip(
    schema: RecordSchema,
    writer: Seq<FieldMeta>,
    values: Seq<ValueView>,
    from: int,
    progress: Progress,
    rest: Seq<u8>,
)
    requires
        Kind::Record(schema).wf(),
        writer.len() <= schema@.len(),
        writer == schema@.take(writer.len() as int),
        writable_as(writer, values),
        0 <= from <= values.len(),
        encode_fields(writer, values, from).result is Ok,
        progress.values.len() == schema@.len(),
        progress.seen.len() == schema@.len(),
    ensures
        parse_fields(
            schema,
            encode_fields(writer, values, from).bytes + rest,
            written_count(writer, values, from),
            progress,
        ) == Parsed::done(merged(progress, writer, values, from), rest),
    decreases values, values.len() - from,
{
    lemma_radix_values();
    let bytes = encode_fields(writer, values, from).bytes;
    if from >= values.len() {
        assert(bytes + rest =~= rest);
        let end = merged(progress, writer, values, from);
        assert(end.values =~= progress.values);
        assert(end.seen =~= progress.seen);
    } else if is_written(writer[from], values[from]) {
        let field = writer[from];
        let value = values[from];
        let body = encode(field.kind, value).bytes;
        let tail = encode_fields(writer, values, from + 1).bytes;
        assert(field == schema@[from]);
        schema.lemma_fields_wf(schema@.len());
        assert(bytes + rest =~= le_bytes(field.id as nat, 2) + (body + (tail + rest)));
        lemma_unsigned_round_trip(field.id as nat, 2, body + (tail + rest));
        lemma_field_found(schema@, from, 0);
        assert(value.conforms(field.kind));
        assert(restorable(field.kind, value));
        lemma_round_trip(field.kind, value, tail + rest);
        let next = Progress {
            values: progress.values.update(from, value),
            seen: progress.seen.update(from, true),
        };
        lemma_fields_round_trip(schema, writer, values, from + 1, next, rest);
        let end = merged(progress, writer, values, from);
        let other = merged(next, writer, values, from + 1);
        assert(end.values =~= other.values);
        assert(end.seen =~= other.seen);
    } else {
        lemma_fields_round_trip(schema, writer, values, from + 1, progress, rest);
        let end = merged(progress, writer, values, from);
        let other = merged(progress, writer, values, from + 1);
        assert(end.values =~= other.values);
        assert(end.seen =~= other.seen);
    }
}

/// Values written one after another are read back one after another:
/// each decoding ends where the next value begins.
pub proof fn lemma_batch(kind: Kind, first: ValueView, second: ValueView, rest: Seq<u8>)
    requires
        kind.wf(),
        first.conforms(kind),
        second.conforms(kind),
        restorable(kind, first),
        restorable(kind, second),
        encode(kind, first).result is Ok,
        encode(kind, second).result is Ok,
    ensures
        parse(kind, encode(kind, first).bytes + encode(kind, second).bytes + rest)
            == Parsed::done(first, encode(kind, second).bytes + rest),
        parse(kind, encode(kind, second).bytes + rest) == Parsed::done(second, rest),
{
    let one = encode(kind, first).bytes;
    let two = encode(kind, second).bytes;
    assert(one + two + rest =~= one + (two + rest));
    lemma_round_trip(kind, first, two + rest);
    lemma_round_trip(kind, second, rest);
}

/// The fields at or after `from` are all left out when none is written.
proof fn lemma_nothing_written(fields: Seq<FieldMeta>, values: Seq<ValueView>, from: int)
    requires
        0 <= from,
        forall|i: int|
            0 <= i < fields.len() && i < values.len() ==> !is_written(
                fields[i],
                #[trigger] values[i],
            ),
    ensures
        written_count(fields, values, from) == 0,
        encode_fields(fields, values, from) == Encoded::nothing(),
    decreases fields.len() - from,
{
    if from < fields.len() && from < values.len() {
        assert(!is_written(fields[from], values[from]));
        lemma_nothing_written(fields, values, from + 1);
    }
}

/// A record none of whose fields is written, each being skipped or
/// holding a value that is left out, is encoded as the field count zero and
/// nothing more.
pub proof fn lemma_defaults_encode(schema: RecordSchema, values: Seq<ValueView>)
    requires
        forall|i: int|
            0 <= i < schema@.len() && i < values.len() ==> !is_written(
                schema@[i],
                #[trigger] values[i],
            ),
    ensures
        encode(Kind::Record(schema), ValueView::Record(values)) == Encoded::of(le_bytes(0, 2)),
{
    lemma_nothing_written(schema@, values, 0);
    assert(le_bytes(0, 2) + Seq::<u8>::empty() =~= le_bytes(0, 2));
}

/// An empty record is read back as the record of its schema's initial
/// values, unless the schema has a required field: then decoding fails and
/// names the first of them.
pub proof fn lemma_empty_record_decode(schema: RecordSchema, rest: Seq<u8>)
    ensures
        parse(Kind::Record(schema), le_bytes(0, 2) + rest) == (Parsed {
            result: match first_missing(schema@, starting(schema).seen, 0) {
                Some(at) => Err(Failure::RequiredButMissing.with_field(schema@[at].id)),
                None => Ok(ValueView::Record(initial_values(schema, schema@.len()))),
            },
            rest,
        }),
{
    reveal_with_fuel(parse, 2);
    lemma_radix_values();
    lemma_unsigned_round_trip(0, 2, rest);
}

/// A record whose fields are all at their initial values, none of them
/// required and none of them written, is encoded as the field count zero
/// alone and read back as the record of initial values.
pub proof fn lemma_defaults_round_trip(schema: RecordSchema, rest: Seq<u8>)
    requires
        forall|i: int| 0 <= i < schema@.len() ==> !(#[trigger] schema@[i]).required,
        forall|i: int|
            0 <= i < schema@.len() ==> !is_written(
                #[trigger] schema@[i],
                schema@[i].initial(),
            ),
    ensures
        encode(
            Kind::Record(schema),
            ValueView::Record(initial_values(schema, schema@.len())),
        ) == Encoded::of(le_bytes(0, 2)),
        parse(Kind::Record(schema), le_bytes(0, 2) + rest) == Parsed::done(
            ValueView::Record(initial_values(schema, schema@.len())),
            rest,
        ),
{
    let values = initial_values(schema, schema@.len());
    assert forall|i: int| 0 <= i < schema@.len() && i < values.len() implies !is_written(
        schema@[i],
        #[trigger] values[i],
    ) by {
        lemma_initial_values_index(schema, schema@.len(), i);
    }
    lemma_defaults_encode(schema, values);
    lemma_empty_record_decode(schema, rest);
    lemma_none_missing(schema@, starting(schema).seen, 0);
}

/// A variant that carries a string is written as its id, the length of
/// the string's UTF-8 bytes and those bytes, and is read back as the same
/// variant with the same string.
pub proof fn lemma_union_with_text(schema: VariantSchema, at: int, text: Seq<char>, rest: Seq<u8>)
    requires
        schema.wf(),
        0 <= at < schema@.len(),
        schema@[at].payload == Some(Kind::Str),
        fits_len(encode_utf8(text).len()),
    ensures
        ({
            let id = schema@[at].id;
            let value = ValueView::Union(id, Some(Box::new(ValueView::Str(text))));
            let bytes = le_bytes(id as nat, 2) + len_wire(encode_utf8(text).len()) + encode_utf8(
                text,
            );
            &&& encode(Kind::Union(schema), value) == Encoded::of(bytes)
            &&& parse(Kind::Union(schema), bytes + rest) == Parsed::done(value, rest)
        }),
{
    let id = schema@[at].id;
    let value = ValueView::Union(id, Some(Box::new(ValueView::Str(text))));
    let bytes = le_bytes(id as nat, 2) + len_wire(encode_utf8(text).len()) + encode_utf8(text);
    reveal_with_fuel(encode, 2);
    reveal_with_fuel(ValueView::conforms, 2);
    reveal_with_fuel(restorable, 2);
    lemma_variant_found(schema@, at, 0);
    assert(encode(Kind::Union(schema), value).bytes =~= bytes);
    lemma_round_trip(Kind::Union(schema), value, rest);
}

/// From any field on, a schema and the schema without its last fields
/// write the same when those last fields are left out.
proof fn lemma_fields_without_last(
    wide: Seq<FieldMeta>,
    narrow: Seq<FieldMeta>,
    values: Seq<ValueView>,
    from: int,
)
    requires
        0 <= from,
        narrow.len() <= wide.len(),
        narrow == wide.take(narrow.len() as int),
        values.len() == wide.len(),
        forall|i: int|
            narrow.len() <= i < wide.len() ==> !is_written(wide[i], #[trigger] values[i]),
    ensures
        written_count(wide, values, from) == written_count(
            narrow,
            values.take(narrow.len() as int),
            from,
        ),
        encode_fields(wide, values, from) == encode_fields(
            narrow,
            values.take(narrow.len() as int),
            from,
        ),
    decreases wide.len() - from,
{
    if from < wide.len() {
        lemma_fields_without_last(wide, narrow, values, from + 1);
        if from >= narrow.len() {
            assert(!is_written(wide[from], values[from]));
        }
    }
}

/// Removing fields from the end of a schema is safe for a reader: a
/// record in which the removed fields were left out is written without a
/// trace of them, byte for byte as the narrower schema writes the remaining
/// fields, and the narrower schema reads those back.
pub proof fn lemma_removed_fields(
    wide: RecordSchema,
    narrow: RecordSchema,
    values: Seq<ValueView>,
    rest: Seq<u8>,
)
    requires
        narrow@.len() <= wide@.len(),
        narrow@ == wide@.take(narrow@.len() as int),
        values.len() == wide@.len(),
        forall|i: int|
            narrow@.len() <= i < wide@.len() ==> !is_written(wide@[i], #[trigger] values[i]),
        narrow.wf(),
        ValueView::Record(values.take(narrow@.len() as int)).conforms(Kind::Record(narrow)),
        restorable(Kind::Record(narrow), ValueView::Record(values.take(narrow@.len() as int))),
        encode(Kind::Record(wide), ValueView::Record(values)).result is Ok,
    ensures
        encode(Kind::Record(wide), ValueView::Record(values)) == encode(
            Kind::Record(narrow),
            ValueView::Record(values.take(narrow@.len() as int)),
        ),
        parse(
            Kind::Record(narrow),
            encode(Kind::Record(wide), ValueView::Record(values)).bytes + rest,
        ) == Parsed::done(ValueView::Record(values.take(narrow@.len() as int)), rest),
{
    lemma_fields_without_last(wide@, narrow@, values, 0);
    lemma_round_trip(
        Kind::Record(narrow),
        ValueView::Record(values.take(narrow@.len() as int)),
        rest,
    );
}

/// What is decoded under a well-formed kind is a value of that kind.
pub proof fn lemma_decoded_conforms(kind: Kind, input: Seq<u8>)
    requires
        kind.wf(),
    ensures
        parse(kind, input).result matches Ok(value) ==> value.conforms(kind),
    decreases kind, 0nat,
{
    lemma_radix_values();
    match kind {
        Kind::Unsigned(width) => {
            if input.len() >= width.bytes() {
                lemma_le_value_bound(input.take(width.bytes() as int));
            }
        },
        Kind::Signed(width) => {
            if input.len() >= width.bytes() {
                lemma_le_value_bound(input.take(width.bytes() as int));
            }
        },
        Kind::Opt(of) => {
            let flag = parse_unsigned(input, 1);
            if flag.result is Ok {
                lemma_decoded_conforms(*of, flag.rest);
            }
        },
        Kind::List(of) => {
            let len = parse_unsigned(input, 4);
            if len.result is Ok {
                lemma_le_value_bound(input.take(4));
                lemma_each_decoded_conforms(*of, len.rest, len.result->Ok_0);
            }
        },
        Kind::Pair(a, b) => {
            let first = parse(*a, input);
            lemma_decoded_conforms(*a, input);
            if first.result is Ok {
                lemma_decoded_conforms(*b, first.rest);
            }
        },
        Kind::Owned(of) => {
            lemma_decoded_conforms(*of, input);
        },
        Kind::Record(schema) => {
            let count = parse_unsigned(input, 2);
            if count.result is Ok {
                let pairs = count.result->Ok_0;
                let start = starting(schema);
                lemma_initial_values_len(schema, schema@.len());
                schema.lemma_fields_wf(schema@.len());
                assert forall|i: int| 0 <= i < schema@.len() implies (
                #[trigger] start.values[i]).conforms(schema@[i].kind) by {
                    lemma_initial_values_index(schema, schema@.len(), i);
                }
                lemma_fields_decoded_conform(schema, count.rest, pairs, start);
            }
        },
        Kind::Union(schema) => {
            let tag = parse_unsigned(input, 2);
            if tag.result is Ok {
                let id = tag.result->Ok_0 as u16;
                lemma_le_value_bound(input.take(2));
                let found = variant_position(schema@, id, 0);
                if found is Some {
                    let at = found->Some_0;
                    lemma_variant_position(schema@, id, 0);
                    schema.lemma_variants_wf(schema@.len());
                    if schema@[at].payload is Some {
                        schema.lemma_decreases(at);
                        lemma_decoded_conforms(schema@[at].payload->Some_0, tag.rest);
                    }
                }
            }
        },
        _ => {},
    }
}

/// What is decoded as several values of a well-formed kind are as many
/// values of that kind as were asked for.
proof fn lemma_each_decoded_conforms(kind: Kind, input: Seq<u8>, count: nat)
    requires
        kind.wf(),
    ensures
        parse_each(kind, input, count).result matches Ok(items) ==> items.len() == count
            && forall|i: int| 0 <= i < items.len() ==> (#[trigger] items[i]).conforms(kind),
    decreases kind, count,
{
    if count > 0 {
        let first = parse(kind, input);
        lemma_decoded_conforms(kind, input);
        if first.result is Ok {
            lemma_each_decoded_conforms(kind, first.rest, (count - 1) as nat);
        }
    }
}

/// Reading fields into values of their kinds leaves values of their kinds.
proof fn lemma_fields_decoded_conform(
    schema: RecordSchema,
    input: Seq<u8>,
    count: nat,
    progress: Progress,
)
    requires
        Kind::Record(schema).wf(),
        progress.values.len() == schema@.len(),
        forall|i: int|
            0 <= i < schema@.len() ==> (#[trigger] progress.values[i]).conforms(schema@[i].kind),
    ensures
        parse_fields(schema, input, count, progress).result matches Ok(end) ==> end.values.len()
            == schema@.len() && forall|i: int|
            0 <= i < schema@.len() ==> (#[trigger] end.values[i]).conforms(schema@[i].kind),
    decreases schema, count,
{
    if count > 0 {
        let tag = parse_unsigned(input, 2);
        if tag.result is Ok {
            let id = tag.result->Ok_0 as u16;
            match field_position(schema@, id, 0) {
                Some(at) => {
                    lemma_field_position(schema@, id, 0);
                    schema.lemma_decreases(at);
                    schema.lemma_fields_wf(schema@.len());
                    let value = parse(schema@[at].kind, tag.rest);
                    lemma_decoded_conforms(schema@[at].kind, tag.rest);
                    if value.result is Ok {
                        let next = Progress {
                            values: progress.values.update(at, value.result->Ok_0),
                            seen: progress.seen.update(at, true),
                        };
                        lemma_fields_decoded_conform(schema, value.rest, (count - 1) as nat, next);
                    }
                },
                None => {
                    lemma_fields_decoded_conform(schema, tag.rest, (count - 1) as nat, progress);
                },
            }
        }
    }
}

/// What a reader makes of a record that was written before fields were
/// added at the end of its schema: the fields that were written are read,
/// the others keep their initial values, and the record is complete unless
/// a required field is among those that were not read.
pub proof fn lemma_added_fields(
    narrow: RecordSchema,
    wide: RecordSchema,
    values: Seq<ValueView>,
    rest: Seq<u8>,
)
    requires
        wide.wf(),
        narrow@.len() <= wide@.len(),
        narrow@ == wide@.take(narrow@.len() as int),
        writable_as(narrow@, values),
        encode(Kind::Record(narrow), ValueView::Record(values)).result is Ok,
    ensures
        parse(
            Kind::Record(wide),
            encode(Kind::Record(narrow), ValueView::Record(values)).bytes + rest,
        ) == (Parsed {
            result: finish(wide@, merged(starting(wide), narrow@, values, 0)),
            rest,
        }),
{
    lemma_radix_values();
    let count = written_count(narrow@, values, 0);
    let tail = encode_fields(narrow@, values, 0).bytes;
    let bytes = encode(Kind::Record(narrow), ValueView::Record(values)).bytes;
    lemma_initial_values_len(wide, wide@.len());
    assert(bytes + rest =~= le_bytes(count, 2) + (tail + rest));
    lemma_unsigned_round_trip(count, 2, tail + rest);
    lemma_fields_round_trip(wide, narrow@, values, 0, starting(wide), rest);
}

/// Adding a required field at the end of a schema breaks the reading of
/// what was written before: a record that was complete without the field
/// is refused, and the failure names the new field.
pub proof fn lemma_added_required_field(
    narrow: RecordSchema,
    wide: RecordSchema,
    values: Seq<ValueView>,
    rest: Seq<u8>,
)
    requires
        wide.wf(),
        wide@.len() == narrow@.len() + 1,
        narrow@ == wide@.take(narrow@.len() as int),
        wide@.last().required,
        writable_as(narrow@, values),
        forall|i: int|
            0 <= i < narrow@.len() && (#[trigger] narrow@[i]).required ==> is_written(
                narrow@[i],
                values[i],
            ),
        encode(Kind::Record(narrow), ValueView::Record(values)).result is Ok,
    ensures
        parse(
            Kind::Record(wide),
            encode(Kind::Record(narrow), ValueView::Record(values)).bytes + rest,
        ) == Parsed::<ValueView>::failed(
            Failure::RequiredButMissing.with_field(wide@.last().id),
            rest,
        ),
{
    lemma_added_fields(narrow, wide, values, rest);
    lemma_initial_values_len(wide, wide@.len());
    let end = merged(starting(wide), narrow@, values, 0);
    assert forall|i: int|
        0 <= i < narrow@.len() && (#[trigger] wide@[i]).required implies end.seen[i] by {
        assert(wide@[i] == narrow@[i]);
    }
    lemma_first_missing(wide@, end.seen, narrow@.len() as int, 0);
}

/// Adding a field that is not required at the end of a schema is safe for
/// what was written before: the record is read back with the new field at
/// its initial value.
pub proof fn lemma_added_optional_field(
    narrow: RecordSchema,
    wide: RecordSchema,
    values: Seq<ValueView>,
    rest: Seq<u8>,
)
    requires
        wide.wf(),
        wide@.len() == narrow@.len() + 1,
        narrow@ == wide@.take(narrow@.len() as int),
        !wide@.last().required,
        ValueView::Record(values).conforms(Kind::Record(narrow)),
        restorable(Kind::Record(narrow), ValueView::Record(values)),
        encode(Kind::Record(narrow), ValueView::Record(values)).result is Ok,
    ensures
        parse(
            Kind::Record(wide),
            encode(Kind::Record(narrow), ValueView::Record(values)).bytes + rest,
        ) == Parsed::done(ValueView::Record(values.push(wide@.last().initial())), rest),
{
    lemma_added_fields(narrow, wide, values, rest);
    lemma_initial_values_len(wide, wide@.len());
    let end = merged(starting(wide), narrow@, values, 0);
    assert forall|i: int|
        0 <= i < wide@.len() && (#[trigger] wide@[i]).required implies end.seen[i] by {
        assert(wide@[i] == narrow@[i]);
    }
    lemma_none_missing(wide@, end.seen, 0);
    assert(end.values =~= values.push(wide@.last().initial())) by {
        assert forall|i: int| 0 <= i < wide@.len() implies end.values[i] == values.push(
            wide@.last().initial(),
        )[i] by {
            lemma_initial_values_index(wide, wide@.len(), i);
            if i < narrow@.len() {
                assert(wide@[i] == narrow@[i]);
            }
        }
    }
}

} // verus!
