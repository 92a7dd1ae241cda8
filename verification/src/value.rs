//! Values and their types: what a schema says a field holds, and the data
//! that the record and variant codecs move to and from the wire.

use crate::endian::{lemma_radix_values, radix};
use vstd::prelude::*;

verus! {

/// The width of an integer on the wire.
#[derive(Clone, Copy, Debug, PartialEq, Eq, Structural)]
pub enum Width {
    W8,
    W16,
    W32,
    W64,
    W128,
}

impl Width {
    /// The number of bytes that an integer of this width occupies.
    pub open spec fn bytes(self) -> nat {
        match self {
            Width::W8 => 1,
            Width::W16 => 2,
            Width::W32 => 4,
            Width::W64 => 8,
            Width::W128 => 16,
        }
    }

    /// The number of bytes that an integer of this width occupies.
    pub fn byte_count(self) -> (count: usize)
        ensures
            count == self.bytes(),
    {
        match self {
            Width::W8 => 1,
            Width::W16 => 2,
            Width::W32 => 4,
            Width::W64 => 8,
            Width::W128 => 16,
        }
    }
}

/// The type of a value. It fixes the value's layout on the wire.
///
/// Platform-sized integers travel as 64-bit integers and floating-point
/// numbers as the unsigned integer of their IEEE-754 bit pattern. A triple
/// is a pair whose second half is a pair, a half-open range is the pair of
/// its bounds, and a map is a list of key and value pairs.
#[derive(Debug, PartialEq, Eq)]
pub enum Kind {
    /// The empty value: no bytes.
    Unit,
    /// One byte.
    Bool,
    /// A Unicode scalar value in four bytes.
    Char,
    /// An unsigned integer of the given width.
    Unsigned(Width),
    /// A signed integer of the given width, in two's complement.
    Signed(Width),
    /// A length-prefixed UTF-8 string.
    Str,
    /// An optional value: a presence byte, then the value if present.
    Opt(Box<Kind>),
    /// A sequence, a set or a map: a count, then the elements in order.
    List(Box<Kind>),
    /// Two values, one after the other.
    Pair(Box<Kind>, Box<Kind>),
    /// A value behind an ownership wrapper; the wrapper leaves no trace on
    /// the wire.
    Owned(Box<Kind>),
    /// A record: a sparse list of fields keyed by their ids.
    Record(RecordSchema),
    /// A tagged union: a variant id and at most one payload.
    Union(VariantSchema),
}

/// What a record schema knows about one field.
#[derive(Debug, PartialEq, Eq)]
pub struct FieldMeta {
    /// The id under which the field travels.
    pub id: u16,
    /// The field's name.
    pub name: String,
    /// The type of the field's value.
    pub kind: Kind,
    /// Whether decoding fails when the field is absent.
    pub required: bool,
    /// Whether the field is never written and never read.
    pub skip: bool,
    /// The declared default; without one the field starts at the default of
    /// its type.
    pub default: Option<Value>,
}

/// What a variant schema knows about one variant.
#[derive(Debug, PartialEq, Eq)]
pub struct VariantMeta {
    /// The id under which the variant travels.
    pub id: u16,
    /// The variant's name.
    pub name: String,
    /// The type of the variant's payload, if it carries one.
    pub payload: Option<Kind>,
}

/// The fields of a record type, in the order of their declaration. Its view
/// is the sequence of field descriptors.
#[derive(Debug, PartialEq, Eq)]
pub struct RecordSchema {
    fields: Vec<FieldMeta>,
}

/// The variants of a tagged union, in the order of their declaration. Its
/// view is the sequence of variant descriptors.
#[derive(Debug, PartialEq, Eq)]
pub struct VariantSchema {
    variants: Vec<VariantMeta>,
}

/// A value of some [`Kind`].
#[derive(Debug, PartialEq, Eq)]
pub enum Value {
    Unit,
    Bool(bool),
    Char(char),
    Unsigned(u128),
    Signed(i128),
    Str(String),
    Opt(Option<Box<Value>>),
    List(Vec<Value>),
    Pair(Box<Value>, Box<Value>),
    Owned(Box<Value>),
    /// The values of a record's fields, in the order of their declaration.
    Record(Vec<Value>),
    /// The id of the active variant and its payload.
    Union(u16, Option<Box<Value>>),
}

/// The mathematical content of a [`Value`].
pub ghost enum ValueView {
    Unit,
    Bool(bool),
    Char(char),
    Unsigned(nat),
    Signed(int),
    Str(Seq<char>),
    Opt(Option<Box<ValueView>>),
    List(Seq<ValueView>),
    Pair(Box<ValueView>, Box<ValueView>),
    Owned(Box<ValueView>),
    Record(Seq<ValueView>),
    Union(u16, Option<Box<ValueView>>),
}

impl View for RecordSchema {
    type V = Seq<FieldMeta>;

    closed spec fn view(&self) -> Seq<FieldMeta> {
        self.fields@
    }
}

impl View for VariantSchema {
    type V = Seq<VariantMeta>;

    closed spec fn view(&self) -> Seq<VariantMeta> {
        self.variants@
    }
}

impl View for Value {
    type V = ValueView;

    open spec fn view(&self) -> ValueView {
        self.content()
    }
}

/// The contents of several values.
pub open spec fn contents(items: Seq<Value>) -> Seq<ValueView> {
    Seq::new(items.len(), |i: int| items[i]@)
}

impl Value {
    /// The mathematical content of the value.
    pub open spec fn content(&self) -> ValueView
        decreases self,
    {
        match self {
            Value::Unit => ValueView::Unit,
            Value::Bool(b) => ValueView::Bool(*b),
            Value::Char(c) => ValueView::Char(*c),
            Value::Unsigned(n) => ValueView::Unsigned(*n as nat),
            Value::Signed(n) => ValueView::Signed(*n as int),
            Value::Str(text) => ValueView::Str(text@),
            Value::Opt(None) => ValueView::Opt(None),
            Value::Opt(Some(inner)) => ValueView::Opt(Some(Box::new(inner.content()))),
            Value::List(items) => ValueView::List(
                Seq::new(
                    items@.len(),
                    |i: int|
                        if 0 <= i < items@.len() {
                            items@[i].content()
                        } else {
                            ValueView::Unit
                        },
                ),
            ),
            Value::Pair(first, second) => ValueView::Pair(
                Box::new(first.content()),
                Box::new(second.content()),
            ),
            Value::Owned(inner) => ValueView::Owned(Box::new(inner.content())),
            Value::Record(items) => ValueView::Record(
                Seq::new(
                    items@.len(),
                    |i: int|
                        if 0 <= i < items@.len() {
                            items@[i].content()
                        } else {
                            ValueView::Unit
                        },
                ),
            ),
            Value::Union(id, None) => ValueView::Union(*id, None),
            Value::Union(id, Some(payload)) => ValueView::Union(
                *id,
                Some(Box::new(payload.content())),
            ),
        }
    }

    /// The content of a list is the list of its items' contents.
    pub proof fn lemma_list_content(items: Vec<Value>)
        ensures
            Value::List(items)@ == ValueView::List(contents(items@)),
            Value::Record(items)@ == ValueView::Record(contents(items@)),
    {
        assert(Value::List(items)@->List_0 =~= contents(items@));
        assert(Value::Record(items)@->Record_0 =~= contents(items@));
    }
}

impl RecordSchema {
    /// A schema is larger than each of its fields.
    pub proof fn lemma_decreases(self, i: int)
        requires
            0 <= i < self@.len(),
        ensures
            decreases_to!(self => self@[i]),
    {
        broadcast use vstd::std_specs::vec::axiom_vec_index_decreases;

        assert(decreases_to!(self.fields => self.fields[i]));
    }

    /// The schema of the given fields. Whether they make a well-formed
    /// schema is for the caller to establish.
    pub(crate) fn from_fields(fields: Vec<FieldMeta>) -> (schema: Self)
        ensures
            schema@ == fields@,
    {
        RecordSchema { fields }
    }

    /// The field descriptors, in the order of their declaration.
    pub fn fields(&self) -> (fields: &Vec<FieldMeta>)
        ensures
            fields@ == self@,
    {
        &self.fields
    }
}

impl VariantSchema {
    /// A schema is larger than each of its variants.
    pub proof fn lemma_decreases(self, i: int)
        requires
            0 <= i < self@.len(),
        ensures
            decreases_to!(self => self@[i]),
    {
        broadcast use vstd::std_specs::vec::axiom_vec_index_decreases;

        assert(decreases_to!(self.variants => self.variants[i]));
    }

    /// The schema of the given variants. Whether they make a well-formed
    /// schema is for the caller to establish.
    pub(crate) fn from_variants(variants: Vec<VariantMeta>) -> (schema: Self)
        ensures
            schema@ == variants@,
    {
        VariantSchema { variants }
    }

    /// The variant descriptors, in the order of their declaration.
    pub fn variants(&self) -> (variants: &Vec<VariantMeta>)
        ensures
            variants@ == self@,
    {
        &self.variants
    }
}

/// The position of the field that travels under `id`: the first field with
/// that id at or after `from` that is not skipped.
pub open spec fn field_position(fields: Seq<FieldMeta>, id: u16, from: int) -> Option<int>
    decreases fields.len() - from,
{
    if from < 0 || from >= fields.len() {
        None
    } else if fields[from].id == id && !fields[from].skip {
        Some(from)
    } else {
        field_position(fields, id, from + 1)
    }
}

/// The position of the variant with the given id, at or after `from`.
pub open spec fn variant_position(variants: Seq<VariantMeta>, id: u16, from: int) -> Option<int>
    decreases variants.len() - from,
{
    if from < 0 || from >= variants.len() {
        None
    } else if variants[from].id == id {
        Some(from)
    } else {
        variant_position(variants, id, from + 1)
    }
}

/// Whether no two fields share an id.
pub open spec fn distinct_field_ids(fields: Seq<FieldMeta>) -> bool {
    forall|i: int, j: int| 0 <= i < j < fields.len() ==> fields[i].id != fields[j].id
}

/// Whether no two variants share an id.
pub open spec fn distinct_variant_ids(variants: Seq<VariantMeta>) -> bool {
    forall|i: int, j: int| 0 <= i < j < variants.len() ==> variants[i].id != variants[j].id
}

impl ValueView {
    /// Whether a record has to write a field that holds this value. A zero,
    /// `false`, an empty string, an empty list and an absent optional are
    /// left out; everything else is written.
    pub open spec fn must_write(self) -> bool {
        match self {
            ValueView::Bool(b) => b,
            ValueView::Unsigned(n) => n != 0,
            ValueView::Signed(n) => n != 0,
            ValueView::Str(text) => text.len() != 0,
            ValueView::Opt(inner) => inner is Some,
            ValueView::List(items) => items.len() != 0,
            _ => true,
        }
    }

    /// Whether the value is one of the given kind: of the kind's shape, with
    /// every number within its width, every list no longer than a vector
    /// can be, and every variant one that the union declares.
    pub open spec fn conforms(self, kind: Kind) -> bool
        decreases self,
    {
        match kind {
            Kind::Unit => self is Unit,
            Kind::Bool => self is Bool,
            Kind::Char => self is Char,
            Kind::Unsigned(width) => self matches ValueView::Unsigned(n) && n < radix(
                width.bytes(),
            ),
            Kind::Signed(width) => self matches ValueView::Signed(n) && -(radix(
                width.bytes(),
            ) as int) <= 2 * n < radix(width.bytes()),
            Kind::Str => self is Str,
            Kind::Opt(of) => self matches ValueView::Opt(inner) && (inner matches Some(value)
                ==> value.conforms(*of)),
            Kind::List(of) => self matches ValueView::List(items) && items.len() <= usize::MAX
                && forall|i: int| 0 <= i < items.len() ==> (#[trigger] items[i]).conforms(*of),
            Kind::Pair(a, b) => self matches ValueView::Pair(first, second) && first.conforms(*a)
                && second.conforms(*b),
            Kind::Owned(of) => self matches ValueView::Owned(inner) && inner.conforms(*of),
            Kind::Record(schema) => self matches ValueView::Record(values) && values.len()
                == schema@.len() && forall|i: int|
                0 <= i < values.len() ==> (#[trigger] values[i]).conforms(schema@[i].kind),
            Kind::Union(schema) => self matches ValueView::Union(id, payload)
                && match variant_position(schema@, id, 0) {
                Some(at) => match schema@[at].payload {
                    Some(of) => payload matches Some(inner) && inner.conforms(of),
                    None => payload is None,
                },
                None => false,
            },
        }
    }
}

impl FieldMeta {
    /// The value that the field holds before anything is decoded into it:
    /// the declared default, or else the default of the field's type.
    pub open spec fn initial(self) -> ValueView
        decreases self, 0nat,
    {
        match self.default {
            Some(value) => value@,
            None => self.kind.default_content(),
        }
    }

    /// Whether the descriptor is consistent: the kind is well formed, the
    /// initial value is a value of the kind, and a skipped field is not
    /// required.
    pub open spec fn wf(self) -> bool
        decreases self, 0nat,
    {
        &&& self.kind.wf()
        &&& self.initial().conforms(self.kind)
        &&& self.required ==> !self.skip
    }
}

impl Kind {
    /// The default of the kind: zero, `false`, the character zero, the
    /// empty string and list, the absent optional, the pair of defaults, the
    /// record of its fields' initial values, and the first variant of a
    /// union.
    pub open spec fn default_content(self) -> ValueView
        decreases self, 0nat,
    {
        match self {
            Kind::Unit => ValueView::Unit,
            Kind::Bool => ValueView::Bool(false),
            Kind::Char => ValueView::Char(0 as char),
            Kind::Unsigned(_) => ValueView::Unsigned(0),
            Kind::Signed(_) => ValueView::Signed(0),
            Kind::Str => ValueView::Str(Seq::empty()),
            Kind::Opt(_) => ValueView::Opt(None),
            Kind::List(_) => ValueView::List(Seq::empty()),
            Kind::Pair(a, b) => ValueView::Pair(
                Box::new(a.default_content()),
                Box::new(b.default_content()),
            ),
            Kind::Owned(of) => ValueView::Owned(Box::new(of.default_content())),
            Kind::Record(schema) => ValueView::Record(initial_values(schema, schema@.len())),
            Kind::Union(schema) => if schema@.len() > 0 {
                proof {
                    schema.lemma_decreases(0);
                }
                ValueView::Union(
                    schema@[0].id,
                    match schema@[0].payload {
                        Some(of) => Some(Box::new(of.default_content())),
                        None => None,
                    },
                )
            } else {
                ValueView::Union(0, None)
            },
        }
    }

    /// Whether every schema inside the kind is well formed.
    pub open spec fn wf(self) -> bool
        decreases self, 0nat,
    {
        match self {
            Kind::Opt(of) => of.wf(),
            Kind::List(of) => of.wf(),
            Kind::Pair(a, b) => a.wf() && b.wf(),
            Kind::Owned(of) => of.wf(),
            Kind::Record(schema) => distinct_field_ids(schema@) && fields_wf(
                schema,
                schema@.len(),
            ),
            Kind::Union(schema) => distinct_variant_ids(schema@) && variants_wf(
                schema,
                schema@.len(),
            ),
            _ => true,
        }
    }
}

/// The initial values of the first `count` fields of a schema.
pub open spec fn initial_values(schema: RecordSchema, count: nat) -> Seq<ValueView>
    decreases schema, count,
{
    if count == 0 || count > schema@.len() {
        Seq::empty()
    } else {
        proof {
            schema.lemma_decreases(count - 1);
        }
        initial_values(schema, (count - 1) as nat).push(schema@[count - 1].initial())
    }
}

/// Whether the first `count` fields of a schema are consistent.
pub open spec fn fields_wf(schema: RecordSchema, count: nat) -> bool
    decreases schema, count,
{
    if count == 0 || count > schema@.len() {
        true
    } else {
        proof {
            schema.lemma_decreases(count - 1);
        }
        fields_wf(schema, (count - 1) as nat) && schema@[count - 1].wf()
    }
}

/// Whether the payloads of the first `count` variants are well formed.
pub open spec fn variants_wf(schema: VariantSchema, count: nat) -> bool
    decreases schema, count,
{
    if count == 0 || count > schema@.len() {
        true
    } else {
        proof {
            schema.lemma_decreases(count - 1);
        }
        variants_wf(schema, (count - 1) as nat) && match schema@[count - 1].payload {
            Some(of) => of.wf(),
            None => true,
        }
    }
}

impl RecordSchema {
    /// Whether the schema is well formed: no id occurs twice and every
    /// field descriptor is consistent.
    pub open spec fn wf(self) -> bool {
        Kind::Record(self).wf()
    }

    /// The first fields of a schema are consistent exactly when each of
    /// them is.
    pub proof fn lemma_fields_wf(self, count: nat)
        requires
            count <= self@.len(),
        ensures
            fields_wf(self, count) <==> forall|i: int|
                0 <= i < count ==> (#[trigger] self@[i]).wf(),
        decreases count,
    {
        if count > 0 {
            self.lemma_fields_wf((count - 1) as nat);
        }
    }
}

impl VariantSchema {
    /// Whether the schema is well formed: no id occurs twice and every
    /// payload kind is well formed.
    pub open spec fn wf(self) -> bool {
        Kind::Union(self).wf()
    }

    /// The payloads of the first variants are well formed exactly when
    /// each of them is.
    pub proof fn lemma_variants_wf(self, count: nat)
        requires
            count <= self@.len(),
        ensures
            variants_wf(self, count) <==> forall|i: int|
                0 <= i < count ==> ((#[trigger] self@[i]).payload matches Some(of) ==> of.wf()),
        decreases count,
    {
        if count > 0 {
            self.lemma_variants_wf((count - 1) as nat);
        }
    }
}

/// Whether an unsigned number fits the width.
pub fn fits_unsigned(n: u128, width: Width) -> (fits: bool)
    ensures
        fits == (n < radix(width.bytes())),
{
    proof {
        lemma_radix_values();
    }
    match width {
        Width::W8 => n < 0x100,
        Width::W16 => n < 0x1_0000,
        Width::W32 => n < 0x1_0000_0000,
        Width::W64 => n < 0x1_0000_0000_0000_0000,
        Width::W128 => true,
    }
}

/// Whether a signed number fits the width in two's complement.
pub fn fits_signed(n: i128, width: Width) -> (fits: bool)
    ensures
        fits == (-(radix(width.bytes()) as int) <= 2 * n < radix(width.bytes())),
{
    proof {
        lemma_radix_values();
    }
    match width {
        Width::W8 => -0x80 <= n && n < 0x80,
        Width::W16 => -0x8000 <= n && n < 0x8000,
        Width::W32 => -0x8000_0000 <= n && n < 0x8000_0000,
        Width::W64 => -0x8000_0000_0000_0000 <= n && n < 0x8000_0000_0000_0000,
        Width::W128 => true,
    }
}

impl RecordSchema {
    /// The position of the field that travels under `id`, if the schema
    /// has one that is not skipped.
    pub fn position(&self, id: u16) -> (found: Option<usize>)
        ensures
            match found {
                Some(at) => at < self@.len() && field_position(self@, id, 0) == Some(at as int),
                None => field_position(self@, id, 0) is None,
            },
    {
        let mut index: usize = 0;
        while index < self.fields.len()
            invariant
                index <= self@.len(),
                field_position(self@, id, 0) == field_position(self@, id, index as int),
            decreases self@.len() - index,
        {
            if self.fields[index].id == id && !self.fields[index].skip {
                return Some(index);
            }
            index += 1;
        }
        None
    }

    /// The values that a record of this schema holds before anything is
    /// decoded into it.
    pub fn initial(&self) -> (values: Vec<Value>)
        ensures
            contents(values@) == initial_values(*self, self@.len()),
        decreases self, 1nat,
    {
        let mut values: Vec<Value> = Vec::new();
        let mut index: usize = 0;
        assert(contents(values@) =~= initial_values(*self, 0));
        while index < self.fields.len()
            invariant
                index <= self@.len(),
                contents(values@) == initial_values(*self, index as nat),
            decreases self@.len() - index,
        {
            proof {
                self.lemma_decreases(index as int);
            }
            let ghost before = contents(values@);
            let field = &self.fields[index];
            let value = match &field.default {
                Some(declared) => declared.copy(),
                None => field.kind.default_value(),
            };
            assert(value@ == self@[index as int].initial());
            values.push(value);
            index += 1;
            assert(contents(values@) =~= before.push(value@));
        }
        values
    }
}

impl VariantSchema {
    /// The position of the variant with the given id, if the schema has one.
    pub fn position(&self, id: u16) -> (found: Option<usize>)
        ensures
            match found {
                Some(at) => at < self@.len() && variant_position(self@, id, 0) == Some(
                    at as int,
                ),
                None => variant_position(self@, id, 0) is None,
            },
    {
        let mut index: usize = 0;
        while index < self.variants.len()
            invariant
                index <= self@.len(),
                variant_position(self@, id, 0) == variant_position(self@, id, index as int),
            decreases self@.len() - index,
        {
            if self.variants[index].id == id {
                return Some(index);
            }
            index += 1;
        }
        None
    }
}

impl Kind {
    /// The default of the kind.
    pub fn default_value(&self) -> (value: Value)
        ensures
            value@ == self.default_content(),
        decreases self, 0nat,
    {
        match self {
            Kind::Unit => Value::Unit,
            Kind::Bool => Value::Bool(false),
            Kind::Char => Value::Char('\0'),
            Kind::Unsigned(_) => Value::Unsigned(0),
            Kind::Signed(_) => Value::Signed(0),
            Kind::Str => Value::Str(String::new()),
            Kind::Opt(_) => Value::Opt(None),
            Kind::List(_) => {
                let items: Vec<Value> = Vec::new();
                proof {
                    Value::lemma_list_content(items);
                    assert(contents(items@) =~= Seq::<ValueView>::empty());
                }
                Value::List(items)
            },
            Kind::Pair(a, b) => Value::Pair(
                Box::new(a.default_value()),
                Box::new(b.default_value()),
            ),
            Kind::Owned(of) => Value::Owned(Box::new(of.default_value())),
            Kind::Record(schema) => {
                let values = schema.initial();
                proof {
                    Value::lemma_list_content(values);
                }
                Value::Record(values)
            },
            Kind::Union(schema) => {
                if schema.variants.len() > 0 {
                    proof {
                        schema.lemma_decreases(0);
                    }
                    let first = &schema.variants[0];
                    match &first.payload {
                        Some(of) => Value::Union(first.id, Some(Box::new(of.default_value()))),
                        None => Value::Union(first.id, None),
                    }
                } else {
                    Value::Union(0, None)
                }
            },
        }
    }
}

impl Value {
    /// Whether a record has to write a field that holds this value.
    pub fn lbs_must_write(&self) -> (must: bool)
        ensures
            must == self@.must_write(),
    {
        match self {
            Value::Bool(b) => *b,
            Value::Unsigned(n) => *n != 0,
            Value::Signed(n) => *n != 0,
            Value::Str(text) => !text.as_str().is_empty(),
            Value::Opt(inner) => inner.is_some(),
            Value::List(items) => items.len() != 0,
            _ => true,
        }
    }

    /// A value with the same content.
    pub fn copy(&self) -> (same: Value)
        ensures
            same@ == self@,
        decreases self, 0nat,
    {
        match self {
            Value::Unit => Value::Unit,
            Value::Bool(b) => Value::Bool(*b),
            Value::Char(c) => Value::Char(*c),
            Value::Unsigned(n) => Value::Unsigned(*n),
            Value::Signed(n) => Value::Signed(*n),
            Value::Str(text) => Value::Str(text.clone()),
            Value::Opt(None) => Value::Opt(None),
            Value::Opt(Some(inner)) => Value::Opt(Some(Box::new(inner.copy()))),
            Value::List(items) => {
                let copies = Value::copy_each(items);
                proof {
                    Value::lemma_list_content(copies);
                    Value::lemma_list_content(*items);
                }
                Value::List(copies)
            },
            Value::Pair(first, second) => Value::Pair(
                Box::new(first.copy()),
                Box::new(second.copy()),
            ),
            Value::Owned(inner) => Value::Owned(Box::new(inner.copy())),
            Value::Record(items) => {
                let copies = Value::copy_each(items);
                proof {
                    Value::lemma_list_content(copies);
                    Value::lemma_list_content(*items);
                }
                Value::Record(copies)
            },
            Value::Union(id, None) => Value::Union(*id, None),
            Value::Union(id, Some(payload)) => Value::Union(*id, Some(Box::new(payload.copy()))),
        }
    }

    /// Values with the same contents, in the same order.
    fn copy_each(items: &Vec<Value>) -> (copies: Vec<Value>)
        ensures
            contents(copies@) == contents(items@),
        decreases items, 0nat,
    {
        let mut copies: Vec<Value> = Vec::new();
        let mut index: usize = 0;
        while index < items.len()
            invariant
                index <= items@.len(),
                contents(copies@) == contents(items@.take(index as int)),
            decreases items@.len() - index,
        {
            let ghost before = contents(copies@);
            let item = items[index].copy();
            copies.push(item);
            index += 1;
            assert(contents(copies@) =~= before.push(item@));
            assert(before.push(item@) =~= contents(items@.take(index as int)));
        }
        assert(items@.take(index as int) =~= items@);
        copies
    }

    /// Whether the value is one of the given kind.
    pub fn has_kind(&self, kind: &Kind) -> (ok: bool)
        ensures
            ok == self@.conforms(*kind),
        decreases self, 0nat,
    {
        match self {
            Value::Unit => match kind {
                Kind::Unit => true,
                _ => false,
            },
            Value::Bool(_) => match kind {
                Kind::Bool => true,
                _ => false,
            },
            Value::Char(_) => match kind {
                Kind::Char => true,
                _ => false,
            },
            Value::Unsigned(n) => match kind {
                Kind::Unsigned(width) => fits_unsigned(*n, *width),
                _ => false,
            },
            Value::Signed(n) => match kind {
                Kind::Signed(width) => fits_signed(*n, *width),
                _ => false,
            },
            Value::Str(_) => match kind {
                Kind::Str => true,
                _ => false,
            },
            Value::Opt(inner) => match kind {
                Kind::Opt(of) => match inner {
                    Some(inner) => inner.has_kind(of),
                    None => true,
                },
                _ => false,
            },
            Value::List(items) => match kind {
                Kind::List(of) => {
                    proof {
                        Value::lemma_list_content(*items);
                        assert(items@.len() == items.len());
                    }
                    Value::each_has_kind(items, of)
                },
                _ => false,
            },
            Value::Pair(first, second) => match kind {
                Kind::Pair(a, b) => first.has_kind(a) && second.has_kind(b),
                _ => false,
            },
            Value::Owned(inner) => match kind {
                Kind::Owned(of) => inner.has_kind(of),
                _ => false,
            },
            Value::Record(values) => match kind {
                Kind::Record(schema) => {
                    proof {
                        Value::lemma_list_content(*values);
                    }
                    Value::fields_have_kinds(values, schema)
                },
                _ => false,
            },
            Value::Union(id, payload) => match kind {
                Kind::Union(schema) => match schema.position(*id) {
                    Some(at) => match &schema.variants[at].payload {
                        Some(of) => match payload {
                            Some(inner) => inner.has_kind(of),
                            None => false,
                        },
                        None => payload.is_none(),
                    },
                    None => false,
                },
                _ => false,
            },
        }
    }

    /// Whether every item is a value of the given kind.
    fn each_has_kind(items: &Vec<Value>, kind: &Kind) -> (ok: bool)
        ensures
            ok == forall|i: int|
                0 <= i < items@.len() ==> (#[trigger] contents(items@)[i]).conforms(*kind),
        decreases items, 0nat,
    {
        let mut index: usize = 0;
        while index < items.len()
            invariant
                index <= items@.len(),
                forall|i: int| 0 <= i < index ==> (#[trigger] contents(items@)[i]).conforms(*kind),
            decreases items@.len() - index,
        {
            if !items[index].has_kind(kind) {
                assert(!contents(items@)[index as int].conforms(*kind));
                return false;
            }
            index += 1;
        }
        true
    }

    /// Whether the values are as many as the schema has fields, each a
    /// value of its field's kind.
    fn fields_have_kinds(values: &Vec<Value>, schema: &RecordSchema) -> (ok: bool)
        ensures
            ok == (values@.len() == schema@.len() && forall|i: int|
                0 <= i < values@.len() ==> (#[trigger] contents(values@)[i]).conforms(
                    schema@[i].kind,
                )),
        decreases values, 0nat,
    {
        if values.len() != schema.fields.len() {
            return false;
        }
        let mut index: usize = 0;
        while index < values.len()
            invariant
                index <= values@.len(),
                values@.len() == schema@.len(),
                forall|i: int|
                    0 <= i < index ==> (#[trigger] contents(values@)[i]).conforms(schema@[i].kind),
            decreases values@.len() - index,
        {
            if !values[index].has_kind(&schema.fields[index].kind) {
                assert(!contents(values@)[index as int].conforms(schema@[index as int].kind));
                return false;
            }
            index += 1;
        }
        true
    }
}

} // verus!

