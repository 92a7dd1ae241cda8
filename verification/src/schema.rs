//! Building schemas: from the declaration of a type, with the modifiers of
//! its fields and variants, to the schema that drives the codec. Ids are
//! assigned, fields are classified as required, optional or skipped, and a
//! declaration in which two fields or two variants share an id is rejected.

use crate::value::{
    distinct_field_ids, distinct_variant_ids, FieldMeta, Kind, RecordSchema, Value, VariantMeta,
    VariantSchema,
};
use std::collections::HashSet;
use vstd::prelude::*;
use vstd::utf8::{decode_utf8, encode_utf8};

verus! {

/// The attribute under which the modifiers of a field or variant stand.
pub const ATTRIBUTE: &'static str = "lbs";

/// The argument that assigns an id.
pub const ARGUMENT_ID: &'static str = "id";

/// The argument that declares a default.
pub const ARGUMENT_DEFAULT: &'static str = "default";

/// The flag that leaves a field off the wire.
pub const ARGUMENT_SKIP: &'static str = "skip";

/// The flag that lets a field be absent.
pub const ARGUMENT_OPTIONAL: &'static str = "optional";

/// One argument of an attribute: its name and what was given to it.
#[derive(Debug, PartialEq, Eq)]
pub struct Argument {
    pub name: String,
    pub value: Option<Value>,
}

/// One attribute of a field or variant.
#[derive(Debug, PartialEq, Eq)]
pub struct Attribute {
    pub path: String,
    pub args: Vec<Argument>,
}

/// The declaration of a field.
#[derive(Debug, PartialEq, Eq)]
pub struct FieldDecl {
    /// The field's name; a field of a tuple has none.
    pub ident: Option<String>,
    pub attrs: Vec<Attribute>,
    /// The type of the field's value.
    pub ty: Kind,
}

/// The fields of a struct or of a variant.
#[derive(Debug, PartialEq, Eq)]
pub enum Fields {
    Named(Vec<FieldDecl>),
    Unnamed(Vec<FieldDecl>),
    Unit,
}

/// The declaration of a variant.
#[derive(Debug, PartialEq, Eq)]
pub struct VariantDecl {
    pub ident: String,
    pub attrs: Vec<Attribute>,
    pub fields: Fields,
}

/// What a declared type is made of.
#[derive(Debug, PartialEq, Eq)]
pub enum Data {
    Struct(Fields),
    Enum(Vec<VariantDecl>),
    Union,
}

/// The declaration of a type.
#[derive(Debug, PartialEq, Eq)]
pub struct DeriveInput {
    pub ident: String,
    pub data: Data,
}

/// Why a declaration yields no schema.
#[derive(Debug, PartialEq, Eq)]
pub enum SchemaError {
    /// A field of a record has no name.
    UnnamedField,
    /// The id is not a number.
    IdNotNumeric,
    /// The id does not fit into sixteen bits.
    IdOutOfRange,
    /// `default` was given no value.
    DefaultExpected,
    /// The declared default of the field with this id is not a value of the
    /// field's type.
    DefaultMismatch(u16),
    /// The field with this id declares no default and its type has none.
    NoDefault(u16),
    /// A flag was given a value.
    FlagWithValue(String),
    /// The argument is not known.
    UnknownArgument(String),
    /// Two fields or two variants have this id.
    DuplicatedId(u16),
    /// A variant has named fields or more than one field.
    UnsupportedVariant,
    /// The type is an untagged union.
    UnsupportedUnion,
    /// The type is a struct with unnamed fields.
    UnsupportedTupleStruct,
}

/// How a record treats a field.
#[derive(Clone, Copy, Debug, PartialEq, Eq, Structural)]
pub enum FieldClass {
    /// Decoding fails when the field is absent.
    Required,
    /// The field keeps its default when it is absent.
    Optional,
    /// The field is never written and never read.
    Skipped,
}

/// The modifiers that the arguments of a field or variant add up to.
pub struct Modifiers {
    pub id: Option<u16>,
    pub default: Option<Value>,
    pub skip: bool,
    pub optional: bool,
}

/// The class of a field: skipped when marked so; else optional when marked
/// so, when it declares a default or when its type is an optional value;
/// else required.
pub open spec fn class_of(
    of_optional_type: bool,
    skip: bool,
    optional: bool,
    declares_default: bool,
) -> FieldClass {
    if skip {
        FieldClass::Skipped
    } else if optional || declares_default || of_optional_type {
        FieldClass::Optional
    } else {
        FieldClass::Required
    }
}

/// The class of a field.
pub fn classify(
    of_optional_type: bool,
    skip: bool,
    optional: bool,
    declares_default: bool,
) -> (class: FieldClass)
    ensures
        class == class_of(of_optional_type, skip, optional, declares_default),
{
    if skip {
        FieldClass::Skipped
    } else if optional || declares_default || of_optional_type {
        FieldClass::Optional
    } else {
        FieldClass::Required
    }
}

/// Whether two strings hold the same text.
pub fn same_text(a: &str, b: &str) -> (same: bool)
    ensures
        same == (a@ == b@),
{
    broadcast use vstd::utf8::encode_utf8_decode_utf8;

    let left = a.as_bytes();
    let right = b.as_bytes();
    if left.len() != right.len() {
        return false;
    }
    let mut index: usize = 0;
    while index < left.len()
        invariant
            index <= left@.len(),
            left@.len() == right@.len(),
            left@ == encode_utf8(a@),
            right@ == encode_utf8(b@),
            left@.take(index as int) == right@.take(index as int),
        decreases left@.len() - index,
    {
        if left[index] != right[index] {
            return false;
        }
        index += 1;
        assert(left@.take(index as int) =~= left@.take(index - 1).push(left@[index - 1]));
        assert(right@.take(index as int) =~= right@.take(index - 1).push(right@[index - 1]));
    }
    assert(left@.take(index as int) =~= left@);
    assert(right@.take(index as int) =~= right@);
    assert(decode_utf8(encode_utf8(a@)) == a@);
    assert(decode_utf8(encode_utf8(b@)) == b@);
    true
}

/// The id that a numeric value assigns.
pub open spec fn id_of(value: Option<Value>) -> Result<u16, SchemaError> {
    match value {
        Some(Value::Unsigned(n)) => if n <= 0xFFFF {
            Ok(n as u16)
        } else {
            Err(SchemaError::IdOutOfRange)
        },
        Some(Value::Signed(n)) => if n < 0 {
            Err(SchemaError::IdNotNumeric)
        } else if n <= 0xFFFF {
            Ok(n as u16)
        } else {
            Err(SchemaError::IdOutOfRange)
        },
        _ => Err(SchemaError::IdNotNumeric),
    }
}

/// The modifiers after one more argument of a field.
pub open spec fn with_argument(
    modifiers: Modifiers,
    argument: Argument,
) -> Result<Modifiers, SchemaError> {
    if argument.name@ == ARGUMENT_ID@ {
        match id_of(argument.value) {
            Ok(id) => Ok(Modifiers { id: Some(id), ..modifiers }),
            Err(e) => Err(e),
        }
    } else if argument.name@ == ARGUMENT_DEFAULT@ {
        match argument.value {
            Some(value) => Ok(Modifiers { default: Some(value), ..modifiers }),
            None => Err(SchemaError::DefaultExpected),
        }
    } else if argument.name@ == ARGUMENT_SKIP@ {
        match argument.value {
            None => Ok(Modifiers { skip: true, ..modifiers }),
            Some(_) => Err(SchemaError::FlagWithValue(argument.name)),
        }
    } else if argument.name@ == ARGUMENT_OPTIONAL@ {
        match argument.value {
            None => Ok(Modifiers { optional: true, ..modifiers }),
            Some(_) => Err(SchemaError::FlagWithValue(argument.name)),
        }
    } else {
        Err(SchemaError::UnknownArgument(argument.name))
    }
}

/// The id after one more argument of a variant, which knows `id` alone.
pub open spec fn with_variant_argument(
    id: Option<u16>,
    argument: Argument,
) -> Result<Option<u16>, SchemaError> {
    if argument.name@ == ARGUMENT_ID@ {
        match id_of(argument.value) {
            Ok(id) => Ok(Some(id)),
            Err(e) => Err(e),
        }
    } else {
        Err(SchemaError::UnknownArgument(argument.name))
    }
}

/// The modifiers after the arguments, taken in order up to the first that
/// is refused.
pub open spec fn with_arguments(
    modifiers: Modifiers,
    arguments: Seq<Argument>,
) -> Result<Modifiers, SchemaError>
    decreases arguments.len(),
{
    if arguments.len() == 0 {
        Ok(modifiers)
    } else {
        match with_argument(modifiers, arguments[0]) {
            Ok(next) => with_arguments(next, arguments.drop_first()),
            Err(e) => Err(e),
        }
    }
}

/// The id after the arguments of a variant.
pub open spec fn with_variant_arguments(
    id: Option<u16>,
    arguments: Seq<Argument>,
) -> Result<Option<u16>, SchemaError>
    decreases arguments.len(),
{
    if arguments.len() == 0 {
        Ok(id)
    } else {
        match with_variant_argument(id, arguments[0]) {
            Ok(next) => with_variant_arguments(next, arguments.drop_first()),
            Err(e) => Err(e),
        }
    }
}

/// The position of the first attribute at or after `from` that holds
/// modifiers.
pub open spec fn attribute_position(attrs: Seq<Attribute>, from: int) -> Option<int>
    decreases attrs.len() - from,
{
    if from < 0 || from >= attrs.len() {
        None
    } else if attrs[from].path@ == ATTRIBUTE@ {
        Some(from)
    } else {
        attribute_position(attrs, from + 1)
    }
}

/// The arguments that modify a field or variant: those of its first
/// attribute that holds modifiers.
pub open spec fn modifying_arguments(attrs: Seq<Attribute>) -> Seq<Argument> {
    match attribute_position(attrs, 0) {
        Some(at) => attrs[at].args@,
        None => Seq::empty(),
    }
}

/// The id of a field or variant: the declared one, or else the position
/// among its siblings.
pub open spec fn assigned_id(declared: Option<u16>, ordinal: nat) -> Result<u16, SchemaError> {
    match declared {
        Some(id) => Ok(id),
        None => if ordinal <= 0xFFFF {
            Ok(ordinal as u16)
        } else {
            Err(SchemaError::IdOutOfRange)
        },
    }
}

/// The descriptor that a field's declaration yields at the given position,
/// or why it yields none.
pub open spec fn field_meta(field: FieldDecl, ordinal: nat) -> Result<FieldMeta, SchemaError> {
    match field.ident {
        None => Err(SchemaError::UnnamedField),
        Some(name) => match with_arguments(
            Modifiers { id: None, default: None, skip: false, optional: false },
            modifying_arguments(field.attrs@),
        ) {
            Err(e) => Err(e),
            Ok(modifiers) => match assigned_id(modifiers.id, ordinal) {
                Err(e) => Err(e),
                Ok(id) => {
                    let class = class_of(
                        field.ty is Opt,
                        modifiers.skip,
                        modifiers.optional,
                        modifiers.default is Some,
                    );
                    let meta = FieldMeta {
                        id,
                        name,
                        kind: field.ty,
                        required: class == FieldClass::Required,
                        skip: class == FieldClass::Skipped,
                        default: modifiers.default,
                    };
                    if meta.initial().conforms(field.ty) {
                        Ok(meta)
                    } else if modifiers.default is Some {
                        Err(SchemaError::DefaultMismatch(id))
                    } else {
                        Err(SchemaError::NoDefault(id))
                    }
                },
            },
        },
    }
}

/// The payload that a variant's fields amount to: none, or the type of its
/// single unnamed field.
pub open spec fn payload_of(fields: Fields) -> Result<Option<Kind>, SchemaError> {
    match fields {
        Fields::Unit => Ok(None),
        Fields::Unnamed(items) => if items@.len() == 0 {
            Ok(None)
        } else if items@.len() == 1 {
            Ok(Some(items@[0].ty))
        } else {
            Err(SchemaError::UnsupportedVariant)
        },
        Fields::Named(items) => Err(SchemaError::UnsupportedVariant),
    }
}

/// The descriptor that a variant's declaration yields at the given
/// position, or why it yields none.
pub open spec fn variant_meta(
    variant: VariantDecl,
    ordinal: nat,
) -> Result<VariantMeta, SchemaError> {
    match payload_of(variant.fields) {
        Err(e) => Err(e),
        Ok(payload) => match with_variant_arguments(None, modifying_arguments(variant.attrs@)) {
            Err(e) => Err(e),
            Ok(declared) => match assigned_id(declared, ordinal) {
                Err(e) => Err(e),
                Ok(id) => Ok(VariantMeta { id, name: variant.ident, payload }),
            },
        },
    }
}

/// Whether one of the descriptors has the id.
pub open spec fn has_field_id(metas: Seq<FieldMeta>, id: u16) -> bool {
    exists|i: int| 0 <= i < metas.len() && (#[trigger] metas[i]).id == id
}

/// Whether one of the descriptors has the id.
pub open spec fn has_variant_id(metas: Seq<VariantMeta>, id: u16) -> bool {
    exists|i: int| 0 <= i < metas.len() && (#[trigger] metas[i]).id == id
}

/// The descriptors of the first `count` fields, or the first reason why
/// the declaration is refused: a field that yields no descriptor, or an id
/// that an earlier field has.
pub open spec fn gathered_fields(
    fields: Seq<FieldDecl>,
    count: nat,
) -> Result<Seq<FieldMeta>, SchemaError>
    decreases count,
{
    if count == 0 || count > fields.len() {
        Ok(Seq::empty())
    } else {
        match gathered_fields(fields, (count - 1) as nat) {
            Err(e) => Err(e),
            Ok(metas) => match field_meta(fields[count - 1], (count - 1) as nat) {
                Err(e) => Err(e),
                Ok(meta) => if has_field_id(metas, meta.id) {
                    Err(SchemaError::DuplicatedId(meta.id))
                } else {
                    Ok(metas.push(meta))
                },
            },
        }
    }
}

/// The descriptors of the first `count` variants, or the first reason why
/// the declaration is refused.
pub open spec fn gathered_variants(
    variants: Seq<VariantDecl>,
    count: nat,
) -> Result<Seq<VariantMeta>, SchemaError>
    decreases count,
{
    if count == 0 || count > variants.len() {
        Ok(Seq::empty())
    } else {
        match gathered_variants(variants, (count - 1) as nat) {
            Err(e) => Err(e),
            Ok(metas) => match variant_meta(variants[count - 1], (count - 1) as nat) {
                Err(e) => Err(e),
                Ok(meta) => if has_variant_id(metas, meta.id) {
                    Err(SchemaError::DuplicatedId(meta.id))
                } else {
                    Ok(metas.push(meta))
                },
            },
        }
    }
}

/// The id that the value given to `id` assigns: a number that a literal
/// can state and that fits into sixteen bits.
pub fn parse_id(value: Option<Value>) -> (res: Result<u16, SchemaError>)
    ensures
        res == id_of(value),
{
    match value {
        Some(Value::Unsigned(n)) => if n <= 0xFFFF {
            Ok(n as u16)
        } else {
            Err(SchemaError::IdOutOfRange)
        },
        Some(Value::Signed(n)) => if n < 0 {
            Err(SchemaError::IdNotNumeric)
        } else if n <= 0xFFFF {
            Ok(n as u16)
        } else {
            Err(SchemaError::IdOutOfRange)
        },
        _ => Err(SchemaError::IdNotNumeric),
    }
}

/// The value given to `default`, which has to be there.
pub fn parse_default(value: Option<Value>) -> (res: Result<Value, SchemaError>)
    ensures
        res == match value {
            Some(declared) => Ok::<Value, SchemaError>(declared),
            None => Err::<Value, SchemaError>(SchemaError::DefaultExpected),
        },
{
    match value {
        Some(declared) => Ok(declared),
        None => Err(SchemaError::DefaultExpected),
    }
}

/// A flag is set by its name alone; one that is given a value is refused.
pub fn parse_flag(value: Option<Value>, name: String) -> (res: Result<bool, SchemaError>)
    ensures
        res == match value {
            None => Ok::<bool, SchemaError>(true),
            Some(_) => Err::<bool, SchemaError>(SchemaError::FlagWithValue(name)),
        },
{
    match value {
        None => Ok(true),
        Some(_) => Err(SchemaError::FlagWithValue(name)),
    }
}

/// The id of a field or variant: the declared one, or else the position
/// among its siblings.
pub fn assign_id(declared: Option<u16>, ordinal: usize) -> (res: Result<u16, SchemaError>)
    ensures
        res == assigned_id(declared, ordinal as nat),
{
    match declared {
        Some(id) => Ok(id),
        None => if ordinal <= 0xFFFF {
            Ok(ordinal as u16)
        } else {
            Err(SchemaError::IdOutOfRange)
        },
    }
}

/// The modifiers after one more argument of a field.
fn apply_argument(modifiers: Modifiers, argument: Argument) -> (res: Result<Modifiers, SchemaError>)
    ensures
        res == with_argument(modifiers, argument),
{
    let Argument { name, value } = argument;
    let Modifiers { id, default, skip, optional } = modifiers;
    if same_text(name.as_str(), ARGUMENT_ID) {
        let id = parse_id(value)?;
        Ok(Modifiers { id: Some(id), default, skip, optional })
    } else if same_text(name.as_str(), ARGUMENT_DEFAULT) {
        let declared = parse_default(value)?;
        Ok(Modifiers { id, default: Some(declared), skip, optional })
    } else if same_text(name.as_str(), ARGUMENT_SKIP) {
        let skip = parse_flag(value, name)?;
        Ok(Modifiers { id, default, skip, optional })
    } else if same_text(name.as_str(), ARGUMENT_OPTIONAL) {
        let optional = parse_flag(value, name)?;
        Ok(Modifiers { id, default, skip, optional })
    } else {
        Err(SchemaError::UnknownArgument(name))
    }
}

/// The id after one more argument of a variant.
fn apply_variant_argument(id: Option<u16>, argument: Argument) -> (res: Result<
    Option<u16>,
    SchemaError,
>)
    ensures
        res == with_variant_argument(id, argument),
{
    let Argument { name, value } = argument;
    if same_text(name.as_str(), ARGUMENT_ID) {
        let id = parse_id(value)?;
        Ok(Some(id))
    } else {
        Err(SchemaError::UnknownArgument(name))
    }
}

/// The arguments of the first attribute that holds modifiers.
fn take_arguments(attrs: Vec<Attribute>) -> (arguments: Vec<Argument>)
    ensures
        arguments@ == modifying_arguments(attrs@),
{
    let mut left = attrs;
    let mut index: usize = 0;
    while index < left.len()
        invariant
            index <= left@.len(),
            left@ == attrs@,
            attribute_position(attrs@, 0) == attribute_position(attrs@, index as int),
        decreases left@.len() - index,
    {
        if same_text(left[index].path.as_str(), ATTRIBUTE) {
            let attribute = left.remove(index);
            return attribute.args;
        }
        index += 1;
    }
    Vec::new()
}

/// The modifiers that the arguments of a field add up to.
fn fold_arguments(arguments: Vec<Argument>) -> (res: Result<Modifiers, SchemaError>)
    ensures
        res == with_arguments(
            Modifiers { id: None, default: None, skip: false, optional: false },
            arguments@,
        ),
{
    let mut modifiers = Modifiers { id: None, default: None, skip: false, optional: false };
    assert(arguments@.skip(0) =~= arguments@);
    for argument in it: arguments
        invariant
            it.seq() == arguments@,
            with_arguments(
                Modifiers { id: None, default: None, skip: false, optional: false },
                arguments@,
            ) == with_arguments(modifiers, arguments@.skip(it.index())),
    {
        assert(arguments@.skip(it.index()).drop_first() =~= arguments@.skip(it.index() + 1));
        modifiers = apply_argument(modifiers, argument)?;
    }
    Ok(modifiers)
}

/// The id that the arguments of a variant declare.
fn fold_variant_arguments(arguments: Vec<Argument>) -> (res: Result<Option<u16>, SchemaError>)
    ensures
        res == with_variant_arguments(None, arguments@),
{
    let mut id: Option<u16> = None;
    assert(arguments@.skip(0) =~= arguments@);
    for argument in it: arguments
        invariant
            it.seq() == arguments@,
            with_variant_arguments(None, arguments@) == with_variant_arguments(
                id,
                arguments@.skip(it.index()),
            ),
    {
        assert(arguments@.skip(it.index()).drop_first() =~= arguments@.skip(it.index() + 1));
        id = apply_variant_argument(id, argument)?;
    }
    Ok(id)
}

/// The payload that a variant's fields amount to.
fn payload_kind(fields: Fields) -> (res: Result<Option<Kind>, SchemaError>)
    ensures
        res == payload_of(fields),
{
    match fields {
        Fields::Unit => Ok(None),
        Fields::Unnamed(items) => {
            let mut items = items;
            if items.len() == 0 {
                Ok(None)
            } else if items.len() == 1 {
                let only = items.remove(0);
                Ok(Some(only.ty))
            } else {
                Err(SchemaError::UnsupportedVariant)
            }
        },
        Fields::Named(_) => Err(SchemaError::UnsupportedVariant),
    }
}

impl FieldMeta {
    /// The descriptor of a declared field that stands at position
    /// `ordinal` among the fields of its record.
    pub fn from_struct_field(field: FieldDecl, ordinal: usize) -> (res: Result<
        FieldMeta,
        SchemaError,
    >)
        ensures
            res == field_meta(field, ordinal as nat),
    {
        let FieldDecl { ident, attrs, ty } = field;
        let name = match ident {
            Some(name) => name,
            None => {
                return Err(SchemaError::UnnamedField);
            },
        };
        let modifiers = fold_arguments(take_arguments(attrs))?;
        let Modifiers { id, default, skip, optional } = modifiers;
        let id = assign_id(id, ordinal)?;
        let of_optional_type = match &ty {
            Kind::Opt(_) => true,
            _ => false,
        };
        let class = classify(of_optional_type, skip, optional, default.is_some());
        let fits = match &default {
            Some(declared) => declared.has_kind(&ty),
            None => ty.default_value().has_kind(&ty),
        };
        if !fits {
            return if default.is_some() {
                Err(SchemaError::DefaultMismatch(id))
            } else {
                Err(SchemaError::NoDefault(id))
            };
        }
        Ok(
            FieldMeta {
                id,
                name,
                kind: ty,
                required: class == FieldClass::Required,
                skip: class == FieldClass::Skipped,
                default,
            },
        )
    }
}

impl VariantMeta {
    /// The descriptor of a declared variant that stands at position
    /// `ordinal` among the variants of its union.
    pub fn from_enum_variant(variant: VariantDecl, ordinal: usize) -> (res: Result<
        VariantMeta,
        SchemaError,
    >)
        ensures
            res == variant_meta(variant, ordinal as nat),
    {
        let VariantDecl { ident, attrs, fields } = variant;
        let payload = payload_kind(fields)?;
        let declared = fold_variant_arguments(take_arguments(attrs))?;
        let id = assign_id(declared, ordinal)?;
        Ok(VariantMeta { id, name: ident, payload })
    }
}

/// A declared field whose type is well formed yields a consistent
/// descriptor.
pub proof fn lemma_field_meta_wf(field: FieldDecl, ordinal: nat)
    requires
        field.ty.wf(),
    ensures
        field_meta(field, ordinal) matches Ok(meta) ==> meta.wf(),
{
}

/// Whether the type of every declared field is well formed.
pub open spec fn types_valid(fields: Seq<FieldDecl>) -> bool {
    forall|i: int| 0 <= i < fields.len() ==> (#[trigger] fields[i]).ty.wf()
}

/// Whether the type of every declared payload is well formed.
pub open spec fn payloads_valid(variants: Seq<VariantDecl>) -> bool {
    forall|i: int|
        0 <= i < variants.len() ==> (payload_of((#[trigger] variants[i]).fields) matches Ok(
            Some(of),
        ) ==> of.wf())
}

/// A refusal among the first fields is the refusal of the whole
/// declaration.
pub proof fn lemma_gathered_fields_failure(fields: Seq<FieldDecl>, count: nat, more: nat)
    requires
        count <= more <= fields.len(),
    ensures
        gathered_fields(fields, count) is Err ==> gathered_fields(fields, more) == gathered_fields(
            fields,
            count,
        ),
    decreases more,
{
    if count < more {
        lemma_gathered_fields_failure(fields, count, (more - 1) as nat);
    }
}

/// A refusal among the first variants is the refusal of the whole
/// declaration.
pub proof fn lemma_gathered_variants_failure(variants: Seq<VariantDecl>, count: nat, more: nat)
    requires
        count <= more <= variants.len(),
    ensures
        gathered_variants(variants, count) is Err ==> gathered_variants(variants, more)
            == gathered_variants(variants, count),
    decreases more,
{
    if count < more {
        lemma_gathered_variants_failure(variants, count, (more - 1) as nat);
    }
}

/// The schema of a record with the declared fields. Each field gets its
/// id and its class; the declaration is refused when a field yields no
/// descriptor or when two fields have the same id.
pub fn gather_struct_meta(fields: Vec<FieldDecl>) -> (res: Result<RecordSchema, SchemaError>)
    ensures
        match res {
            Ok(schema) => gathered_fields(fields@, fields@.len()) == Ok::<
                Seq<FieldMeta>,
                SchemaError,
            >(schema@) && distinct_field_ids(schema@) && (types_valid(fields@) ==> schema.wf()),
            Err(e) => gathered_fields(fields@, fields@.len()) == Err::<
                Seq<FieldMeta>,
                SchemaError,
            >(e),
        },
{
    broadcast use vstd::std_specs::hash::group_hash_axioms;

    let mut metas: Vec<FieldMeta> = Vec::new();
    let mut unique_ids: HashSet<u16> = HashSet::new();
    for field in it: fields
        invariant
            it.seq() == fields@,
            metas@.len() == it.index(),
            gathered_fields(fields@, it.index() as nat) == Ok::<Seq<FieldMeta>, SchemaError>(
                metas@,
            ),
            forall|id: u16| unique_ids@.contains(id) <==> has_field_id(metas@, id),
            distinct_field_ids(metas@),
            types_valid(fields@) ==> forall|i: int|
                0 <= i < metas@.len() ==> (#[trigger] metas@[i]).wf(),
    {
        let ghost gathered = metas@;
        let ghost index = it.index();
        assert(field == fields@[index]);
        proof {
            if types_valid(fields@) {
                lemma_field_meta_wf(field, index as nat);
            }
            lemma_gathered_fields_failure(fields@, (index + 1) as nat, fields@.len());
        }
        let meta = FieldMeta::from_struct_field(field, metas.len())?;
        let id = meta.id;
        if !unique_ids.insert(id) {
            return Err(SchemaError::DuplicatedId(id));
        }
        metas.push(meta);
        assert forall|other: u16| unique_ids@.contains(other) <==> has_field_id(
            metas@,
            other,
        ) by {
            if has_field_id(gathered, other) {
                let at = choose|i: int|
                    0 <= i < gathered.len() && (#[trigger] gathered[i]).id == other;
                assert(metas@[at].id == other);
            }
            if other == id {
                assert(metas@[metas@.len() - 1].id == other);
            }
            if has_field_id(metas@, other) {
                let at = choose|i: int| 0 <= i < metas@.len() && (#[trigger] metas@[i]).id == other;
                if at < gathered.len() {
                    assert(gathered[at].id == other);
                }
            }
        }
        assert(distinct_field_ids(metas@)) by {
            assert forall|i: int, j: int| 0 <= i < j < metas@.len() implies metas@[i].id
                != metas@[j].id by {
                if j == metas@.len() - 1 {
                    assert(gathered[i].id != id);
                }
            }
        }
    }
    let schema = RecordSchema::from_fields(metas);
    proof {
        schema.lemma_fields_wf(schema@.len());
    }
    Ok(schema)
}

/// The schema of a tagged union with the declared variants. Each variant
/// gets its id; the declaration is refused when a variant has named fields
/// or more than one field, when a variant yields no descriptor, or when two
/// variants have the same id.
pub fn gather_enum_meta(variants: Vec<VariantDecl>) -> (res: Result<VariantSchema, SchemaError>)
    ensures
        match res {
            Ok(schema) => gathered_variants(variants@, variants@.len()) == Ok::<
                Seq<VariantMeta>,
                SchemaError,
            >(schema@) && distinct_variant_ids(schema@) && (payloads_valid(variants@)
                ==> schema.wf()),
            Err(e) => gathered_variants(variants@, variants@.len()) == Err::<
                Seq<VariantMeta>,
                SchemaError,
            >(e),
        },
{
    broadcast use vstd::std_specs::hash::group_hash_axioms;

    let mut metas: Vec<VariantMeta> = Vec::new();
    let mut unique_ids: HashSet<u16> = HashSet::new();
    for variant in it: variants
        invariant
            it.seq() == variants@,
            metas@.len() == it.index(),
            gathered_variants(variants@, it.index() as nat) == Ok::<
                Seq<VariantMeta>,
                SchemaError,
            >(metas@),
            forall|id: u16| unique_ids@.contains(id) <==> has_variant_id(metas@, id),
            distinct_variant_ids(metas@),
            payloads_valid(variants@) ==> forall|i: int|
                0 <= i < metas@.len() ==> ((#[trigger] metas@[i]).payload matches Some(of)
                    ==> of.wf()),
    {
        let ghost gathered = metas@;
        let ghost index = it.index();
        assert(variant == variants@[index]);
        proof {
            lemma_gathered_variants_failure(variants@, (index + 1) as nat, variants@.len());
        }
        let meta = VariantMeta::from_enum_variant(variant, metas.len())?;
        let id = meta.id;
        if !unique_ids.insert(id) {
            return Err(SchemaError::DuplicatedId(id));
        }
        metas.push(meta);
        assert forall|other: u16| unique_ids@.contains(other) <==> has_variant_id(
            metas@,
            other,
        ) by {
            if has_variant_id(gathered, other) {
                let at = choose|i: int|
                    0 <= i < gathered.len() && (#[trigger] gathered[i]).id == other;
                assert(metas@[at].id == other);
            }
            if other == id {
                assert(metas@[metas@.len() - 1].id == other);
            }
            if has_variant_id(metas@, other) {
                let at = choose|i: int| 0 <= i < metas@.len() && (#[trigger] metas@[i]).id == other;
                if at < gathered.len() {
                    assert(gathered[at].id == other);
                }
            }
        }
        assert(distinct_variant_ids(metas@)) by {
            assert forall|i: int, j: int| 0 <= i < j < metas@.len() implies metas@[i].id
                != metas@[j].id by {
                if j == metas@.len() - 1 {
                    assert(gathered[i].id != id);
                }
            }
        }
    }
    let schema = VariantSchema::from_variants(metas);
    proof {
        schema.lemma_variants_wf(schema@.len());
    }
    Ok(schema)
}

/// The descriptors gathered from the first fields are those that the
/// fields yield, in order.
pub proof fn lemma_gathered_fields_index(fields: Seq<FieldDecl>, count: nat, i: int)
    requires
        0 <= i < count <= fields.len(),
        gathered_fields(fields, count) is Ok,
    ensures
        gathered_fields(fields, count)->Ok_0.len() == count,
        field_meta(fields[i], i as nat) == Ok::<FieldMeta, SchemaError>(
            gathered_fields(fields, count)->Ok_0[i],
        ),
    decreases count,
{
    lemma_gathered_fields_len(fields, count);
    lemma_gathered_fields_len(fields, (count - 1) as nat);
    if i < count - 1 {
        lemma_gathered_fields_index(fields, (count - 1) as nat, i);
    }
}

/// As many descriptors are gathered as there were fields.
pub proof fn lemma_gathered_fields_len(fields: Seq<FieldDecl>, count: nat)
    requires
        count <= fields.len(),
        gathered_fields(fields, count) is Ok,
    ensures
        gathered_fields(fields, count)->Ok_0.len() == count,
    decreases count,
{
    if count > 0 {
        lemma_gathered_fields_len(fields, (count - 1) as nat);
    }
}

/// The descriptors gathered from the first variants are those that the
/// variants yield, in order.
pub proof fn lemma_gathered_variants_index(variants: Seq<VariantDecl>, count: nat, i: int)
    requires
        0 <= i < count <= variants.len(),
        gathered_variants(variants, count) is Ok,
    ensures
        gathered_variants(variants, count)->Ok_0.len() == count,
        variant_meta(variants[i], i as nat) == Ok::<VariantMeta, SchemaError>(
            gathered_variants(variants, count)->Ok_0[i],
        ),
    decreases count,
{
    lemma_gathered_variants_len(variants, count);
    lemma_gathered_variants_len(variants, (count - 1) as nat);
    if i < count - 1 {
        lemma_gathered_variants_index(variants, (count - 1) as nat, i);
    }
}

/// As many descriptors are gathered as there were variants.
pub proof fn lemma_gathered_variants_len(variants: Seq<VariantDecl>, count: nat)
    requires
        count <= variants.len(),
        gathered_variants(variants, count) is Ok,
    ensures
        gathered_variants(variants, count)->Ok_0.len() == count,
    decreases count,
{
    if count > 0 {
        lemma_gathered_variants_len(variants, (count - 1) as nat);
    }
}

/// A declaration in which two fields get the same id yields no schema.
pub proof fn lemma_duplicated_field_id_refused(fields: Seq<FieldDecl>, i: int, j: int)
    requires
        0 <= i < j < fields.len(),
        field_meta(fields[i], i as nat) is Ok,
        field_meta(fields[j], j as nat) is Ok,
        field_meta(fields[i], i as nat)->Ok_0.id == field_meta(fields[j], j as nat)->Ok_0.id,
    ensures
        gathered_fields(fields, fields.len()) is Err,
{
    lemma_gathered_fields_failure(fields, (j + 1) as nat, fields.len());
    lemma_gathered_fields_failure(fields, j as nat, (j + 1) as nat);
    if gathered_fields(fields, j as nat) is Ok {
        lemma_gathered_fields_index(fields, j as nat, i);
        let metas = gathered_fields(fields, j as nat)->Ok_0;
        assert(metas[i].id == field_meta(fields[j], j as nat)->Ok_0.id);
    }
}

/// A declaration in which two variants get the same id yields no schema.
pub proof fn lemma_duplicated_variant_id_refused(variants: Seq<VariantDecl>, i: int, j: int)
    requires
        0 <= i < j < variants.len(),
        variant_meta(variants[i], i as nat) is Ok,
        variant_meta(variants[j], j as nat) is Ok,
        variant_meta(variants[i], i as nat)->Ok_0.id == variant_meta(
            variants[j],
            j as nat,
        )->Ok_0.id,
    ensures
        gathered_variants(variants, variants.len()) is Err,
{
    lemma_gathered_variants_failure(variants, (j + 1) as nat, variants.len());
    lemma_gathered_variants_failure(variants, j as nat, (j + 1) as nat);
    if gathered_variants(variants, j as nat) is Ok {
        lemma_gathered_variants_index(variants, j as nat, i);
        let metas = gathered_variants(variants, j as nat)->Ok_0;
        assert(metas[i].id == variant_meta(variants[j], j as nat)->Ok_0.id);
    }
}

} // verus!
