use lbs::derive::{derive_lbs_read, derive_lbs_write};
use lbs::schema::{
    assign_id, classify, gather_enum_meta, gather_struct_meta, parse_default, parse_flag,
    parse_id, same_text, Argument, Attribute, Data, DeriveInput, FieldClass, FieldDecl, Fields,
    SchemaError, VariantDecl, ARGUMENT_DEFAULT, ARGUMENT_ID, ARGUMENT_OPTIONAL, ARGUMENT_SKIP,
    ATTRIBUTE,
};
use lbs::value::{FieldMeta, Kind, Value, VariantMeta, Width};

fn argument(name: &str, value: Option<Value>) -> Argument {
    Argument { name: String::from(name), value }
}

fn id_arg(n: u16) -> Argument {
    argument("id", Some(Value::Unsigned(n as u128)))
}

fn field(name: &str, ty: Kind, args: Vec<Argument>) -> FieldDecl {
    FieldDecl {
        ident: Some(String::from(name)),
        attrs: vec![Attribute { path: String::from("lbs"), args }],
        ty,
    }
}

fn variant(name: &str, args: Vec<Argument>, fields: Fields) -> VariantDecl {
    VariantDecl {
        ident: String::from(name),
        attrs: vec![Attribute { path: String::from("lbs"), args }],
        fields,
    }
}

fn unnamed(ty: Kind) -> FieldDecl {
    FieldDecl { ident: None, attrs: vec![], ty }
}

fn u8_kind() -> Kind {
    Kind::Unsigned(Width::W8)
}

fn meta_of(args: Vec<Argument>, ty: Kind) -> Result<FieldMeta, SchemaError> {
    FieldMeta::from_struct_field(field("f", ty, args), 0)
}

#[test]
fn the_names_of_the_modifiers() {
    assert_eq!(ATTRIBUTE, "lbs");
    assert_eq!(ARGUMENT_ID, "id");
    assert_eq!(ARGUMENT_DEFAULT, "default");
    assert_eq!(ARGUMENT_SKIP, "skip");
    assert_eq!(ARGUMENT_OPTIONAL, "optional");
}

#[test]
fn a_field_is_required_unless_something_says_otherwise() {
    assert_eq!(classify(false, false, false, false), FieldClass::Required);
    assert_eq!(classify(true, false, false, false), FieldClass::Optional);
    assert_eq!(classify(false, false, true, false), FieldClass::Optional);
    assert_eq!(classify(false, false, false, true), FieldClass::Optional);
    assert_eq!(classify(false, true, false, false), FieldClass::Skipped);
    assert_eq!(classify(true, true, true, true), FieldClass::Skipped);
}

#[test]
fn the_descriptor_of_a_field() {
    let plain = meta_of(vec![id_arg(3)], u8_kind()).unwrap();
    assert_eq!(
        plain,
        FieldMeta {
            id: 3,
            name: String::from("f"),
            kind: u8_kind(),
            required: true,
            skip: false,
            default: None
        }
    );
    let of_optional_type = meta_of(vec![id_arg(3)], Kind::Opt(Box::new(u8_kind()))).unwrap();
    assert!(!of_optional_type.required && !of_optional_type.skip);
    let optional = meta_of(vec![id_arg(3), argument("optional", None)], u8_kind()).unwrap();
    assert!(!optional.required && !optional.skip);
    let skipped = meta_of(vec![id_arg(3), argument("skip", None)], u8_kind()).unwrap();
    assert!(!skipped.required && skipped.skip);
    let with_default =
        meta_of(vec![id_arg(3), argument("default", Some(Value::Unsigned(9)))], u8_kind())
            .unwrap();
    assert!(!with_default.required && !with_default.skip);
    assert_eq!(with_default.default, Some(Value::Unsigned(9)));
}

#[test]
fn an_id_is_declared_or_else_the_position() {
    assert_eq!(assign_id(Some(7), 2), Ok(7));
    assert_eq!(assign_id(None, 2), Ok(2));
    assert_eq!(assign_id(None, 65535), Ok(65535));
    assert_eq!(assign_id(None, 65536), Err(SchemaError::IdOutOfRange));
    let schema = gather_struct_meta(vec![
        field("a", u8_kind(), vec![]),
        field("b", u8_kind(), vec![id_arg(5)]),
        FieldDecl { ident: Some(String::from("c")), attrs: vec![], ty: u8_kind() },
    ])
    .unwrap();
    let ids: Vec<u16> = schema.fields().iter().map(|meta| meta.id).collect();
    assert_eq!(ids, vec![0, 5, 2]);
    let schema = gather_enum_meta(vec![
        variant("A", vec![], Fields::Unit),
        variant("B", vec![], Fields::Unit),
    ])
    .unwrap();
    let ids: Vec<u16> = schema.variants().iter().map(|meta| meta.id).collect();
    assert_eq!(ids, vec![0, 1]);
}

#[test]
fn a_later_argument_overrides_an_earlier_one() {
    let meta = meta_of(vec![id_arg(1), id_arg(2)], u8_kind()).unwrap();
    assert_eq!(meta.id, 2);
}

#[test]
fn only_the_first_attribute_with_modifiers_counts() {
    let decl = FieldDecl {
        ident: Some(String::from("f")),
        attrs: vec![
            Attribute { path: String::from("doc"), args: vec![argument("bogus", None)] },
            Attribute { path: String::from("lbs"), args: vec![id_arg(4)] },
            Attribute { path: String::from("lbs"), args: vec![id_arg(5)] },
        ],
        ty: u8_kind(),
    };
    assert_eq!(FieldMeta::from_struct_field(decl, 0).unwrap().id, 4);
}

#[test]
fn an_id_has_to_be_a_number_of_sixteen_bits() {
    assert_eq!(parse_id(Some(Value::Unsigned(0))), Ok(0));
    assert_eq!(parse_id(Some(Value::Unsigned(65535))), Ok(65535));
    assert_eq!(parse_id(Some(Value::Signed(12))), Ok(12));
    assert_eq!(parse_id(Some(Value::Unsigned(65536))), Err(SchemaError::IdOutOfRange));
    assert_eq!(parse_id(Some(Value::Signed(65536))), Err(SchemaError::IdOutOfRange));
    assert_eq!(parse_id(Some(Value::Signed(-1))), Err(SchemaError::IdNotNumeric));
    assert_eq!(parse_id(Some(Value::Str(String::from("1")))), Err(SchemaError::IdNotNumeric));
    assert_eq!(parse_id(None), Err(SchemaError::IdNotNumeric));
    assert_eq!(
        meta_of(vec![argument("id", Some(Value::Bool(true)))], u8_kind()),
        Err(SchemaError::IdNotNumeric)
    );
    assert_eq!(
        meta_of(vec![argument("id", Some(Value::Unsigned(1 << 16)))], u8_kind()),
        Err(SchemaError::IdOutOfRange)
    );
}

#[test]
fn a_default_has_to_be_given_and_to_fit() {
    assert_eq!(parse_default(Some(Value::Unit)), Ok(Value::Unit));
    assert_eq!(parse_default(None), Err(SchemaError::DefaultExpected));
    assert_eq!(
        meta_of(vec![id_arg(1), argument("default", None)], u8_kind()),
        Err(SchemaError::DefaultExpected)
    );
    assert_eq!(
        meta_of(vec![id_arg(1), argument("default", Some(Value::Bool(true)))], u8_kind()),
        Err(SchemaError::DefaultMismatch(1))
    );
    assert_eq!(
        meta_of(vec![id_arg(1), argument("default", Some(Value::Unsigned(256)))], u8_kind()),
        Err(SchemaError::DefaultMismatch(1))
    );
}

#[test]
fn a_type_without_values_has_no_default() {
    let empty = Kind::Union(gather_enum_meta(vec![]).unwrap());
    assert_eq!(meta_of(vec![id_arg(6)], empty), Err(SchemaError::NoDefault(6)));
    let empty = Kind::Union(gather_enum_meta(vec![]).unwrap());
    assert!(meta_of(vec![id_arg(6)], Kind::Opt(Box::new(empty))).is_ok());
}

#[test]
fn a_flag_takes_no_value() {
    assert_eq!(parse_flag(None, String::from("skip")), Ok(true));
    assert_eq!(
        parse_flag(Some(Value::Bool(true)), String::from("skip")),
        Err(SchemaError::FlagWithValue(String::from("skip")))
    );
    assert_eq!(
        meta_of(vec![id_arg(1), argument("skip", Some(Value::Bool(true)))], u8_kind()),
        Err(SchemaError::FlagWithValue(String::from("skip")))
    );
    assert_eq!(
        meta_of(vec![id_arg(1), argument("optional", Some(Value::Unit))], u8_kind()),
        Err(SchemaError::FlagWithValue(String::from("optional")))
    );
}

#[test]
fn an_unknown_argument_is_refused() {
    assert_eq!(
        meta_of(vec![id_arg(1), argument("nope", None)], u8_kind()),
        Err(SchemaError::UnknownArgument(String::from("nope")))
    );
    assert_eq!(
        VariantMeta::from_enum_variant(
            variant("V", vec![id_arg(1), argument("skip", None)], Fields::Unit),
            0
        ),
        Err(SchemaError::UnknownArgument(String::from("skip")))
    );
    // the first refusal wins
    assert_eq!(
        meta_of(vec![argument("nope", None), argument("id", None)], u8_kind()),
        Err(SchemaError::UnknownArgument(String::from("nope")))
    );
}

#[test]
fn a_field_of_a_record_has_a_name() {
    assert_eq!(FieldMeta::from_struct_field(unnamed(u8_kind()), 0), Err(SchemaError::UnnamedField));
    assert_eq!(
        gather_struct_meta(vec![field("a", u8_kind(), vec![]), unnamed(u8_kind())]),
        Err(SchemaError::UnnamedField)
    );
}

#[test]
fn two_fields_with_one_id_are_refused() {
    assert_eq!(
        gather_struct_meta(vec![
            field("a", u8_kind(), vec![id_arg(1)]),
            field("b", u8_kind(), vec![id_arg(2)]),
            field("c", u8_kind(), vec![id_arg(1)]),
        ]),
        Err(SchemaError::DuplicatedId(1))
    );
    // a declared id meets the position of another field
    assert_eq!(
        gather_struct_meta(vec![
            field("a", u8_kind(), vec![id_arg(1)]),
            field("b", u8_kind(), vec![]),
        ]),
        Err(SchemaError::DuplicatedId(1))
    );
    // a skipped field keeps its id to itself all the same
    assert_eq!(
        gather_struct_meta(vec![
            field("a", u8_kind(), vec![id_arg(1), argument("skip", None)]),
            field("b", u8_kind(), vec![id_arg(1)]),
        ]),
        Err(SchemaError::DuplicatedId(1))
    );
    let input = || DeriveInput {
        ident: String::from("Twice"),
        data: Data::Struct(Fields::Named(vec![
            field("a", u8_kind(), vec![id_arg(0)]),
            field("b", u8_kind(), vec![id_arg(0)]),
        ])),
    };
    assert_eq!(derive_lbs_write(input()), Err(SchemaError::DuplicatedId(0)));
    assert_eq!(derive_lbs_read(input()), Err(SchemaError::DuplicatedId(0)));
}

#[test]
fn two_variants_with_one_id_are_refused() {
    assert_eq!(
        gather_enum_meta(vec![
            variant("A", vec![id_arg(3)], Fields::Unit),
            variant("B", vec![id_arg(3)], Fields::Unnamed(vec![unnamed(u8_kind())])),
        ]),
        Err(SchemaError::DuplicatedId(3))
    );
    let input = || DeriveInput {
        ident: String::from("Twice"),
        data: Data::Enum(vec![
            variant("A", vec![id_arg(0)], Fields::Unit),
            variant("B", vec![id_arg(0)], Fields::Unit),
        ]),
    };
    assert_eq!(derive_lbs_write(input()), Err(SchemaError::DuplicatedId(0)));
    assert_eq!(derive_lbs_read(input()), Err(SchemaError::DuplicatedId(0)));
}

#[test]
fn a_variant_carries_at_most_one_unnamed_field() {
    let meta = VariantMeta::from_enum_variant(
        variant("V", vec![id_arg(2)], Fields::Unnamed(vec![unnamed(Kind::Str)])),
        0,
    )
    .unwrap();
    assert_eq!(meta, VariantMeta { id: 2, name: String::from("V"), payload: Some(Kind::Str) });
    let meta =
        VariantMeta::from_enum_variant(variant("V", vec![], Fields::Unnamed(vec![])), 4).unwrap();
    assert_eq!(meta, VariantMeta { id: 4, name: String::from("V"), payload: None });
    assert_eq!(
        gather_enum_meta(vec![variant(
            "V",
            vec![id_arg(0)],
            Fields::Unnamed(vec![unnamed(Kind::Str), unnamed(Kind::Str)])
        )]),
        Err(SchemaError::UnsupportedVariant)
    );
    assert_eq!(
        gather_enum_meta(vec![variant(
            "V",
            vec![id_arg(0)],
            Fields::Named(vec![field("x", Kind::Str, vec![])])
        )]),
        Err(SchemaError::UnsupportedVariant)
    );
    // the shape is looked at before the arguments
    assert_eq!(
        gather_enum_meta(vec![variant("V", vec![argument("nope", None)], Fields::Named(vec![]))]),
        Err(SchemaError::UnsupportedVariant)
    );
}

#[test]
fn unions_and_tuple_structs_have_no_codec() {
    let union = || DeriveInput { ident: String::from("U"), data: Data::Union };
    assert_eq!(derive_lbs_write(union()), Err(SchemaError::UnsupportedUnion));
    assert_eq!(derive_lbs_read(union()), Err(SchemaError::UnsupportedUnion));
    let tuple = || DeriveInput {
        ident: String::from("T"),
        data: Data::Struct(Fields::Unnamed(vec![unnamed(u8_kind())])),
    };
    assert_eq!(derive_lbs_write(tuple()), Err(SchemaError::UnsupportedTupleStruct));
    assert_eq!(derive_lbs_read(tuple()), Err(SchemaError::UnsupportedTupleStruct));
}

#[test]
fn the_position_of_a_field_and_of_a_variant() {
    let schema = gather_struct_meta(vec![
        field("a", u8_kind(), vec![id_arg(10)]),
        field("b", u8_kind(), vec![id_arg(20), argument("skip", None)]),
        field("c", u8_kind(), vec![id_arg(30)]),
    ])
    .unwrap();
    assert_eq!(schema.position(10), Some(0));
    assert_eq!(schema.position(20), None);
    assert_eq!(schema.position(30), Some(2));
    assert_eq!(schema.position(0), None);
    assert_eq!(
        schema.initial(),
        vec![Value::Unsigned(0), Value::Unsigned(0), Value::Unsigned(0)]
    );
    let schema = gather_enum_meta(vec![
        variant("A", vec![id_arg(7)], Fields::Unit),
        variant("B", vec![id_arg(9)], Fields::Unit),
    ])
    .unwrap();
    assert_eq!(schema.position(9), Some(1));
    assert_eq!(schema.position(8), None);
}

#[test]
fn texts_are_compared_byte_by_byte() {
    assert!(same_text("id", "id"));
    assert!(same_text("", ""));
    assert!(!same_text("id", "ID"));
    assert!(!same_text("id", "idx"));
    assert!(!same_text("é", "e"));
    assert!(same_text("é", "é"));
}
