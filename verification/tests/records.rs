use bytes::{BufMut, BytesMut};
use lbs::derive::{derive_lbs_read, derive_lbs_write, Decoder, Encoder};
use lbs::error::{IoErrorKind, LBSError};
use lbs::record::{decode_value, encode_value};
use lbs::schema::{
    gather_enum_meta, gather_struct_meta, Argument, Attribute, Data, DeriveInput, FieldDecl,
    Fields, VariantDecl,
};
use lbs::stream::Reader;
use lbs::value::{Kind, Value, Width};

fn id_arg(n: u16) -> Argument {
    Argument { name: String::from("id"), value: Some(Value::Unsigned(n as u128)) }
}

fn flag_arg(name: &str) -> Argument {
    Argument { name: String::from(name), value: None }
}

fn default_arg(value: Value) -> Argument {
    Argument { name: String::from("default"), value: Some(value) }
}

fn named(name: &str, ty: Kind, args: Vec<Argument>) -> FieldDecl {
    FieldDecl {
        ident: Some(String::from(name)),
        attrs: vec![Attribute { path: String::from("lbs"), args }],
        ty,
    }
}

fn unit_variant(name: &str, id: u16) -> VariantDecl {
    VariantDecl {
        ident: String::from(name),
        attrs: vec![Attribute { path: String::from("lbs"), args: vec![id_arg(id)] }],
        fields: Fields::Unit,
    }
}

fn payload_variant(name: &str, id: u16, ty: Kind) -> VariantDecl {
    VariantDecl {
        ident: String::from(name),
        attrs: vec![Attribute { path: String::from("lbs"), args: vec![id_arg(id)] }],
        fields: Fields::Unnamed(vec![FieldDecl { ident: None, attrs: vec![], ty }]),
    }
}

fn record_kind(fields: Vec<FieldDecl>) -> Kind {
    Kind::Record(gather_struct_meta(fields).unwrap())
}

fn union_kind(variants: Vec<VariantDecl>) -> Kind {
    Kind::Union(gather_enum_meta(variants).unwrap())
}

fn u8_kind() -> Kind {
    Kind::Unsigned(Width::W8)
}

fn u16_kind() -> Kind {
    Kind::Unsigned(Width::W16)
}

fn u64_kind() -> Kind {
    Kind::Unsigned(Width::W64)
}

fn optional(of: Kind) -> Kind {
    Kind::Opt(Box::new(of))
}

fn text(s: &str) -> Value {
    Value::Str(String::from(s))
}

fn encoded(kind: &Kind, value: &Value) -> Vec<u8> {
    assert!(value.has_kind(kind));
    let mut buf = Vec::new();
    encode_value(kind, value, &mut buf).unwrap();
    buf
}

fn decoded(kind: &Kind, bytes: &[u8]) -> Result<Value, LBSError> {
    decode_value(kind, &mut Reader::new(bytes))
}

fn enum_two() -> Kind {
    union_kind(vec![unit_variant("One", 0), unit_variant("Two", 1)])
}

fn enum_one() -> Kind {
    union_kind(vec![
        unit_variant("One", 0),
        unit_variant("Two", 1),
        payload_variant("Three", 2, Kind::Str),
        payload_variant("Four", 3, enum_two()),
    ])
}

fn struct_two() -> Kind {
    record_kind(vec![
        named("id", Kind::Str, vec![id_arg(0), flag_arg("optional")]),
        named("name", Kind::Str, vec![id_arg(1), flag_arg("optional")]),
        named("en", optional(enum_one()), vec![id_arg(2)]),
    ])
}

fn optional_messages() -> Kind {
    record_kind(vec![
        named("f0", u64_kind(), vec![id_arg(0), flag_arg("optional")]),
        named("f1", optional(u64_kind()), vec![id_arg(1)]),
        named("f2", Kind::Str, vec![id_arg(2), flag_arg("optional")]),
        named("f3", Kind::Bool, vec![id_arg(3), flag_arg("optional")]),
        named("f4", Kind::List(Box::new(u16_kind())), vec![id_arg(4), flag_arg("optional")]),
        named("f5", Kind::Signed(Width::W32), vec![id_arg(5), flag_arg("optional")]),
    ])
}

#[test]
fn a_record_of_defaults_is_an_empty_record() {
    let kind = optional_messages();
    let defaults = kind.default_value();
    assert_eq!(
        defaults,
        Value::Record(vec![
            Value::Unsigned(0),
            Value::Opt(None),
            text(""),
            Value::Bool(false),
            Value::List(vec![]),
            Value::Signed(0),
        ])
    );
    let bytes = encoded(&kind, &defaults);
    assert_eq!(bytes, vec![0, 0]);
    assert_eq!(decoded(&kind, &bytes).unwrap(), defaults);
}

#[test]
fn a_required_field_at_its_default_does_not_survive() {
    let kind = record_kind(vec![named("f0", u64_kind(), vec![id_arg(0)])]);
    let bytes = encoded(&kind, &Value::Record(vec![Value::Unsigned(0)]));
    assert_eq!(bytes, vec![0, 0]);
    match decoded(&kind, &bytes) {
        Err(LBSError::WithField(0, inner)) => {
            assert!(matches!(*inner, LBSError::RequiredButMissing))
        }
        other => panic!("unexpected {:?}", other),
    }
}

#[test]
fn a_record_is_a_count_and_pairs_of_id_and_value() {
    let kind = optional_messages();
    let value = Value::Record(vec![
        Value::Unsigned(1),
        Value::Opt(Some(Box::new(Value::Unsigned(2)))),
        text("ab"),
        Value::Bool(true),
        Value::List(vec![Value::Unsigned(5)]),
        Value::Signed(-1),
    ]);
    let bytes = encoded(&kind, &value);
    let expected: Vec<u8> = vec![
        6, 0, // six fields
        0, 0, 1, 0, 0, 0, 0, 0, 0, 0, // f0
        1, 0, 1, 2, 0, 0, 0, 0, 0, 0, 0, // f1
        2, 0, 2, 0, 0, 0, b'a', b'b', // f2
        3, 0, 1, // f3
        4, 0, 1, 0, 0, 0, 5, 0, // f4
        5, 0, 0xFF, 0xFF, 0xFF, 0xFF, // f5
    ];
    assert_eq!(bytes, expected);
    assert_eq!(decoded(&kind, &bytes).unwrap(), value);
}

#[test]
fn fields_may_arrive_in_any_order() {
    let kind = optional_messages();
    let bytes = [2, 0, 3, 0, 1, 0, 0, 9, 0, 0, 0, 0, 0, 0, 0];
    assert_eq!(
        decoded(&kind, &bytes).unwrap(),
        Value::Record(vec![
            Value::Unsigned(9),
            Value::Opt(None),
            text(""),
            Value::Bool(true),
            Value::List(vec![]),
            Value::Signed(0),
        ])
    );
}

#[test]
fn a_value_survives_encoding_and_decoding() {
    let kind = record_kind(vec![
        named("unit", Kind::Unit, vec![id_arg(14)]),
        named("pair", Kind::Pair(Box::new(u64_kind()), Box::new(Kind::Str)), vec![id_arg(15)]),
        named(
            "triple",
            Kind::Pair(
                Box::new(u64_kind()),
                Box::new(Kind::Pair(Box::new(u64_kind()), Box::new(u64_kind()))),
            ),
            vec![id_arg(16)],
        ),
        named("flag", Kind::Bool, vec![id_arg(17)]),
        named("letter", Kind::Char, vec![id_arg(18)]),
        named("text", Kind::Str, vec![id_arg(19)]),
        named("range", Kind::Pair(Box::new(u64_kind()), Box::new(u64_kind())), vec![id_arg(25)]),
        named("list", Kind::List(Box::new(u64_kind())), vec![id_arg(26)]),
        named("shared", Kind::Owned(Box::new(Kind::Str)), vec![id_arg(27)]),
        named("maybe", optional(Kind::Str), vec![id_arg(31)]),
        named(
            "map",
            Kind::List(Box::new(Kind::Pair(Box::new(Kind::Str), Box::new(u64_kind())))),
            vec![id_arg(33)],
        ),
        named("nested", struct_two(), vec![id_arg(39)]),
        named(
            "choice",
            enum_one(),
            vec![id_arg(40), default_arg(Value::Union(0, None))],
        ),
        named("wide", Kind::Signed(Width::W128), vec![id_arg(11)]),
        named("skipped", Kind::Bool, vec![id_arg(44), flag_arg("skip")]),
    ]);
    let value = Value::Record(vec![
        Value::Unit,
        Value::Pair(Box::new(Value::Unsigned(1)), Box::new(text("1"))),
        Value::Pair(
            Box::new(Value::Unsigned(1)),
            Box::new(Value::Pair(Box::new(Value::Unsigned(2)), Box::new(Value::Unsigned(3)))),
        ),
        Value::Bool(true),
        Value::Char('a'),
        text("test"),
        Value::Pair(Box::new(Value::Unsigned(0)), Box::new(Value::Unsigned(1))),
        Value::List(vec![Value::Unsigned(1), Value::Unsigned(2), Value::Unsigned(3)]),
        Value::Owned(Box::new(text("test_rc"))),
        Value::Opt(Some(Box::new(text("str")))),
        Value::List(vec![
            Value::Pair(Box::new(text("key1")), Box::new(Value::Unsigned(1))),
            Value::Pair(Box::new(text("key2")), Box::new(Value::Unsigned(2))),
        ]),
        Value::Record(vec![text(""), text(""), Value::Opt(None)]),
        Value::Union(2, Some(Box::new(text("test_enum")))),
        Value::Signed(i128::MIN),
        Value::Bool(false),
    ]);
    let bytes = encoded(&kind, &value);
    assert_eq!(decoded(&kind, &bytes).unwrap(), value);
}

#[test]
fn a_skipped_field_is_neither_written_nor_read() {
    let kind = record_kind(vec![
        named("f0", u8_kind(), vec![id_arg(0)]),
        named("f44", Kind::Bool, vec![id_arg(44), flag_arg("skip")]),
    ]);
    let bytes = encoded(&kind, &Value::Record(vec![Value::Unsigned(1), Value::Bool(true)]));
    assert_eq!(bytes, vec![1, 0, 0, 0, 1]);
    assert_eq!(
        decoded(&kind, &bytes).unwrap(),
        Value::Record(vec![Value::Unsigned(1), Value::Bool(false)])
    );
    // the id of a skipped field is treated as unknown when it arrives
    assert_eq!(
        decoded(&kind, &[2, 0, 0, 0, 1, 44, 0]).unwrap(),
        Value::Record(vec![Value::Unsigned(1), Value::Bool(false)])
    );
}

#[test]
fn an_absent_field_holds_its_declared_default() {
    let kind = record_kind(vec![
        named("f0", u8_kind(), vec![id_arg(0), default_arg(Value::Unsigned(5))]),
        named("f1", Kind::Str, vec![id_arg(1), default_arg(text("none"))]),
    ]);
    assert_eq!(
        decoded(&kind, &[0, 0]).unwrap(),
        Value::Record(vec![Value::Unsigned(5), text("none")])
    );
    // its declared default is written, the default of its type is left out
    assert_eq!(
        encoded(&kind, &Value::Record(vec![Value::Unsigned(5), text("")])),
        vec![1, 0, 0, 0, 5]
    );
    assert_eq!(
        decoded(&kind, &encoded(&kind, &Value::Record(vec![Value::Unsigned(0), text("")])))
            .unwrap(),
        Value::Record(vec![Value::Unsigned(5), text("none")])
    );
}

#[test]
fn a_removed_field_that_was_left_out_is_never_read() {
    let wide = record_kind(vec![
        named("f0", u64_kind(), vec![id_arg(0)]),
        named("f1", optional(u64_kind()), vec![id_arg(1)]),
    ]);
    let narrow = record_kind(vec![named("f0", u64_kind(), vec![id_arg(0)])]);
    let bytes = encoded(&wide, &Value::Record(vec![Value::Unsigned(1), Value::Opt(None)]));
    assert_eq!(bytes, vec![1, 0, 0, 0, 1, 0, 0, 0, 0, 0, 0, 0]);
    let mut reader = Reader::new(&bytes);
    assert_eq!(
        decode_value(&narrow, &mut reader).unwrap(),
        Value::Record(vec![Value::Unsigned(1)])
    );
    assert!(reader.is_empty());
}

#[test]
fn an_unknown_field_is_tolerated_when_it_is_the_last() {
    let writer = record_kind(vec![
        named("f0", u16_kind(), vec![id_arg(0)]),
        named("f5", u8_kind(), vec![id_arg(5)]),
    ]);
    let reader_kind = record_kind(vec![named("f0", u16_kind(), vec![id_arg(0)])]);
    let bytes = encoded(&writer, &Value::Record(vec![Value::Unsigned(1), Value::Unsigned(7)]));
    assert_eq!(bytes, vec![2, 0, 0, 0, 1, 0, 5, 0, 7]);
    let mut reader = Reader::new(&bytes);
    assert_eq!(
        decode_value(&reader_kind, &mut reader).unwrap(),
        Value::Record(vec![Value::Unsigned(1)])
    );
    // the value of the unknown field is not consumed
    assert_eq!(reader.remaining(), 1);
}

#[test]
fn an_unknown_field_before_others_desynchronizes_the_decoding() {
    let writer = record_kind(vec![
        named("f0", u16_kind(), vec![id_arg(0)]),
        named("f5", u8_kind(), vec![id_arg(5)]),
        named("f1", u16_kind(), vec![id_arg(1)]),
    ]);
    let reader_kind = record_kind(vec![
        named("f0", u16_kind(), vec![id_arg(0), flag_arg("optional")]),
        named("f1", u16_kind(), vec![id_arg(1), flag_arg("optional")]),
    ]);
    let bytes = encoded(
        &writer,
        &Value::Record(vec![Value::Unsigned(1), Value::Unsigned(7), Value::Unsigned(2)]),
    );
    assert_eq!(bytes, vec![3, 0, 0, 0, 1, 0, 5, 0, 7, 1, 0, 2, 0]);
    let mut reader = Reader::new(&bytes);
    // the byte 7 and the next byte are taken for an id, which is unknown too
    assert_eq!(
        decode_value(&reader_kind, &mut reader).unwrap(),
        Value::Record(vec![Value::Unsigned(1), Value::Unsigned(0)])
    );
    assert_eq!(reader.remaining(), 3);
}

#[test]
fn a_missing_required_field_is_named() {
    let kind = record_kind(vec![
        named("f0", u8_kind(), vec![id_arg(10)]),
        named("f1", u8_kind(), vec![id_arg(20)]),
        named("f2", u8_kind(), vec![id_arg(30)]),
    ]);
    match decoded(&kind, &[1, 0, 10, 0, 1]) {
        Err(LBSError::WithField(20, inner)) => {
            assert!(matches!(*inner, LBSError::RequiredButMissing))
        }
        other => panic!("unexpected {:?}", other),
    }
    match decoded(&kind, &[2, 0, 10, 0, 1, 20, 0, 1]) {
        Err(LBSError::WithField(30, inner)) => {
            assert!(matches!(*inner, LBSError::RequiredButMissing))
        }
        other => panic!("unexpected {:?}", other),
    }
}

#[test]
fn a_failure_in_a_nested_record_keeps_the_innermost_tag() {
    let inner = record_kind(vec![named("needed", u8_kind(), vec![id_arg(3)])]);
    let outer = record_kind(vec![named("inner", inner, vec![id_arg(7)])]);
    // one field, id 7, holding a record without fields
    match decoded(&outer, &[1, 0, 7, 0, 0, 0]) {
        Err(LBSError::WithField(3, cause)) => {
            assert!(matches!(*cause, LBSError::RequiredButMissing))
        }
        other => panic!("unexpected {:?}", other),
    }
    // the outer record's own missing field carries the outer id
    match decoded(&outer, &[0, 0]) {
        Err(LBSError::WithField(7, cause)) => {
            assert!(matches!(*cause, LBSError::RequiredButMissing))
        }
        other => panic!("unexpected {:?}", other),
    }
}

#[test]
fn a_failure_inside_a_field_is_tagged_with_its_id() {
    let kind = record_kind(vec![
        named("letter", Kind::Char, vec![id_arg(4)]),
        named("text", Kind::Str, vec![id_arg(5), flag_arg("optional")]),
    ]);
    match decoded(&kind, &[1, 0, 4, 0, 0, 0xD8, 0, 0]) {
        Err(LBSError::WithField(4, cause)) => assert!(matches!(*cause, LBSError::InvalidChar)),
        other => panic!("unexpected {:?}", other),
    }
    match decoded(&kind, &[1, 0, 5, 0, 1, 0, 0, 0, 0xFF]) {
        Err(LBSError::WithField(5, cause)) => assert!(matches!(*cause, LBSError::Parsing(_))),
        other => panic!("unexpected {:?}", other),
    }
    let truncated = decoded(&kind, &[1, 0, 4, 0, 0x61, 0]).unwrap_err();
    assert!(matches!(truncated, LBSError::WithField(4, _)));
    assert!(truncated.is_eof());
}

#[test]
fn a_failure_outside_a_field_carries_no_tag() {
    let kind = record_kind(vec![named("f0", u8_kind(), vec![id_arg(0)])]);
    assert!(matches!(decoded(&kind, &[1]), Err(LBSError::Io(IoErrorKind::UnexpectedEof))));
    assert!(matches!(decoded(&kind, &[1, 0, 0]), Err(LBSError::Io(IoErrorKind::UnexpectedEof))));
}

#[test]
fn a_variant_is_its_id_and_its_payload() {
    let kind = enum_one();
    assert_eq!(encoded(&kind, &Value::Union(0, None)), vec![0, 0]);
    assert_eq!(encoded(&kind, &Value::Union(1, None)), vec![1, 0]);
    let three = Value::Union(2, Some(Box::new(text("test_enum"))));
    let mut expected = vec![2, 0, 9, 0, 0, 0];
    expected.extend_from_slice(b"test_enum");
    assert_eq!(encoded(&kind, &three), expected);
    assert_eq!(decoded(&kind, &expected).unwrap(), three);
    let four = Value::Union(3, Some(Box::new(Value::Union(1, None))));
    assert_eq!(encoded(&kind, &four), vec![3, 0, 1, 0]);
    assert_eq!(decoded(&kind, &[3, 0, 1, 0]).unwrap(), four);
    assert_eq!(decoded(&kind, &[1, 0]).unwrap(), Value::Union(1, None));
}

#[test]
fn an_unknown_variant_is_rejected() {
    let kind = enum_one();
    assert!(matches!(decoded(&kind, &[4, 0]), Err(LBSError::UnexpectedVariant)));
    assert!(matches!(decoded(&kind, &[0, 1]), Err(LBSError::UnexpectedVariant)));
    assert!(matches!(decoded(&kind, &[3, 0, 2, 0]), Err(LBSError::UnexpectedVariant)));
    assert!(decoded(&kind, &[3]).unwrap_err().is_eof());
}

#[test]
fn records_written_one_after_another_are_read_one_after_another() {
    let kind = record_kind(vec![
        named("f0", u64_kind(), vec![id_arg(0)]),
        named("f1", optional(u64_kind()), vec![id_arg(1)]),
    ]);
    let first = Value::Record(vec![Value::Unsigned(1), Value::Opt(None)]);
    let second =
        Value::Record(vec![Value::Unsigned(2), Value::Opt(Some(Box::new(Value::Unsigned(3))))]);
    let mut stream = BytesMut::new();
    stream.put_slice(&encoded(&kind, &first));
    stream.put_slice(&encoded(&kind, &second));
    let stream = stream.freeze();
    let mut reader = Reader::new(&stream);
    assert_eq!(decode_value(&kind, &mut reader).unwrap(), first);
    assert_eq!(decode_value(&kind, &mut reader).unwrap(), second);
    assert!(reader.is_empty());
    assert!(decode_value(&kind, &mut reader).unwrap_err().is_eof());
}

#[test]
fn a_record_with_more_fields_than_the_count_can_tell_is_reported() {
    let mut fields = Vec::new();
    for i in 0..=u16::MAX {
        fields.push(named("f", u8_kind(), vec![id_arg(i)]));
    }
    let kind = record_kind(fields);
    let mut values = Vec::new();
    for _ in 0..=u16::MAX {
        values.push(Value::Unsigned(1));
    }
    let mut buf = vec![9];
    let error = encode_value(&kind, &Value::Record(values), &mut buf).unwrap_err();
    assert!(matches!(error, LBSError::Io(IoErrorKind::InvalidInput)));
    assert_eq!(buf, vec![9]);
    let mut values = Vec::new();
    for i in 0..=u16::MAX {
        values.push(Value::Unsigned(if i == 0 { 0 } else { 1 }));
    }
    let mut buf = Vec::new();
    encode_value(&kind, &Value::Record(values), &mut buf).unwrap();
    assert_eq!(buf.len(), 2 + 3 * 65535);
    assert_eq!(&buf[..5], &[0xFF, 0xFF, 1, 0, 1]);
}

#[test]
fn integers_of_every_width() {
    assert_eq!(encoded(&Kind::Unsigned(Width::W8), &Value::Unsigned(255)), vec![255]);
    assert_eq!(encoded(&Kind::Unsigned(Width::W16), &Value::Unsigned(258)), vec![2, 1]);
    assert_eq!(encoded(&Kind::Unsigned(Width::W32), &Value::Unsigned(1)), vec![1, 0, 0, 0]);
    assert_eq!(
        encoded(&Kind::Unsigned(Width::W128), &Value::Unsigned(u128::MAX)),
        vec![0xFF; 16]
    );
    assert_eq!(encoded(&Kind::Signed(Width::W8), &Value::Signed(-128)), vec![0x80]);
    assert_eq!(encoded(&Kind::Signed(Width::W16), &Value::Signed(-1)), vec![0xFF, 0xFF]);
    assert_eq!(
        encoded(&Kind::Signed(Width::W64), &Value::Signed(-3)),
        (-3i64).to_le_bytes().to_vec()
    );
    assert_eq!(
        encoded(&Kind::Signed(Width::W128), &Value::Signed(i128::MIN)),
        i128::MIN.to_le_bytes().to_vec()
    );
    for (width, bytes, value) in [
        (Width::W8, vec![0x80], -128i128),
        (Width::W8, vec![0x7F], 127),
        (Width::W16, vec![0x00, 0x80], -32768),
        (Width::W32, vec![0xFE, 0xFF, 0xFF, 0xFF], -2),
        (Width::W64, (-3i64).to_le_bytes().to_vec(), -3),
        (Width::W128, i128::MIN.to_le_bytes().to_vec(), i128::MIN),
        (Width::W128, i128::MAX.to_le_bytes().to_vec(), i128::MAX),
    ] {
        assert_eq!(decoded(&Kind::Signed(width), &bytes).unwrap(), Value::Signed(value));
    }
    assert_eq!(
        decoded(&Kind::Unsigned(Width::W64), &u64::MAX.to_le_bytes()).unwrap(),
        Value::Unsigned(u64::MAX as u128)
    );
    assert_eq!(Width::W8.byte_count(), 1);
    assert_eq!(Width::W16.byte_count(), 2);
    assert_eq!(Width::W32.byte_count(), 4);
    assert_eq!(Width::W64.byte_count(), 8);
    assert_eq!(Width::W128.byte_count(), 16);
}

#[test]
fn a_value_that_is_not_of_the_kind_is_reported() {
    for (kind, value) in [
        (u8_kind(), Value::Unsigned(256)),
        (Kind::Signed(Width::W8), Value::Signed(-129)),
        (Kind::Str, Value::Unit),
        (Kind::List(Box::new(u8_kind())), Value::List(vec![Value::Unsigned(1), Value::Bool(true)])),
        (enum_one(), Value::Union(9, None)),
        (struct_two(), Value::Record(vec![])),
    ] {
        let mut buf = vec![9];
        let error = encode_value(&kind, &value, &mut buf).unwrap_err();
        assert!(matches!(error, LBSError::Io(IoErrorKind::InvalidInput)), "{:?}", value);
        assert_eq!(buf, vec![9]);
    }
    let encoder = derive_lbs_write(DeriveInput {
        ident: String::from("Marker"),
        data: Data::Struct(Fields::Unit),
    })
    .unwrap();
    let mut buf = Vec::new();
    assert!(encoder.lbs_write(&Value::Bool(true), &mut buf).is_err());
    assert!(buf.is_empty());
}

#[test]
fn a_value_is_of_its_kind_alone() {
    assert!(Value::Unsigned(255).has_kind(&Kind::Unsigned(Width::W8)));
    assert!(!Value::Unsigned(256).has_kind(&Kind::Unsigned(Width::W8)));
    assert!(Value::Unsigned(u128::MAX).has_kind(&Kind::Unsigned(Width::W128)));
    assert!(!Value::Unsigned(1 << 64).has_kind(&Kind::Unsigned(Width::W64)));
    assert!(Value::Signed(-128).has_kind(&Kind::Signed(Width::W8)));
    assert!(!Value::Signed(-129).has_kind(&Kind::Signed(Width::W8)));
    assert!(!Value::Signed(128).has_kind(&Kind::Signed(Width::W8)));
    assert!(!Value::Signed(1).has_kind(&Kind::Unsigned(Width::W8)));
    assert!(!Value::Unit.has_kind(&Kind::Bool));
    assert!(Value::Opt(None).has_kind(&optional(Kind::Str)));
    assert!(!Value::Opt(Some(Box::new(Value::Unit))).has_kind(&optional(Kind::Str)));
    let list = Kind::List(Box::new(u8_kind()));
    assert!(Value::List(vec![Value::Unsigned(1), Value::Unsigned(2)]).has_kind(&list));
    assert!(!Value::List(vec![Value::Unsigned(1), Value::Unsigned(256)]).has_kind(&list));
    let kind = enum_one();
    assert!(Value::Union(1, None).has_kind(&kind));
    assert!(!Value::Union(2, None).has_kind(&kind));
    assert!(!Value::Union(1, Some(Box::new(text("x")))).has_kind(&kind));
    assert!(!Value::Union(9, None).has_kind(&kind));
    let record = record_kind(vec![named("f0", u8_kind(), vec![id_arg(0)])]);
    assert!(Value::Record(vec![Value::Unsigned(1)]).has_kind(&record));
    assert!(!Value::Record(vec![]).has_kind(&record));
    assert!(!Value::Record(vec![Value::Bool(true)]).has_kind(&record));
}

#[test]
fn the_default_of_each_kind() {
    assert_eq!(Kind::Unit.default_value(), Value::Unit);
    assert_eq!(Kind::Bool.default_value(), Value::Bool(false));
    assert_eq!(Kind::Char.default_value(), Value::Char('\0'));
    assert_eq!(u8_kind().default_value(), Value::Unsigned(0));
    assert_eq!(Kind::Signed(Width::W64).default_value(), Value::Signed(0));
    assert_eq!(Kind::Str.default_value(), text(""));
    assert_eq!(optional(Kind::Str).default_value(), Value::Opt(None));
    assert_eq!(Kind::List(Box::new(Kind::Str)).default_value(), Value::List(vec![]));
    assert_eq!(
        Kind::Pair(Box::new(Kind::Bool), Box::new(Kind::Str)).default_value(),
        Value::Pair(Box::new(Value::Bool(false)), Box::new(text("")))
    );
    assert_eq!(
        Kind::Owned(Box::new(Kind::Bool)).default_value(),
        Value::Owned(Box::new(Value::Bool(false)))
    );
    assert_eq!(enum_one().default_value(), Value::Union(0, None));
    assert_eq!(
        union_kind(vec![payload_variant("Only", 7, Kind::Bool)]).default_value(),
        Value::Union(7, Some(Box::new(Value::Bool(false))))
    );
    assert_eq!(
        struct_two().default_value(),
        Value::Record(vec![text(""), text(""), Value::Opt(None)])
    );
}

#[test]
fn values_that_a_record_leaves_out() {
    for value in [
        Value::Unsigned(0),
        Value::Signed(0),
        Value::Bool(false),
        text(""),
        Value::Opt(None),
        Value::List(vec![]),
    ] {
        assert!(!value.lbs_must_write(), "{:?}", value);
    }
    for value in [
        Value::Unit,
        Value::Unsigned(1),
        Value::Signed(-1),
        Value::Bool(true),
        Value::Char('\0'),
        text("a"),
        Value::Opt(Some(Box::new(Value::Unsigned(0)))),
        Value::List(vec![Value::Unsigned(0)]),
        Value::Pair(Box::new(Value::Unsigned(0)), Box::new(Value::Unsigned(0))),
        Value::Owned(Box::new(Value::Unsigned(0))),
        Value::Record(vec![]),
        Value::Union(0, None),
    ] {
        assert!(value.lbs_must_write(), "{:?}", value);
    }
}

#[test]
fn a_nested_record_of_defaults_is_written_in_full() {
    let kind = record_kind(vec![named("inner", struct_two(), vec![id_arg(39)])]);
    let value = kind.default_value();
    assert_eq!(encoded(&kind, &value), vec![1, 0, 39, 0, 0, 0]);
    assert_eq!(decoded(&kind, &[1, 0, 39, 0, 0, 0]).unwrap(), value);
}

#[test]
fn a_copy_has_the_same_content() {
    let value = Value::Record(vec![
        Value::List(vec![text("a"), text("b")]),
        Value::Union(
            2,
            Some(Box::new(Value::Pair(Box::new(Value::Unit), Box::new(Value::Char('x'))))),
        ),
        Value::Opt(Some(Box::new(Value::Owned(Box::new(Value::Signed(-5)))))),
    ]);
    assert_eq!(value.copy(), value);
}

#[test]
fn the_two_halves_of_a_derived_codec() {
    let input = || DeriveInput {
        ident: String::from("EnumTwo"),
        data: Data::Enum(vec![unit_variant("One", 0), unit_variant("Two", 1)]),
    };
    let encoder: Encoder = derive_lbs_write(input()).unwrap();
    let decoder: Decoder = derive_lbs_read(input()).unwrap();
    assert_eq!(encoder.kind(), decoder.kind());
    let value = Value::Union(1, None);
    assert!(encoder.accepts(&value));
    assert!(!encoder.accepts(&Value::Union(2, None)));
    let mut buf = Vec::new();
    encoder.lbs_write(&value, &mut buf).unwrap();
    assert_eq!(buf, vec![1, 0]);
    assert_eq!(decoder.lbs_read(&mut Reader::new(&buf)).unwrap(), value);
    assert_eq!(encoder.into_kind(), decoder.into_kind());
}

#[test]
fn a_struct_without_fields_takes_no_bytes() {
    let input = || DeriveInput { ident: String::from("Marker"), data: Data::Struct(Fields::Unit) };
    let encoder = derive_lbs_write(input()).unwrap();
    let decoder = derive_lbs_read(input()).unwrap();
    assert_eq!(*encoder.kind(), Kind::Unit);
    let mut buf = Vec::new();
    encoder.lbs_write(&Value::Unit, &mut buf).unwrap();
    assert!(buf.is_empty());
    assert_eq!(decoder.lbs_read(&mut Reader::new(&[5])).unwrap(), Value::Unit);
}
