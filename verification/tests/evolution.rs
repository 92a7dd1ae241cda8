use lbs::derive::{derive_lbs_read, derive_lbs_write};
use lbs::error::LBSError;
use lbs::schema::{Argument, Attribute, Data, DeriveInput, FieldDecl, Fields};
use lbs::stream::Reader;
use lbs::value::{Kind, Value, Width};

fn id(n: u16) -> Argument {
    Argument { name: String::from("id"), value: Some(Value::Unsigned(n as u128)) }
}

fn flag(name: &str) -> Argument {
    Argument { name: String::from(name), value: None }
}

fn field(name: &str, ty: Kind, args: Vec<Argument>) -> FieldDecl {
    FieldDecl {
        ident: Some(String::from(name)),
        attrs: vec![Attribute { path: String::from("lbs"), args }],
        ty,
    }
}

fn record(name: &str, fields: Vec<FieldDecl>) -> DeriveInput {
    DeriveInput { ident: String::from(name), data: Data::Struct(Fields::Named(fields)) }
}

fn u64_kind() -> Kind {
    Kind::Unsigned(Width::W64)
}

fn optional_u64() -> Kind {
    Kind::Opt(Box::new(u64_kind()))
}

fn message_v1(name: &str) -> DeriveInput {
    record(
        name,
        vec![field("f0", u64_kind(), vec![id(0)]), field("f1", optional_u64(), vec![id(1)])],
    )
}

fn message_v2() -> DeriveInput {
    record(
        "MessageV2",
        vec![
            field("f0", u64_kind(), vec![id(0)]),
            field("f1", optional_u64(), vec![id(1)]),
            field("f2", u64_kind(), vec![id(2)]),
        ],
    )
}

fn other_message_v2() -> DeriveInput {
    record(
        "OtherMessageV2",
        vec![
            field("f0", u64_kind(), vec![id(0)]),
            field("f1", optional_u64(), vec![id(1)]),
            field("f2", u64_kind(), vec![id(2), flag("optional")]),
        ],
    )
}

#[test]
fn required() {
    let msgv1 = Value::Record(vec![Value::Unsigned(1), Value::Opt(None)]);

    let mut buf = Vec::with_capacity(128);
    derive_lbs_write(message_v1("MessageV1")).unwrap().lbs_write(&msgv1, &mut buf).unwrap();

    let reader = derive_lbs_read(message_v2()).unwrap();
    if let Err(e) = reader.lbs_read(&mut Reader::new(buf.as_slice())) {
        if let LBSError::WithField(id, inner) = e {
            if let LBSError::RequiredButMissing = inner.as_ref() {
                if id == 2 {
                    return;
                }
            }
        }
    }

    panic!("not an error");
}

#[test]
fn optional() {
    let msgv1 = Value::Record(vec![Value::Unsigned(1), Value::Opt(None)]);
    let mut buf = Vec::with_capacity(128);
    derive_lbs_write(message_v1("OtherMessageV1")).unwrap().lbs_write(&msgv1, &mut buf).unwrap();
    let reader = derive_lbs_read(other_message_v2()).unwrap();
    reader.lbs_read(&mut Reader::new(buf.as_slice())).unwrap();
}

#[test]
fn optional_field_keeps_its_default() {
    let msgv1 = Value::Record(vec![Value::Unsigned(1), Value::Opt(None)]);
    let mut buf = Vec::new();
    derive_lbs_write(message_v1("OtherMessageV1")).unwrap().lbs_write(&msgv1, &mut buf).unwrap();
    assert_eq!(buf, vec![1, 0, 0, 0, 1, 0, 0, 0, 0, 0, 0, 0]);
    let reader = derive_lbs_read(other_message_v2()).unwrap();
    let decoded = reader.lbs_read(&mut Reader::new(buf.as_slice())).unwrap();
    assert_eq!(
        decoded,
        Value::Record(vec![Value::Unsigned(1), Value::Opt(None), Value::Unsigned(0)])
    );
}
