//! The exact text of error messages.

use kv::{KvError, Value};

#[test]
fn test_error() {
    let err = KvError::NotFound("table".into(), "key".into());
    assert_eq!("Not found for table: table, key: key", err.message());

    let err = KvError::ConvertError("v".into(), "integer");
    assert_eq!(
        "Cannot convert value Value { value: Some(String(\"v\")) } to integer",
        err.message()
    );

    let err = KvError::StorageError("set", "table".into(), "key".into(), "error".into());
    assert_eq!(
        "Cannot process command set with table: table, key: key. Error: error",
        err.message()
    );
}

#[test]
fn convert_error_names_each_kind() {
    let err = KvError::ConvertError(Value::Int(-42), "Integer");
    assert_eq!(
        "Cannot convert value Value { value: Some(Integer(-42)) } to Integer",
        err.message()
    );

    let err = KvError::ConvertError(Value::Bin(vec![0, 1, 255]), "Integer");
    assert_eq!(
        "Cannot convert value Value { value: Some(Binary([0, 1, 255])) } to Integer",
        err.message()
    );

    let err = KvError::ConvertError(Value::Bool(true), "Integer");
    assert_eq!(
        "Cannot convert value Value { value: Some(Bool(true)) } to Integer",
        err.message()
    );

    let err = KvError::ConvertError(Value::Null, "Integer");
    assert_eq!("Cannot convert value Value { value: None } to Integer", err.message());
}

#[test]
fn to_integer_rejects_every_other_kind() {
    assert_eq!(Value::Int(7).to_integer(), Ok(7));
    let err = Value::Str("v".into()).to_integer().unwrap_err();
    assert_eq!(
        "Cannot convert value Value { value: Some(String(\"v\")) } to Integer",
        err.message()
    );
    assert!(Value::Null.to_integer().is_err());
}

#[test]
fn remaining_error_messages() {
    assert_eq!(
        "Cannot parse command: `oops`",
        KvError::InvalidCommand("oops".into()).message()
    );
    assert_eq!("Frame error: length exceed", KvError::FrameError("length exceed".into()).message());
    assert_eq!(
        "Failed to parse certificate: server-cert",
        KvError::CertificateParseError("server", "cert").message()
    );
    assert_eq!("IO error: closed", KvError::IOError("closed".into()).message());
    assert_eq!("Internal error: bad", KvError::Internal("bad".into()).message());
    assert_eq!(
        "Failed to encode protobuf message",
        KvError::EncodeError("detail".into()).message()
    );
    assert_eq!(
        "Failed to decode protobuf message",
        KvError::DecodeError("detail".into()).message()
    );
    assert_eq!(
        "Yamux Connection error",
        KvError::YamuxConnectionError("detail".into()).message()
    );
    assert_eq!("Quic connection error", KvError::QuicConnectionError("detail".into()).message());
    assert_eq!("Failed to access sled db", KvError::SledError("detail".into()).message());
}
