use sql_sink::decode::decode_operation;
use sql_sink::encode::encode_operation;
use sql_sink::errors::DecodeError;
use sql_sink::operation::Operation;
use sql_sink::value::Value;

fn b(s: &str) -> Vec<u8> {
    s.as_bytes().to_vec()
}

fn round_trips(payload: &str) {
    let op = decode_operation(&b(payload)).expect("payload should decode");
    let encoded = encode_operation(&op);
    assert_eq!(encoded, b(payload));
    let again = decode_operation(&encoded).expect("canonical form should decode");
    assert_eq!(encode_operation(&again), encoded);
}

#[test]
fn insert_round_trip() {
    round_trips(r#"{"Insert":{"table":"users","columns":[["id",1],["name","Ann"]]}}"#);
}

#[test]
fn update_round_trip() {
    round_trips(r#"{"Update":{"table":"users","set":[["name","Bea"]],"key":[["id",1]]}}"#);
}

#[test]
fn delete_round_trip() {
    round_trips(r#"{"Delete":{"table":"users","key":[["id",7]]}}"#);
}

#[test]
fn upsert_round_trip() {
    round_trips(
        r#"{"Upsert":{"table":"users","columns":[["id",1],["name","Ann"]],"conflict_key":["id"]}}"#,
    );
}

#[test]
fn all_value_kinds_round_trip() {
    round_trips(
        r#"{"Insert":{"table":"t","columns":[["a",null],["b",true],["c",false],["d",-42],["e","x"],["f",{"Float":"1.5e3"}],["g",{"Bytes":[0,127,255]}],["h",{"Timestamp":1700000000000}]]}}"#,
    );
}

#[test]
fn escaped_text_round_trip() {
    let op = Operation::Insert {
        table: b("logs"),
        columns: vec![(b("msg"), Value::Text(b("say \"hi\"\\\n\tend")))],
    };
    let encoded = encode_operation(&op);
    let decoded = decode_operation(&encoded).expect("escaped text should decode");
    assert_eq!(encode_operation(&decoded), encoded);
}

#[test]
fn unicode_escape_decodes() {
    let payload = b(r#"{"Insert":{"table":"t","columns":[["a","Aé"]]}}"#);
    let op = decode_operation(&payload).expect("unicode escapes should decode");
    match &op {
        Operation::Insert { columns, .. } => match &columns[0].1 {
            Value::Text(t) => assert_eq!(t, &"A\u{e9}".as_bytes().to_vec()),
            other => panic!("expected text, got {:?}", other),
        },
        other => panic!("expected insert, got {:?}", other),
    }
}

#[test]
fn integer_bounds_round_trip() {
    round_trips(
        r#"{"Insert":{"table":"t","columns":[["lo",-9223372036854775808],["hi",9223372036854775807]]}}"#,
    );
}

#[test]
fn unknown_operation_tag_rejected() {
    let r = decode_operation(&b(r#"{"Merge":{"table":"t","columns":[["a",1]]}}"#));
    assert_eq!(r, Err(DecodeError::UnknownOperationTag));
}

#[test]
fn unknown_value_tag_rejected() {
    let r = decode_operation(&b(r#"{"Insert":{"table":"t","columns":[["a",{"Decimal":"1.5"}]]}}"#));
    assert_eq!(r, Err(DecodeError::UnknownValueTag));
}

#[test]
fn empty_update_key_rejected() {
    let r = decode_operation(&b(r#"{"Update":{"table":"t","set":[["a",1]],"key":[]}}"#));
    assert_eq!(r, Err(DecodeError::EmptyKey));
}

#[test]
fn empty_delete_key_rejected() {
    let r = decode_operation(&b(r#"{"Delete":{"table":"t","key":[]}}"#));
    assert_eq!(r, Err(DecodeError::EmptyKey));
}

#[test]
fn empty_columns_rejected() {
    let r = decode_operation(&b(r#"{"Insert":{"table":"t","columns":[]}}"#));
    assert_eq!(r, Err(DecodeError::EmptyColumns));
}

#[test]
fn invalid_identifier_rejected() {
    let r = decode_operation(&b(r#"{"Insert":{"table":"t\"; DROP","columns":[["a",1]]}}"#));
    assert_eq!(r, Err(DecodeError::InvalidIdentifier));
}

#[test]
fn conflict_key_outside_columns_rejected() {
    let r = decode_operation(
        &b(r#"{"Upsert":{"table":"t","columns":[["a",1]],"conflict_key":["b"]}}"#),
    );
    assert_eq!(r, Err(DecodeError::ConflictKeyMismatch));
}

#[test]
fn trailing_bytes_rejected() {
    let r = decode_operation(&b(r#"{"Delete":{"table":"t","key":[["id",1]]}}x"#));
    assert_eq!(r, Err(DecodeError::Malformed));
}

#[test]
fn truncated_payload_rejected() {
    let r = decode_operation(&b(r#"{"Delete":{"table":"t","key":[["id",1]"#));
    assert_eq!(r, Err(DecodeError::Malformed));
}

#[test]
fn oversized_integer_rejected() {
    let r = decode_operation(&b(r#"{"Delete":{"table":"t","key":[["id",9223372036854775808]]}}"#));
    assert_eq!(r, Err(DecodeError::TypeMismatch));
}

#[test]
fn leading_zero_rejected() {
    let r = decode_operation(&b(r#"{"Delete":{"table":"t","key":[["id",01]]}}"#));
    assert_eq!(r, Err(DecodeError::Malformed));
}

#[test]
fn bad_float_text_rejected() {
    let r = decode_operation(&b(r#"{"Insert":{"table":"t","columns":[["a",{"Float":"1.5.2"}]]}}"#));
    assert_eq!(r, Err(DecodeError::TypeMismatch));
}

#[test]
fn byte_out_of_range_rejected() {
    let r = decode_operation(&b(r#"{"Insert":{"table":"t","columns":[["a",{"Bytes":[256]}]]}}"#));
    assert_eq!(r, Err(DecodeError::TypeMismatch));
}

#[test]
fn version_placeholder() {
    assert_eq!(sql_sink::git_hash_version(), "unknown");
}
