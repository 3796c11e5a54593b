use sql_sink::decode::decode_operation;
use sql_sink::semantics::Table;
use sql_sink::value::Value;

fn b(s: &str) -> Vec<u8> {
    s.as_bytes().to_vec()
}

fn apply_payload(table: &mut Table, payload: &str) {
    let op = decode_operation(&b(payload)).expect("payload should decode");
    table.apply(&op);
}

#[test]
fn insert_scenario_yields_one_row() {
    let mut t = Table::new();
    apply_payload(&mut t, r#"{"Insert":{"table":"users","columns":[["id",1],["name","Ann"]]}}"#);
    assert_eq!(t.row_count(), 1);
    let key = vec![(b("id"), Value::Integer(1))];
    assert_eq!(t.matching(&key), 1);
    match t.lookup(&key, &b("name")) {
        Some(Value::Text(name)) => assert_eq!(name, b("Ann")),
        other => panic!("expected Ann, got {:?}", other),
    }
}

#[test]
fn update_scenario_changes_the_row() {
    let mut t = Table::new();
    apply_payload(&mut t, r#"{"Insert":{"table":"users","columns":[["id",1],["name","Ann"]]}}"#);
    apply_payload(&mut t, r#"{"Update":{"table":"users","set":[["name","Bea"]],"key":[["id",1]]}}"#);
    assert_eq!(t.row_count(), 1);
    let key = vec![(b("id"), Value::Integer(1))];
    match t.lookup(&key, &b("name")) {
        Some(Value::Text(name)) => assert_eq!(name, b("Bea")),
        other => panic!("expected Bea, got {:?}", other),
    }
}

#[test]
fn delete_matching_zero_rows_is_a_noop() {
    let mut t = Table::new();
    apply_payload(&mut t, r#"{"Insert":{"table":"users","columns":[["id",1],["name","Ann"]]}}"#);
    apply_payload(&mut t, r#"{"Delete":{"table":"users","key":[["id",99]]}}"#);
    assert_eq!(t.row_count(), 1);
    let key = vec![(b("id"), Value::Integer(1))];
    assert_eq!(t.matching(&key), 1);
}

#[test]
fn delete_removes_matched_rows() {
    let mut t = Table::new();
    apply_payload(&mut t, r#"{"Insert":{"table":"users","columns":[["id",1],["name","Ann"]]}}"#);
    apply_payload(&mut t, r#"{"Insert":{"table":"users","columns":[["id",2],["name","Bea"]]}}"#);
    apply_payload(&mut t, r#"{"Delete":{"table":"users","key":[["id",1]]}}"#);
    assert_eq!(t.row_count(), 1);
    assert_eq!(t.matching(&vec![(b("id"), Value::Integer(1))]), 0);
    assert_eq!(t.matching(&vec![(b("id"), Value::Integer(2))]), 1);
}

#[test]
fn upsert_twice_leaves_one_matching_row() {
    let payload =
        r#"{"Upsert":{"table":"users","columns":[["id",1],["name","Ann"]],"conflict_key":["id"]}}"#;
    let mut t = Table::new();
    apply_payload(&mut t, payload);
    apply_payload(&mut t, payload);
    assert_eq!(t.row_count(), 1);
    assert_eq!(t.matching(&vec![(b("id"), Value::Integer(1))]), 1);
}

#[test]
fn upsert_updates_the_matched_row() {
    let mut t = Table::new();
    apply_payload(
        &mut t,
        r#"{"Upsert":{"table":"users","columns":[["id",1],["name","Ann"]],"conflict_key":["id"]}}"#,
    );
    apply_payload(
        &mut t,
        r#"{"Upsert":{"table":"users","columns":[["id",1],["name","Cal"]],"conflict_key":["id"]}}"#,
    );
    assert_eq!(t.row_count(), 1);
    let key = vec![(b("id"), Value::Integer(1))];
    match t.lookup(&key, &b("name")) {
        Some(Value::Text(name)) => assert_eq!(name, b("Cal")),
        other => panic!("expected Cal, got {:?}", other),
    }
}
