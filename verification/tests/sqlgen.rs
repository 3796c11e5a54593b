use sql_sink::decode::decode_operation;
use sql_sink::errors::UnsupportedBackendError;
use sql_sink::sqlgen::render_operation;
use sql_sink::sqlgen::select_backend;
use sql_sink::sqlgen::BackendKind;
use sql_sink::value::Value;

fn b(s: &str) -> Vec<u8> {
    s.as_bytes().to_vec()
}

fn render(kind: BackendKind, payload: &str) -> (String, Vec<Value>) {
    let op = decode_operation(&b(payload)).expect("payload should decode");
    let (sql, params) = render_operation(kind, &op);
    (String::from_utf8(sql).expect("statement text is ASCII"), params)
}

#[test]
fn backend_selection_by_scheme() {
    assert_eq!(select_backend(&b("postgres://u@h/db")), Ok(BackendKind::Postgres));
    assert_eq!(select_backend(&b("postgresql://u@h/db")), Ok(BackendKind::Postgres));
    assert_eq!(select_backend(&b("mysql://u@h/db")), Ok(BackendKind::MySql));
    assert_eq!(select_backend(&b("sqlite://file.db")), Ok(BackendKind::Sqlite));
    assert_eq!(select_backend(&b("oracle://u@h/db")), Err(UnsupportedBackendError));
}

#[test]
fn insert_renders_parameterized_per_dialect() {
    let payload = r#"{"Insert":{"table":"users","columns":[["id",1],["name","Ann"]]}}"#;
    let (sql, params) = render(BackendKind::Postgres, payload);
    assert_eq!(sql, r#"INSERT INTO "users" ("id","name") VALUES ($1,$2)"#);
    assert_eq!(params.len(), 2);
    assert!(matches!(params[0], Value::Integer(1)));
    match &params[1] {
        Value::Text(t) => assert_eq!(t, &b("Ann")),
        other => panic!("expected text parameter, got {:?}", other),
    }
    let (sql, _) = render(BackendKind::MySql, payload);
    assert_eq!(sql, "INSERT INTO `users` (`id`,`name`) VALUES (?,?)");
    let (sql, _) = render(BackendKind::Sqlite, payload);
    assert_eq!(sql, r#"INSERT INTO "users" ("id","name") VALUES (?,?)"#);
}

#[test]
fn update_renders_set_then_key_parameters() {
    let payload = r#"{"Update":{"table":"users","set":[["name","Bea"]],"key":[["id",1]]}}"#;
    let (sql, params) = render(BackendKind::Postgres, payload);
    assert_eq!(sql, r#"UPDATE "users" SET "name"=$1 WHERE "id"=$2"#);
    assert!(matches!(params[0], Value::Text(_)));
    assert!(matches!(params[1], Value::Integer(1)));
}

#[test]
fn delete_renders_and_conjunction() {
    let payload = r#"{"Delete":{"table":"users","key":[["id",1],["name","Ann"]]}}"#;
    let (sql, params) = render(BackendKind::Sqlite, payload);
    assert_eq!(sql, r#"DELETE FROM "users" WHERE "id"=? AND "name"=?"#);
    assert_eq!(params.len(), 2);
    let (sql, _) = render(BackendKind::Postgres, payload);
    assert_eq!(sql, r#"DELETE FROM "users" WHERE "id"=$1 AND "name"=$2"#);
}

#[test]
fn upsert_renders_conflict_clause() {
    let payload =
        r#"{"Upsert":{"table":"users","columns":[["id",1],["name","Ann"]],"conflict_key":["id"]}}"#;
    let (sql, params) = render(BackendKind::Postgres, payload);
    assert_eq!(
        sql,
        r#"INSERT INTO "users" ("id","name") VALUES ($1,$2) ON CONFLICT ("id") DO UPDATE SET "id"=excluded."id","name"=excluded."name""#,
    );
    assert_eq!(params.len(), 2);
    let (sql, _) = render(BackendKind::MySql, payload);
    assert_eq!(
        sql,
        "INSERT INTO `users` (`id`,`name`) VALUES (?,?) ON DUPLICATE KEY UPDATE `id`=VALUES(`id`),`name`=VALUES(`name`)",
    );
}
