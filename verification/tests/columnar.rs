use nodedb_lite::columnar::edits;
use nodedb_lite::columnar::execute;
use nodedb_lite::columnar::execute::ColumnarRun;
use nodedb_lite::columnar::ilp;
use nodedb_lite::columnar::payload;
use nodedb_lite::columnar::rows;
use nodedb_lite::columnar::ops;
use nodedb_lite::columnar::writes;
use nodedb_lite::columnar::writes::{ColumnSpec, ColumnarInsertIntent, InsertParams, Table};
use nodedb_lite::dispatch::columnar::{ColumnarHandler, ColumnarOp};
use nodedb_lite::error::LiteError;
use nodedb_lite::json;
use nodedb_lite::kv::fields::UpdateValue;
use nodedb_query::expr::SqlExpr;
use nodedb_query::scan_filter::{FilterOp, ScanFilter};
use nodedb_types::Value;
use std::collections::HashMap;

fn column(name: &str, primary_key: bool) -> ColumnSpec {
    ColumnSpec { name: name.to_string(), primary_key }
}

fn items() -> Table {
    Table { columns: vec![column("id", true), column("n", false)], rows: Vec::new() }
}

fn late_key() -> Table {
    Table { columns: vec![column("n", false), column("id", true)], rows: Vec::new() }
}

fn params(payload: &'static [u8], intent: ColumnarInsertIntent) -> InsertParams<'static> {
    InsertParams { payload, format: "json", intent, on_conflict_updates: &[], schema_bytes: &[] }
}

fn insert_ok(t: Table, collection: &str, p: &InsertParams) -> (Table, u64) {
    let (after, r) = writes::insert(collection, Some(t), p);
    let (answer, _) = r.expect("insert");
    assert_eq!(answer.command, None);
    (after.expect("table"), answer.rows_affected)
}

fn encoded(v: Value) -> Vec<u8> {
    zerompk::to_msgpack_vec(&v).expect("encode")
}

fn equals(field: &str, value: Value) -> Vec<u8> {
    let filters = vec![ScanFilter {
        field: field.to_string(),
        op: FilterOp::Eq,
        value,
        clauses: Vec::new(),
        expr: None,
    }];
    zerompk::to_msgpack_vec(&filters).expect("encode filters")
}

#[test]
fn parse_ilp_basic() {
    let col_names = vec!["host".to_string(), "cpu".to_string(), "ts".to_string()];
    let ilp_line = b"cpu,host=server01 cpu=0.64 1465839830100400200";
    let rows = ilp::parse_ilp(ilp_line, &col_names).unwrap();
    assert_eq!(rows.len(), 1);
    // host tag
    assert_eq!(rows[0][0], Value::String("server01".into()));
    // cpu field float
    assert_eq!(rows[0][1], Value::Float(0.64));
}

#[test]
fn parse_ilp_integer_field() {
    let col_names = vec!["count".to_string()];
    let rows = ilp::parse_ilp(b"events count=42i", &col_names).unwrap();
    assert_eq!(rows[0][0], Value::Integer(42));
}

#[test]
fn parse_ilp_bool_field() {
    let col_names = vec!["active".to_string()];
    let rows = ilp::parse_ilp(b"status active=true", &col_names).unwrap();
    assert_eq!(rows[0][0], Value::Bool(true));
}

#[test]
fn parse_ilp_comment_and_empty_lines() {
    let col_names = vec!["v".to_string()];
    let rows = ilp::parse_ilp(b"# comment\n\nevents v=1i", &col_names).unwrap();
    assert_eq!(rows.len(), 1);
    assert_eq!(rows[0][0], Value::Integer(1));
}

#[test]
fn json_object_to_row_basic() {
    let mut map = serde_json::Map::new();
    map.insert("a".to_string(), serde_json::Value::from(1));
    map.insert("b".to_string(), serde_json::Value::from("hello"));
    let obj = serde_json::Value::Object(map);
    let cols = vec!["a".to_string(), "b".to_string(), "c".to_string()];
    let row = json::json_object_to_row(obj, &cols).unwrap();
    assert_eq!(row[0], Value::Integer(1));
    assert_eq!(row[1], Value::String("hello".into()));
    assert_eq!(row[2], Value::Null);
}

#[test]
fn ilp_values_are_read_by_their_form() {
    assert_eq!(ilp::parse_ilp_field_value("42i"), Value::Integer(42));
    assert_eq!(ilp::parse_ilp_field_value("-7i"), Value::Integer(-7));
    assert_eq!(ilp::parse_ilp_field_value("1.5"), Value::Float(1.5));
    assert_eq!(ilp::parse_ilp_field_value("false"), Value::Bool(false));
    assert_eq!(ilp::parse_ilp_field_value("\"two words\""), Value::String("two words".into()));
}

#[test]
fn ilp_space_splits_outside_quotes() {
    assert_eq!(ilp::split_ilp_space("a b c"), Some(("a", "b c")));
    assert_eq!(ilp::split_ilp_space("abc"), None);
}

#[test]
fn ilp_refuses_bytes_that_are_no_text() {
    match ilp::parse_ilp(&[0xff, 0xfe], &["v".to_string()]) {
        Err(LiteError::Serialization { detail }) => assert!(!detail.is_empty()),
        other => panic!("unexpected {other:?}"),
    }
}

#[test]
fn json_numbers_keep_their_kind() {
    assert_eq!(json::json_value_to_ndb(serde_json::Value::from(7)), Value::Integer(7));
    assert_eq!(json::json_value_to_ndb(serde_json::Value::from(2.25)), Value::Float(2.25));
    let list = serde_json::Value::Array(vec![
        serde_json::Value::from(true),
        serde_json::Value::Null,
    ]);
    assert_eq!(
        json::json_value_to_ndb(list),
        Value::Array(vec![Value::Bool(true), Value::Null])
    );
    match json::json_object_to_row(serde_json::Value::from(1), &["a".to_string()]) {
        Err(LiteError::Serialization { detail }) => {
            assert_eq!(detail, "each element in JSON array must be an object")
        }
        other => panic!("unexpected {other:?}"),
    }
}

#[test]
fn rows_and_objects_correspond() {
    let columns = vec!["a".to_string(), "b".to_string()];
    let object = rows::row_to_object(&columns, &[Value::Integer(1), Value::Bool(true)]);
    let mut map = HashMap::new();
    map.insert("a".to_string(), Value::Integer(1));
    map.insert("b".to_string(), Value::Bool(true));
    assert_eq!(object, Value::Object(map));
    let row = payload::value_object_to_row(object, &columns).expect("row");
    assert_eq!(row, vec![Value::Integer(1), Value::Bool(true)]);
    assert!(payload::value_object_to_row(Value::Integer(1), &columns).is_err());
}

#[test]
fn payload_formats_give_the_same_rows() {
    let columns = vec!["id".to_string(), "n".to_string()];
    let wanted = vec![vec![Value::String("a".into()), Value::Integer(1)]];
    let rows = payload::decode_payload(br#"[{"id":"a","n":1}]"#, "json", &columns).expect("json");
    assert_eq!(rows, wanted);
    let mut map = HashMap::new();
    map.insert("id".to_string(), Value::String("a".into()));
    map.insert("n".to_string(), Value::Integer(1));
    let bytes = encoded(Value::Array(vec![Value::Object(map)]));
    let rows = payload::decode_payload(&bytes, "msgpack", &columns).expect("msgpack");
    assert_eq!(rows, wanted);
    assert!(payload::decode_payload(b"{", "json", &columns).is_err());
}

#[test]
fn insert_unique_refuses_a_duplicate_primary_key() {
    let unique = ColumnarInsertIntent::InsertUnique;
    let (t, n) = insert_ok(items(), "iu_dup", &params(br#"[{"id":"a","n":1}]"#, unique));
    assert_eq!(n, 1);
    let (after, r) =
        writes::insert("iu_dup", Some(t), &params(br#"[{"id":"a","n":2}]"#, unique));
    match r {
        Err(LiteError::ConstraintViolation { collection, constraint, detail }) => {
            assert_eq!(collection, "iu_dup");
            assert_eq!(constraint, "unique");
            assert!(detail.contains("duplicate key"), "{detail}");
        }
        other => panic!("unexpected {other:?}"),
    }
    let rows = after.expect("table").rows;
    assert_eq!(rows.len(), 1, "the refused row must not be written");
    assert_eq!(rows[0][1], Value::Integer(1), "the prior row survives");
}

#[test]
fn writes_insert_unique_finds_a_primary_key_that_is_not_column_zero() {
    let unique = ColumnarInsertIntent::InsertUnique;
    let (t, _) = insert_ok(late_key(), "iu_late_pk", &params(br#"[{"n":1,"id":"a"}]"#, unique));
    let (after, r) =
        writes::insert("iu_late_pk", Some(t), &params(br#"[{"n":2,"id":"a"}]"#, unique));
    assert!(matches!(r, Err(LiteError::ConstraintViolation { .. })));
    assert_eq!(after.expect("table").rows.len(), 1, "the refused row must not be written");
}

#[test]
fn writes_insert_if_absent_finds_a_primary_key_that_is_not_column_zero() {
    let absent = ColumnarInsertIntent::InsertIfAbsent;
    let (t, _) = insert_ok(late_key(), "iia_late_pk", &params(br#"[{"n":1,"id":"a"}]"#, absent));
    let (t, n) = insert_ok(t, "iia_late_pk", &params(br#"[{"n":2,"id":"a"}]"#, absent));
    assert_eq!(n, 0);
    assert_eq!(t.rows.len(), 1, "the duplicate must be skipped wherever the key sits");
    assert_eq!(t.rows[0][0], Value::Integer(1), "the prior row survives");
}

#[test]
fn insert_unique_admits_a_fresh_primary_key() {
    let unique = ColumnarInsertIntent::InsertUnique;
    let (t, _) = insert_ok(items(), "iu_fresh", &params(br#"[{"id":"a","n":1}]"#, unique));
    let (t, _) = insert_ok(t, "iu_fresh", &params(br#"[{"id":"b","n":2}]"#, unique));
    assert_eq!(t.rows.len(), 2, "distinct keys both insert");
}

fn seed() -> Table {
    Table { columns: vec![column("sku", true), column("qty", false)], rows: Vec::new() }
}

fn seed_late_pk() -> Table {
    Table { columns: vec![column("qty", false), column("sku", true)], rows: Vec::new() }
}

fn payload_of(sku: &str, qty: i64) -> Vec<u8> {
    let mut row = HashMap::new();
    row.insert("sku".to_string(), Value::String(sku.into()));
    row.insert("qty".to_string(), Value::Integer(qty));
    encoded(Value::Object(row))
}

fn run(
    t: Table,
    collection: &str,
    intent: ColumnarInsertIntent,
    bytes: &[u8],
) -> (Table, Result<u64, LiteError>) {
    let p = InsertParams {
        payload: bytes,
        format: "msgpack",
        intent,
        on_conflict_updates: &[],
        schema_bytes: &[],
    };
    let (after, r) = ops::insert(collection, Some(t), &p);
    (after.expect("table"), r.map(|(answer, _)| answer.rows_affected))
}

#[test]
fn ops_insert_unique_finds_a_primary_key_that_is_not_column_zero() {
    let unique = ColumnarInsertIntent::InsertUnique;
    let (t, r) = run(seed_late_pk(), "late_pk", unique, &payload_of("a", 1));
    r.expect("first insert");
    let (t, r) = run(t, "late_pk", unique, &payload_of("a", 2));
    let err = r.expect_err("a duplicate must be refused wherever the key sits");
    assert!(matches!(err, LiteError::UniqueViolation { .. }), "{err:?}");
    assert_eq!(t.rows.len(), 1, "the refused row must not be written");
}

#[test]
fn ops_insert_if_absent_finds_a_primary_key_that_is_not_column_zero() {
    let absent = ColumnarInsertIntent::InsertIfAbsent;
    let (t, r) = run(seed_late_pk(), "late_pk", absent, &payload_of("a", 1));
    r.expect("first insert");
    let (t, r) = run(t, "late_pk", absent, &payload_of("a", 2));
    r.expect("a duplicate is skipped, not an error");
    assert_eq!(t.rows.len(), 1, "the duplicate must be skipped");
}

#[test]
fn insert_unique_duplicate_pk_is_a_unique_violation() {
    let unique = ColumnarInsertIntent::InsertUnique;
    let (t, r) = run(seed(), "items", unique, &payload_of("a", 1));
    assert_eq!(r.expect("first insert"), 1);
    let (t, r) = run(t, "items", unique, &payload_of("a", 2));
    match r.expect_err("duplicate") {
        LiteError::UniqueViolation { collection, detail } => {
            assert_eq!(collection, "items");
            assert_eq!(detail, "sku = String(\"a\")");
        }
        other => panic!("unexpected {other:?}"),
    }
    assert_eq!(t.rows.len(), 1);
    assert_eq!(t.rows[0][1], Value::Integer(1), "the first row is kept");
}

#[test]
fn insert_if_absent_duplicate_pk_is_skipped() {
    let (t, r) = run(seed(), "items", ColumnarInsertIntent::Insert, &payload_of("a", 1));
    r.expect("first insert");
    let (_, r) = run(t, "items", ColumnarInsertIntent::InsertIfAbsent, &payload_of("a", 2));
    assert_eq!(r.expect("if absent"), 0);
}

#[test]
fn written_rows_are_answered_under_the_command_tag() {
    let bytes = payload_of("a", 1);
    let p = InsertParams {
        payload: &bytes,
        format: "msgpack",
        intent: ColumnarInsertIntent::Insert,
        on_conflict_updates: &[],
        schema_bytes: &[],
    };
    let (_, r) = ops::insert("items", Some(seed()), &p);
    let (answer, written) = r.expect("insert");
    assert_eq!(answer.command.as_deref(), Some("INSERT"));
    assert_eq!(written, vec![vec![Value::String("a".into()), Value::Integer(1)]]);
    let (after, r) = ops::insert("nope", None, &p);
    assert!(after.is_none());
    assert!(matches!(r, Err(LiteError::BadRequest { .. })));
    let broken = InsertParams { payload: &[0xc1], ..p };
    let (_, r) = ops::insert("items", Some(seed()), &broken);
    assert!(matches!(r, Err(LiteError::Serialization { .. })));
}

#[test]
fn plain_insert_replaces_the_row_of_its_key() {
    let insert = ColumnarInsertIntent::Insert;
    let (t, _) = insert_ok(items(), "items", &params(br#"[{"id":"a","n":1}]"#, insert));
    let (t, _) = insert_ok(t, "items", &params(br#"[{"id":"a","n":2}]"#, insert));
    assert_eq!(t.rows, vec![vec![Value::String("a".into()), Value::Integer(2)]]);
}

#[test]
fn put_with_updates_merges_into_the_stored_row() {
    let (t, _) =
        insert_ok(items(), "items", &params(br#"[{"id":"a","n":1}]"#, ColumnarInsertIntent::Insert));
    let updates = vec![("n".to_string(), UpdateValue::Literal(encoded(Value::Integer(9))))];
    let p = InsertParams {
        payload: br#"[{"id":"a","n":5}]"#,
        format: "json",
        intent: ColumnarInsertIntent::Put,
        on_conflict_updates: &updates,
        schema_bytes: &[],
    };
    let (t, n) = insert_ok(t, "items", &p);
    assert_eq!(n, 1);
    assert_eq!(t.rows, vec![vec![Value::String("a".into()), Value::Integer(9)]]);
}

#[test]
fn expressions_of_a_conflict_are_evaluated() {
    let columns = vec!["id".to_string(), "n".to_string()];
    let updates = vec![("n".to_string(), UpdateValue::Expr(SqlExpr::Literal(Value::Integer(4))))];
    let row = writes::apply_conflict_updates(
        vec![Value::String("a".into()), Value::Integer(1)],
        &[Value::String("a".into()), Value::Integer(2)],
        &updates,
        &columns,
    );
    assert_eq!(row, vec![Value::String("a".into()), Value::Integer(4)]);
    let own = vec![("n".to_string(), UpdateValue::Expr(SqlExpr::Column("n".into())))];
    let row = writes::apply_conflict_updates(
        vec![Value::String("a".into()), Value::Integer(1)],
        &[Value::String("a".into()), Value::Integer(2)],
        &own,
        &columns,
    );
    assert_eq!(row[1], Value::Integer(1), "a column is read from the existing row");
    let excluded =
        vec![("n".to_string(), UpdateValue::Expr(SqlExpr::ExcludedColumn("n".into())))];
    let row = writes::apply_conflict_updates(
        vec![Value::String("a".into()), Value::Integer(1)],
        &[Value::String("a".into()), Value::Integer(2)],
        &excluded,
        &columns,
    );
    assert_eq!(row[1], Value::Integer(2), "the incoming value stands in");
}

#[test]
fn updates_that_cannot_be_evaluated_are_refused() {
    let (t, _) = insert_ok(
        items(),
        "items",
        &params(br#"[{"id":"a","n":1},{"id":"b","n":2}]"#, ColumnarInsertIntent::Insert),
    );
    let expr = SqlExpr::Function {
        name: "nanoid".into(),
        args: vec![SqlExpr::Literal(Value::Integer(0))],
    };
    let updates = vec![("n".to_string(), UpdateValue::Expr(expr))];
    let p = InsertParams {
        payload: br#"[{"id":"c","n":3},{"id":"a","n":9}]"#,
        format: "json",
        intent: ColumnarInsertIntent::Put,
        on_conflict_updates: &updates,
        schema_bytes: &[],
    };
    let (after, r) = ops::insert("items", Some(t), &p);
    let t = after.expect("table");
    match r {
        Err(LiteError::BadRequest { detail }) => {
            assert_eq!(detail, "predicate or expression cannot be evaluated on a row")
        }
        other => panic!("unexpected {other:?}"),
    }
    assert_eq!(t.rows.len(), 3, "the rows before the refused one stay");
    let (after, r) = writes::insert("items", Some(t), &p);
    assert!(matches!(r, Err(LiteError::BadRequest { .. })));
    let mut t = after.expect("table");
    t.rows[0][1] = Value::String("2024-01-01T10:30:00.aééé".into());
    let by_text = equals("n", Value::String("x".into()));
    assert!(matches!(
        edits::update("items", Some(&t), &by_text, &[]),
        Err(LiteError::BadRequest { .. })
    ));
    let rows = t.rows.clone();
    let (after, r) = edits::delete("items", Some(t), &by_text);
    assert!(matches!(r, Err(LiteError::BadRequest { .. })));
    assert_eq!(after.expect("table").rows, rows);
}

#[test]
fn insert_into_a_missing_collection_is_refused() {
    let (after, r) = writes::insert(
        "nope",
        None,
        &params(br#"[{"id":"a"}]"#, ColumnarInsertIntent::Insert),
    );
    assert!(after.is_none());
    match r {
        Err(LiteError::BadRequest { detail }) => {
            assert_eq!(detail, "columnar collection 'nope' does not exist")
        }
        other => panic!("unexpected {other:?}"),
    }
}

#[test]
fn update_changes_the_matching_rows() {
    let (t, _) = insert_ok(
        items(),
        "items",
        &params(br#"[{"id":"a","n":1},{"id":"b","n":2}]"#, ColumnarInsertIntent::Insert),
    );
    let updates = vec![("n".to_string(), encoded(Value::Integer(7)))];
    let filters = equals("id", Value::String("b".into()));
    let (answer, changes) =
        edits::update("items", Some(&t), &filters, &updates).expect("update");
    assert_eq!(answer.rows_affected, 1);
    assert_eq!(
        changes,
        vec![(
            Value::String("b".into()),
            vec![Value::String("b".into()), Value::Integer(7)]
        )]
    );
    assert!(edits::update("items", None, &filters, &updates).is_err());
    match edits::update("items", Some(&t), &[0xc1], &updates) {
        Err(LiteError::Serialization { detail }) => {
            assert!(detail.starts_with("decode update filters: "), "{detail}")
        }
        other => panic!("unexpected {other:?}"),
    }
}

#[test]
fn delete_removes_the_matching_rows() {
    let (t, _) = insert_ok(
        items(),
        "items",
        &params(br#"[{"id":"a","n":1},{"id":"b","n":2}]"#, ColumnarInsertIntent::Insert),
    );
    let filters = equals("n", Value::Integer(1));
    let (after, r) = edits::delete("items", Some(t), &filters);
    assert_eq!(r.expect("delete").rows_affected, 1);
    let after = after.expect("table");
    assert_eq!(after.rows, vec![vec![Value::String("b".into()), Value::Integer(2)]]);
    let (after, r) = edits::delete("items", Some(after), &[]);
    assert_eq!(r.expect("delete all").rows_affected, 1);
    assert!(after.expect("table").rows.is_empty());
}

fn insert_op(payload: &[u8], rls_write_check: Vec<u8>) -> ColumnarOp {
    ColumnarOp::Insert {
        collection: "items".to_string(),
        payload: payload.to_vec(),
        format: "json".to_string(),
        intent: ColumnarInsertIntent::InsertUnique,
        on_conflict_updates: Vec::new(),
        schema_bytes: Vec::new(),
        rls_write_check,
        returning: false,
        rls_filters: Vec::new(),
    }
}

#[test]
fn columnar_operations_run_on_their_table() {
    let payload = br#"[{"id": 1, "n": 5}, {"id": 2, "n": 6}]"#;
    let insert = insert_op(payload, Vec::new());
    let (t, r) = execute::run(&insert, Some(items()));
    match r {
        Ok(ColumnarRun::Inserted { answer, written }) => {
            assert_eq!(answer.rows_affected, 2);
            assert_eq!(written[1], vec![Value::Integer(2), Value::Integer(6)]);
        }
        other => panic!("unexpected {other:?}"),
    }
    let update = ColumnarOp::Update {
        collection: "items".to_string(),
        filters: equals("id", Value::Integer(2)),
        updates: vec![("n".to_string(), encoded(Value::Integer(9)))],
        rls_write_check: Vec::new(),
    };
    let (t, r) = execute::run(&update, t);
    match r {
        Ok(ColumnarRun::Updated { changes, .. }) => assert_eq!(
            changes,
            vec![(Value::Integer(2), vec![Value::Integer(2), Value::Integer(9)])]
        ),
        other => panic!("unexpected {other:?}"),
    }
    let delete = ColumnarOp::Delete {
        collection: "items".to_string(),
        filters: equals("id", Value::Integer(1)),
        rls_write_check: Vec::new(),
    };
    let (t, r) = execute::run(&delete, t);
    assert!(matches!(r, Ok(ColumnarRun::Deleted { answer }) if answer.rows_affected == 1));
    assert_eq!(t.as_ref().map(|t| t.rows.len()), Some(1));
    let scan = ColumnarOp::MaterializeScan {
        collection: "items".to_string(),
        cursor: vec![4],
        count: 10,
        system_as_of_ms: None,
    };
    let (t, r) = execute::run(&scan, t);
    match r {
        Ok(ColumnarRun::Handler(ColumnarHandler::MaterializeScan { cursor, count, .. })) => {
            assert_eq!(cursor, &vec![4]);
            assert_eq!(count, 10);
        }
        other => panic!("unexpected {other:?}"),
    }
    assert_eq!(t.map(|t| t.rows.len()), Some(1));
}

#[test]
fn refused_columnar_operations_change_nothing() {
    let refused = insert_op(br#"{"id": 1}"#, vec![7]);
    let (t, r) = execute::run(&refused, Some(items()));
    assert!(r.is_err());
    assert_eq!(t.map(|t| t.rows.len()), Some(0));
}
