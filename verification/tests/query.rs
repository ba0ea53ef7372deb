use nodedb_lite::dispatch::query::{QueryHandler, QueryOp};
use nodedb_lite::error::LiteError;
use nodedb_lite::expression;
use nodedb_lite::filter;
use nodedb_lite::query::catalog;
use nodedb_lite::query::catalog::{
    CollectionMeta, ColumnDefinition, ColumnKind, EngineType, LocalSchemas, SqlDataType,
    TableSchema,
};
use nodedb_lite::query::engine;
use nodedb_lite::query::engine::{
    Found, ParamValue, Planned, PointRead, RowSink, ScanSource, SqlValue,
};
use nodedb_lite::query::execute;
use nodedb_lite::query::execute::QueryRun;
use nodedb_lite::query::joins;
use nodedb_lite::query::lateral;
use nodedb_lite::query::lateral::LateralShape;
use nodedb_lite::query::qualified;
use nodedb_lite::query::record::Record;
use nodedb_lite::query::sort;
use nodedb_lite::query::sort::{Order, SortKey};
use nodedb_lite::query::widths;
use nodedb_lite::query::widths::{FloatWidth, IntWidth};
use nodedb_lite::timestamp;
use nodedb_lite::value::Datum;
use nodedb_query::expr::SqlExpr;
use nodedb_query::scan_filter::{FilterOp, ScanFilter};
use nodedb_types::collection::CollectionType;
use nodedb_types::collection_config::{PartitionStrategy, PrimaryEngine};
use nodedb_types::columnar::{ColumnDef, ColumnType, StrictSchema};
use nodedb_types::id::DatabaseId;
use nodedb_types::sync::wire::CollectionDescriptor;
use nodedb_types::{KvConfig, Value};

fn row(fields: &[(&str, Value)]) -> Record {
    let mut r = Record::new();
    for (k, v) in fields {
        r.set(k, v.clone());
    }
    r
}

fn definition(name: &str, column_type: ColumnType, key: bool) -> ColumnDefinition {
    ColumnDefinition {
        name: name.to_string(),
        column_type,
        nullable: !key,
        primary_key: key,
        default: None,
    }
}

fn no_schemas<'a>() -> LocalSchemas<'a> {
    LocalSchemas { strict: None, columnar: None, in_store: false }
}

fn gt(field: &str, value: Value) -> ScanFilter {
    ScanFilter { field: field.into(), op: FilterOp::Gt, value, clauses: Vec::new(), expr: None }
}

#[test]
fn the_default_database_qualifies_to_the_bare_name() {
    assert_eq!(qualified::qualify("users").as_str(), "users");
}

#[test]
fn non_equi_condition_evaluates() {
    // Filter: merged row's "price" > "min_price" (from right side).
    let left = row(&[("item", Value::String("apple".into())), ("price", Value::Integer(5))]);
    let right = row(&[("min_price", Value::Integer(3))]);
    let merged = joins::merge_rows(&left, &right);
    let filters = vec![gt("price", Value::Integer(3))];
    assert!(filter::all_match(&filters, &merged.to_object()).expect("verdict"));
}

fn customer(cust_id: i64, region: &str) -> Record {
    row(&[("cust_id", Value::Integer(cust_id)), ("region", Value::String(region.into()))])
}

fn order(order_id: i64, cust_id: i64, amount: i64) -> Record {
    row(&[
        ("order_id", Value::Integer(order_id)),
        ("cust_id", Value::Integer(cust_id)),
        ("amount", Value::Integer(amount)),
    ])
}

fn pairs(first: &str, second: &str) -> Vec<(String, String)> {
    vec![(first.to_string(), second.to_string())]
}

const PLAIN: LateralShape<'static> =
    LateralShape { outer_alias: "", lateral_alias: "", left_join: false };

#[test]
fn test_lateral_loop_correlated_where() {
    let customers = vec![customer(1, "west"), customer(2, "east")];
    let orders = vec![order(1, 1, 100), order(2, 1, 200), order(3, 1, 150), order(4, 2, 300)];
    let all_output = lateral::execute_lateral_loop(
        &customers,
        &orders,
        &[],
        &pairs("cust_id", "cust_id"),
        &PLAIN,
        0,
    )
    .expect("filter evaluation failed");
    // cust 1 → 3 orders; cust 2 → 1 order.
    assert_eq!(all_output.len(), 4);
    // All output rows carry the customer's region.
    assert!(all_output.iter().all(|r| r.get_or_null("region") != Value::Null));
}

#[test]
fn test_outer_row_cap_error_message() {
    let outer_rows: Vec<Record> = (0..5).map(|i| row(&[("id", Value::Integer(i))])).collect();
    let cap = 3usize;
    match lateral::execute_lateral_loop(&outer_rows, &[], &[], &[], &PLAIN, cap) {
        Err(LiteError::Storage { detail }) => assert_eq!(
            detail,
            "lateral loop outer_row_cap=3 exceeded: got 5 outer rows",
            "cap should be exceeded"
        ),
        other => panic!("unexpected {:?}", other.map(|v| v.len())),
    }
}

fn emp(id: i64, dept: i64, salary: i64) -> Record {
    row(&[
        ("emp_id", Value::Integer(id)),
        ("dept_id", Value::Integer(dept)),
        ("salary", Value::Integer(salary)),
    ])
}

fn dept(dept_id: i64, name: &str) -> Record {
    row(&[("dept_id", Value::Integer(dept_id)), ("name", Value::String(name.to_string()))])
}

#[test]
fn test_lateral_top_k_top3_by_salary() {
    let departments = vec![dept(1, "Engineering"), dept(2, "Marketing")];
    let employees = vec![
        emp(1, 1, 90000),
        emp(2, 1, 80000),
        emp(3, 1, 70000),
        emp(4, 1, 60000),
        emp(5, 1, 50000),
        emp(6, 2, 55000),
        emp(7, 2, 45000),
    ];
    let inner_limit = 3usize;
    let all_output = lateral::execute_lateral_top_k(
        &departments,
        &employees,
        &[],
        &pairs("dept_id", "dept_id"),
        &[SortKey::column("salary", false)],
        inner_limit,
        &PLAIN,
    )
    .expect("filter evaluation failed");
    // dept 1: top 3 employees (90k/80k/70k); dept 2: only 2 employees → total 5 rows.
    assert_eq!(all_output.len(), 5);
    // First row (dept 1 top) should be the highest earner.
    assert_eq!(all_output[0].get_or_null("salary"), Value::Integer(90000));
}

#[test]
fn test_sort_rows_ascending_and_descending() {
    let mut rows: Vec<Record> =
        (0..3).map(|i| row(&[("n", Value::Integer([3i64, 1, 2][i]))])).collect();
    sort::sort_rows(&mut rows, &[SortKey::column("n", true)]);
    assert_eq!(rows[0].get_or_null("n"), Value::Integer(1));
    sort::sort_rows(&mut rows, &[SortKey::column("n", false)]);
    assert_eq!(rows[0].get_or_null("n"), Value::Integer(3));
}

#[test]
fn values_compare_by_kind() {
    assert!(matches!(
        sort::compare_values(&Value::Integer(1), &Value::Integer(2)),
        Order::Less
    ));
    assert!(matches!(
        sort::compare_values(&Value::Float(2.5), &Value::Float(0.5)),
        Order::Greater
    ));
    assert!(matches!(
        sort::compare_values(&Value::String("a".into()), &Value::String("a".into())),
        Order::Equal
    ));
}

#[test]
fn left_lateral_rows_without_a_match_are_kept() {
    let customers = vec![customer(1, "west"), customer(9, "north")];
    let orders = vec![order(1, 1, 100)];
    let shape = LateralShape { outer_alias: "c", lateral_alias: "o", left_join: true };
    let out = lateral::execute_lateral_loop(
        &customers,
        &orders,
        &[],
        &pairs("cust_id", "cust_id"),
        &shape,
        0,
    )
    .expect("loop");
    assert_eq!(out.len(), 2);
    assert_eq!(out[0].get_or_null("o.amount"), Value::Integer(100));
    assert_eq!(out[1].get_or_null("c.region"), Value::String("north".into()));
    assert_eq!(out[1].get_or_null("o.amount"), Value::Null);
}

#[test]
fn lateral_joins_pair_their_columns_each_in_its_order() {
    let owners = vec![row(&[("owner", Value::Integer(7))])];
    let pets = vec![row(&[("kept_by", Value::Integer(7))]), row(&[("kept_by", Value::Integer(8))])];
    let looped =
        lateral::execute_lateral_loop(&owners, &pets, &[], &pairs("kept_by", "owner"), &PLAIN, 0)
            .expect("loop");
    assert_eq!(looped.len(), 1);
    let top = lateral::execute_lateral_top_k(
        &owners,
        &pets,
        &[],
        &pairs("owner", "kept_by"),
        &[],
        0,
        &PLAIN,
    )
    .expect("top");
    assert_eq!(top.len(), 1);
    assert_eq!(top[0].get_or_null("kept_by"), Value::Integer(7));
}

#[test]
fn inner_filters_narrow_a_lateral_join() {
    let customers = vec![customer(1, "west")];
    let orders = vec![order(1, 1, 100), order(2, 1, 200)];
    let filters =
        zerompk::to_msgpack_vec(&vec![gt("amount", Value::Integer(150))]).expect("encode");
    let out = lateral::execute_lateral_loop(
        &customers,
        &orders,
        &filters,
        &pairs("cust_id", "cust_id"),
        &PLAIN,
        0,
    )
    .expect("loop");
    assert_eq!(out.len(), 1);
    assert_eq!(out[0].get_or_null("amount"), Value::Integer(200));
}

#[test]
fn joins_keep_what_their_kind_keeps() {
    let lefts = vec![row(&[("a", Value::Integer(1))]), row(&[("a", Value::Integer(5))])];
    let rights = vec![row(&[("b", Value::Integer(9))])];
    let cond = zerompk::to_msgpack_vec(&vec![gt("a", Value::Integer(3))]).expect("encode");
    let n = |join: &str| {
        joins::execute_nested_loop_join(&lefts, &rights, &cond, join, 100).expect("join").len()
    };
    assert_eq!(n("inner"), 1);
    assert_eq!(n("left"), 2);
    assert_eq!(n("semi"), 1);
    assert_eq!(n("anti"), 1);
    assert_eq!(
        joins::execute_nested_loop_join(&lefts, &rights, &[], "inner", 1).expect("join").len(),
        1
    );
    assert!(joins::execute_nested_loop_join(&lefts, &rights, &[0xc1], "inner", 1).is_err());
}

#[test]
fn semi_and_anti_are_the_left_side_and_left_is_inner_and_anti() {
    let lefts: Vec<Record> = (0..4).map(|i| row(&[("a", Value::Integer(i))])).collect();
    let rights = vec![row(&[("b", Value::Integer(9))]), row(&[("b", Value::Integer(8))])];
    let cond = zerompk::to_msgpack_vec(&vec![gt("a", Value::Integer(1))]).expect("encode");
    let of = |join: &str| -> Vec<(Value, Value)> {
        joins::execute_nested_loop_join(&lefts, &rights, &cond, join, 0)
            .expect("join")
            .iter()
            .map(|r| (r.get_or_null("a"), r.get_or_null("b")))
            .collect()
    };
    let mut left_side = of("semi");
    left_side.extend(of("anti"));
    assert_eq!(left_side.len(), lefts.len());
    for r in &lefts {
        assert!(left_side.contains(&(r.get_or_null("a"), Value::Null)));
    }
    let mut parts = of("inner");
    parts.extend(of("anti"));
    let outer = of("left");
    assert_eq!(parts.len(), outer.len());
    assert!(outer.iter().all(|r| parts.contains(r)));
}

#[test]
fn text_and_boolean_keys_sort() {
    let mut rows = vec![
        row(&[("t", Value::String("b".into())), ("f", Value::Bool(true))]),
        row(&[("t", Value::String("a".into())), ("f", Value::Bool(true))]),
        row(&[("t", Value::String("b".into())), ("f", Value::Bool(false))]),
    ];
    sort::sort_rows(&mut rows, &[SortKey::column("t", true), SortKey::column("f", false)]);
    let seen: Vec<(Value, Value)> =
        rows.iter().map(|r| (r.get_or_null("t"), r.get_or_null("f"))).collect();
    assert_eq!(
        seen,
        vec![
            (Value::String("a".into()), Value::Bool(true)),
            (Value::String("b".into()), Value::Bool(true)),
            (Value::String("b".into()), Value::Bool(false)),
        ]
    );
}

#[test]
fn float_keys_sort() {
    let mut rows: Vec<Record> =
        [2.5, -1.0, 0.0, 1e300].iter().map(|f| row(&[("f", Value::Float(*f))])).collect();
    rows.push(row(&[("f", Value::Null)]));
    sort::sort_rows(&mut rows, &[SortKey::column("f", true)]);
    let seen: Vec<Value> = rows.iter().map(|r| r.get_or_null("f")).collect();
    assert_eq!(
        seen,
        vec![
            Value::Float(-1.0),
            Value::Float(0.0),
            Value::Float(2.5),
            Value::Float(1e300),
            Value::Null,
        ]
    );
    assert_eq!(sort::compare_values(&Value::Float(-0.0), &Value::Float(0.0)), Order::Equal);
    assert_eq!(sort::compare_values(&Value::Float(3.0), &Value::Float(2.0)), Order::Greater);
}

#[test]
fn declared_types_name_their_widths() {
    assert_eq!(widths::int_width_of(" SMALLINT"), Some(IntWidth::I16));
    assert_eq!(widths::int_width_of("int(11)"), Some(IntWidth::I32));
    assert_eq!(widths::int_width_of("BIGINT NOT NULL"), Some(IntWidth::I64));
    assert_eq!(widths::int_width_of("Int64"), Some(IntWidth::I64));
    assert_eq!(widths::int_width_of("integers"), None);
    assert_eq!(widths::float_width_of("REAL"), Some(FloatWidth::F32));
    assert_eq!(widths::float_width_of("double precision"), Some(FloatWidth::F64));
    assert_eq!(widths::float_width_of("float"), Some(FloatWidth::F64));
    assert_eq!(widths::float_width_of("float( 24 )"), Some(FloatWidth::F32));
    assert_eq!(widths::float_width_of("FLOAT (25)"), Some(FloatWidth::F64));
    assert_eq!(widths::float_width_of("float(0)"), Some(FloatWidth::F64));
    assert_eq!(widths::float_width_of("text"), None);
    let columns = catalog::columns_from_fields(&[("n".to_string(), "INT".to_string())]);
    assert_eq!(columns[0].int_width, Some(IntWidth::I32));
    assert_eq!(columns[0].float_width, None);
}

const UNREADABLE: &str = "2024-01-01T10:30:00.aééé";

fn chars(s: &str) -> Vec<char> {
    s.chars().collect()
}

#[test]
fn times_that_cannot_be_read_are_told_apart() {
    assert!(!timestamp::is_calm(&chars(UNREADABLE)));
    assert!(!timestamp::is_calm(&chars("  2024-01-01 10:30.12345é Z")));
    assert!(timestamp::is_calm(&chars("2024-01-01T10:30:00.abéé")));
    assert!(timestamp::is_calm(&chars("2024-03-15T10:30:00.123456Z")));
    assert!(timestamp::is_calm(&chars("2024-03-15")));
    assert!(timestamp::is_calm(&chars("2024-01-00")));
    assert!(!timestamp::is_calm(&chars("2024-03-00")));
    assert!(!timestamp::is_calm(&chars("1-4294967295-1 1:1")));
    assert!(timestamp::is_calm(&chars("state-of-art thing. aéééé")));
    assert!(timestamp::is_calm(&chars("wörld")));
    assert!(timestamp::is_calm(&[]));
    for s in ["2024-01-01T10:30:00.abéé", "2024-03-15", "2024-01-00", "1-2-3 4:5.é"] {
        assert!(timestamp::is_calm(&chars(s)));
        let _ = nodedb_types::NdbDateTime::parse(s);
    }
}

fn text(s: &str) -> Value {
    Value::String(s.into())
}

fn unevaluated<T>(r: Result<T, LiteError>) -> bool {
    matches!(r, Err(LiteError::BadRequest { detail })
        if detail == "predicate or expression cannot be evaluated on a row")
}

#[test]
fn rows_that_do_not_answer_are_refused() {
    let bad = vec![row(&[("t", text(UNREADABLE))])];
    let good = vec![row(&[("t", text("x"))])];
    let rights = vec![row(&[("b", Value::Integer(1))])];
    let eq = |field: &str, value: Value, op: FilterOp| {
        let f = ScanFilter { field: field.into(), op, value, ..ScanFilter::default() };
        zerompk::to_msgpack_vec(&vec![f]).expect("encode")
    };
    let cond = eq("t", text("y"), FilterOp::Eq);
    assert!(unevaluated(joins::execute_nested_loop_join(&bad, &rights, &cond, "inner", 0)));
    assert!(joins::execute_nested_loop_join(&good, &rights, &cond, "inner", 0).is_ok());
    let listed = eq("t", Value::Array(vec![text("a"), text(UNREADABLE)]), FilterOp::In);
    assert!(unevaluated(joins::execute_nested_loop_join(&good, &rights, &listed, "inner", 0)));
    let sets = vec![row(&[("t", Value::Set(vec![text(UNREADABLE)]))])];
    let within = eq("t", text("y"), FilterOp::ArrayContains);
    assert!(unevaluated(joins::execute_nested_loop_join(&sets, &rights, &within, "inner", 0)));
    assert!(joins::execute_nested_loop_join(&good, &rights, &within, "inner", 0).is_ok());
    let like = eq("t", text("2024%"), FilterOp::Like);
    assert_eq!(
        joins::execute_nested_loop_join(&bad, &rights, &like, "inner", 0).expect("join").len(),
        1
    );
    let other = eq("b", text("y"), FilterOp::Eq);
    assert!(joins::execute_nested_loop_join(&bad, &rights, &other, "inner", 0).is_ok());
    let column = eq("b", text("t"), FilterOp::EqColumn);
    assert!(unevaluated(joins::execute_nested_loop_join(&bad, &rights, &column, "inner", 0)));
    let grouped = ScanFilter {
        op: FilterOp::Or,
        clauses: vec![vec![ScanFilter {
            field: "t".into(),
            op: FilterOp::Gt,
            value: text("y"),
            ..ScanFilter::default()
        }]],
        ..ScanFilter::default()
    };
    let grouped = zerompk::to_msgpack_vec(&vec![grouped]).expect("encode");
    assert!(unevaluated(joins::execute_nested_loop_join(&bad, &rights, &grouped, "inner", 0)));
    let keys = pairs("t", "t");
    let top = lateral::execute_lateral_top_k(&bad, &good, &[], &keys, &[], 0, &PLAIN);
    assert!(unevaluated(top));
    assert!(unevaluated(lateral::execute_lateral_loop(&good, &bad, &cond, &[], &PLAIN, 0)));
    assert!(lateral::execute_lateral_loop(&good, &good, &cond, &keys, &PLAIN, 0).is_ok());
    let filters = vec![gt("t", text("y"))];
    assert!(unevaluated(filter::all_match(&filters, &bad[0].to_object())));
}

fn call(name: &str, args: Vec<SqlExpr>) -> SqlExpr {
    SqlExpr::Function { name: name.into(), args }
}

fn literal(v: Value) -> SqlExpr {
    SqlExpr::Literal(v)
}

#[test]
fn expressions_answer_where_their_parts_do() {
    let doc = row(&[("t", text(UNREADABLE)), ("n", Value::Integer(0))]).to_object();
    let t = || SqlExpr::Column("t".into());
    assert!(!expression::can_answer(&call("unix_secs", vec![t()]), &doc));
    assert!(expression::can_answer(&call("upper", vec![t()]), &doc));
    let joined = call("concat", vec![literal(text("2024-01-01T1:1.")), literal(text("aééé"))]);
    assert!(expression::can_answer(&joined, &doc));
    assert!(!expression::can_answer(&call("datetime", vec![joined]), &doc));
    assert!(!expression::can_answer(&call("nanoid", vec![SqlExpr::Column("n".into())]), &doc));
    assert!(!expression::can_answer(&call("nanoid", vec![literal(Value::Integer(-4))]), &doc));
    assert!(expression::can_answer(&call("nanoid", vec![literal(Value::Integer(8))]), &doc));
    assert!(expression::can_answer(&call("nanoid", vec![]), &doc));
    let soon = call(
        "date_add",
        vec![call("datetime", vec![call("now", vec![])]), literal(text("1h"))],
    );
    assert!(expression::can_answer(&soon, &doc));
    let case = SqlExpr::Case {
        operand: None,
        when_thens: vec![(literal(Value::Bool(true)), call("unix_secs", vec![t()]))],
        else_expr: None,
    };
    assert!(!expression::can_answer(&case, &doc));
    assert!(!expression::can_answer(&call("geo_from_wkt", vec![t()]), &doc));
    assert!(!expression::can_answer(
        &call("time_bucket", vec![literal(text("999999999y")), literal(Value::Integer(1))]),
        &doc
    ));
    assert!(expression::can_answer(
        &call("time_bucket", vec![literal(text("1h")), literal(Value::Integer(1))]),
        &doc
    ));
    for dashes in ["--9223372036854775808us", " - -9223372036854775808us"] {
        assert!(!expression::can_answer(&call("duration", vec![literal(text(dashes))]), &doc));
    }
    assert!(expression::can_answer(&call("duration", vec![literal(text("-5us"))]), &doc));
    let nested = SqlExpr::Negate(Box::new(call("epoch_secs", vec![t()])));
    assert!(!expression::can_answer(&nested, &doc));
}

#[test]
fn steady_expressions_are_told_apart() {
    assert!(expression::is_steady(&call("upper", vec![SqlExpr::Column("t".into())])));
    assert!(expression::is_steady(&literal(Value::Integer(1))));
    assert!(!expression::is_steady(&call("now", vec![])));
    assert!(!expression::is_steady(&call("concat", vec![call("uuid", vec![])])));
    assert!(!expression::is_steady(&call("json_keys", vec![])));
    let case = SqlExpr::Case {
        operand: Some(Box::new(literal(Value::Null))),
        when_thens: vec![],
        else_expr: Some(Box::new(call("ulid", vec![]))),
    };
    assert!(!expression::is_steady(&case));
}

#[test]
fn incomparable_floats_are_equal() {
    assert_eq!(
        sort::compare_values(&Value::Float(f64::NAN), &Value::Float(1.0)),
        Order::Equal
    );
    assert_eq!(
        sort::compare_values(&Value::Float(1.0), &Value::Float(1.0)),
        Order::Equal
    );
}

#[test]
fn later_side_wins_in_a_merged_row() {
    let merged = joins::merge_rows(
        &row(&[("a", Value::Integer(1)), ("b", Value::Integer(1))]),
        &row(&[("b", Value::Integer(2))]),
    );
    assert_eq!(merged.len(), 2);
    assert_eq!(merged.get_or_null("a"), Value::Integer(1));
    assert_eq!(merged.get_or_null("b"), Value::Integer(2));
}

fn descriptor(name: &str, ct: CollectionType, bitemporal: bool) -> CollectionDescriptor {
    CollectionDescriptor {
        tenant_id: 1,
        database_id: DatabaseId::new(1),
        name: name.into(),
        collection_type: ct,
        bitemporal,
        crdt: false,
        fields: vec![("v".into(), "BIGINT".into())],
        primary: PrimaryEngine::Document,
        vector_primary: None,
        partition_strategy: PartitionStrategy::default(),
        declared_primary_key: None,
        descriptor_version: 1,
    }
}

fn described(kind: &str, desc: &CollectionDescriptor) -> CollectionMeta {
    CollectionMeta {
        collection_type: kind.to_string(),
        fields: desc.fields.clone(),
        bitemporal: desc.bitemporal,
        config_json: None,
        descriptor_json: Some(sonic_rs::to_string(desc).expect("encode")),
    }
}

#[test]
fn synced_strict_surfaces_real_engine_and_bitemporal() {
    let schema = StrictSchema::new(vec![
        ColumnDef::required("id", ColumnType::Int64).with_primary_key(),
        ColumnDef::nullable("name", ColumnType::String),
    ])
    .expect("schema");
    let desc = descriptor("s", CollectionType::strict(schema), true);
    let meta = described("document_strict", &desc);
    let info =
        catalog::get_collection("s", Some(&meta), &no_schemas()).expect("collection surfaced");
    assert!(matches!(info.engine, EngineType::DocumentStrict));
    assert!(info.bitemporal, "bitemporal must be REAL, not hardcoded false");
    assert_eq!(info.primary_key.as_deref(), Some("id"));
    assert_eq!(info.columns.len(), 2);
    assert_eq!(info.columns[0].name, "id");
    let placement = info.placement.expect("placement");
    assert_eq!(placement.primary, PrimaryEngine::Document);
    assert!(placement.vector_primary.is_none());
    assert_eq!(placement.partition_strategy, PartitionStrategy::default());
    assert!(!info.open_schema);
}

#[test]
fn synced_timeseries_surfaces_engine_from_meta() {
    let desc = descriptor("t", CollectionType::timeseries("ts", "1h"), true);
    let meta = described("timeseries", &desc);
    let info =
        catalog::get_collection("t", Some(&meta), &no_schemas()).expect("collection surfaced");
    assert!(matches!(info.engine, EngineType::Columnar));
    assert!(info.bitemporal);
}

#[test]
fn fallback_timeseries_surfaces_real_columns() {
    let schema = TableSchema {
        columns: vec![
            definition("time", ColumnType::Timestamp, false),
            definition("value", ColumnType::Float64, false),
        ],
        bitemporal: false,
    };
    let local = LocalSchemas { strict: None, columnar: Some(&schema), in_store: false };
    let info = catalog::get_collection("metrics", None, &local).expect("collection surfaced");
    assert!(matches!(info.engine, EngineType::Columnar));
    assert_eq!(
        info.columns.len(),
        2,
        "timeseries fallback must surface real engine columns, not empty"
    );
    assert_eq!(info.columns[0].name, "time");
    assert_eq!(info.columns[1].name, "value");
}

fn kv_schema() -> StrictSchema {
    StrictSchema::new(vec![
        ColumnDef::required("k", ColumnType::String).with_primary_key(),
        ColumnDef::nullable("val", ColumnType::Bytes),
    ])
    .expect("schema")
}

#[test]
fn synced_kv_surfaces_engine_and_columns() {
    let desc = descriptor("kvc", CollectionType::kv(kv_schema()), false);
    let meta = described("kv", &desc);
    let info =
        catalog::get_collection("kvc", Some(&meta), &no_schemas()).expect("collection surfaced");
    assert!(matches!(info.engine, EngineType::KeyValue));
    assert_eq!(info.primary_key.as_deref(), Some("k"));
    assert_eq!(info.columns.len(), 2);
}

fn named(kind: &str, config_json: Option<String>, descriptor_json: Option<String>) -> CollectionMeta {
    CollectionMeta {
        collection_type: kind.to_string(),
        fields: vec![("v".into(), "BIGINT".into())],
        bitemporal: false,
        config_json,
        descriptor_json,
    }
}

#[test]
fn stored_configuration_gives_the_columns() {
    let strict = sonic_rs::to_string(&kv_schema()).expect("encode");
    let meta = named("document_strict", Some(strict.clone()), None);
    let info = catalog::info_from_meta("s", &meta, &no_schemas());
    assert_eq!(info.primary_key.as_deref(), Some("k"));
    assert_eq!(info.columns.len(), 2);
    assert!(info.placement.is_none());
    assert!(!info.open_schema);
    let kv = KvConfig { schema: kv_schema(), ttl: None, capacity_hint: 0, inline_threshold: 64 };
    let meta = named("kv", Some(sonic_rs::to_string(&kv).expect("encode")), None);
    let info = catalog::info_from_meta("kvc", &meta, &no_schemas());
    assert!(matches!(info.engine, EngineType::KeyValue));
    assert_eq!(info.columns[1].name, "val");
    assert!(matches!(info.columns[1].data_type, SqlDataType::Bytes));
    let meta = named("kv", Some("not json".to_string()), Some("not json".to_string()));
    let info = catalog::info_from_meta("kvc", &meta, &no_schemas());
    assert_eq!(info.columns.len(), 1, "the fields stand in for what cannot be read");
    assert_eq!(info.columns[0].name, "v");
}

#[test]
fn an_unknown_collection_is_not_surfaced() {
    assert!(catalog::get_collection("nope", None, &no_schemas()).is_none());
    let local = LocalSchemas { strict: None, columnar: None, in_store: true };
    let info = catalog::get_collection("docs", None, &local).expect("stored");
    assert!(matches!(info.engine, EngineType::DocumentSchemaless));
}

#[test]
fn column_types_map_to_query_types() {
    let of = |t: ColumnType| catalog::convert_column_type(catalog::column_kind(&t));
    assert!(matches!(of(ColumnType::Int64), SqlDataType::Int64));
    assert!(matches!(of(ColumnType::Bool), SqlDataType::Bool));
    assert!(matches!(of(ColumnType::Vector(8)), SqlDataType::Vector(8)));
    assert!(matches!(of(ColumnType::Timestamp), SqlDataType::Timestamp));
    let infos = catalog::columns_from_fields(&[("a".to_string(), "INT64".to_string())]);
    assert_eq!(infos.len(), 1);
    assert!(matches!(infos[0].data_type, SqlDataType::Int64));
}

#[test]
fn literals_and_parameters() {
    assert_eq!(engine::sql_value_to_string(&SqlValue::Int(-3)), "-3");
    assert_eq!(engine::sql_value_to_string(&SqlValue::String("x".into())), "x");
    assert_eq!(engine::sql_value_to_string(&SqlValue::Float(Value::Float(1.5))), "1.5");
    assert!(matches!(engine::value_to_param(&Value::Integer(4)), ParamValue::Int64(4)));
    assert!(matches!(
        engine::value_to_param(&Value::Uuid("u".into())),
        ParamValue::Text(t) if t == "u"
    ));
    assert!(matches!(engine::value_to_param(&Value::Bytes(vec![1])), ParamValue::Null));
    let r = engine::execute_constant_result(&["n".to_string()], &[SqlValue::Int(7)]);
    assert_eq!(r.columns, vec!["n".to_string()]);
    assert!(matches!(r.rows[0][0], Datum::Integer(7)));
}

#[test]
fn keys_are_read_by_the_type_of_their_column() {
    assert_eq!(engine::parse_pk_value("42", ColumnKind::Int64), Value::Integer(42));
    assert_eq!(engine::parse_pk_value("x", ColumnKind::Int64), Value::String("x".into()));
    assert_eq!(engine::parse_pk_value("u", ColumnKind::Uuid), Value::Uuid("u".into()));
}

#[test]
fn planning_decides_what_runs() {
    assert!(matches!(engine::after_planning(Ok(0)), Ok(Planned::Nothing)));
    assert!(matches!(engine::after_planning(Ok(2)), Ok(Planned::RunFirst)));
    match engine::after_planning(Err("bad".to_string())) {
        Err(LiteError::Query { detail }) => assert_eq!(detail, "SQL plan: bad"),
        other => panic!("unexpected {other:?}"),
    }
}

#[test]
fn scans_read_the_engine_of_the_collection() {
    let (source, names) =
        engine::scan_source("docs", EngineType::DocumentSchemaless, true, None, None)
            .expect("source");
    assert!(matches!(source, ScanSource::History));
    assert_eq!(names, vec!["id".to_string(), "document".to_string()]);
    match engine::scan_source("t", EngineType::DocumentStrict, false, None, None) {
        Err(LiteError::BadRequest { detail }) => {
            assert_eq!(detail, "strict collection 't' does not exist")
        }
        other => panic!("unexpected {other:?}"),
    }
}

#[test]
fn scan_stops_at_the_limit_and_at_an_error() {
    let one = |i: i64| vec![Value::Integer(i)];
    let mut sink = RowSink { columns: Vec::new(), rows: Vec::new(), limit: Some(2) };
    engine::scan_into(
        &mut sink,
        vec![one(1), one(2), one(3), one(4)],
        vec![Ok(true), Ok(false), Ok(true), Ok(true)],
    )
    .expect("scan");
    assert_eq!(sink.rows, vec![one(1), one(3)]);
    let mut sink = RowSink { columns: Vec::new(), rows: Vec::new(), limit: None };
    let r = engine::scan_into(
        &mut sink,
        vec![one(1), one(2)],
        vec![Ok(true), Err(LiteError::Query { detail: "no".to_string() })],
    );
    assert!(r.is_err());
    assert_eq!(sink.rows, vec![one(1)]);
}

#[test]
fn point_reads_look_up_documents_and_strict_rows() {
    let key = SqlValue::Int(5);
    assert!(matches!(
        engine::point_read("docs", EngineType::DocumentSchemaless, &key, None),
        Ok(PointRead::Document { key }) if key == "5"
    ));
    let schema =
        TableSchema { columns: vec![definition("id", ColumnType::Int64, true)], bitemporal: false };
    match engine::point_read("t", EngineType::DocumentStrict, &key, Some(&schema)) {
        Ok(PointRead::Strict { columns, row_key }) => {
            assert_eq!(columns, vec!["id".to_string()]);
            assert_eq!(row_key, Value::Integer(5));
        }
        other => panic!("unexpected {other:?}"),
    }
    assert!(engine::document_answer("5", None).rows.is_empty());
    assert_eq!(engine::document_answer("5", Some("{}".to_string())).rows.len(), 1);
}

#[test]
fn point_reads_answer_with_what_was_found() {
    let strict = || PointRead::Strict {
        columns: vec!["id".to_string()],
        row_key: Value::Integer(5),
    };
    let hit = engine::execute_point_get(strict(), Found::Row(Some(vec![Datum::Integer(5)])));
    assert_eq!(hit.columns, vec!["id".to_string()]);
    assert!(matches!(hit.rows[0][0], Datum::Integer(5)));
    let miss = engine::execute_point_get(strict(), Found::Row(None));
    assert_eq!(miss.columns, vec!["id".to_string()]);
    assert!(miss.rows.is_empty());
    let document = PointRead::Document { key: "5".to_string() };
    let found = Found::Document(Some("{}".to_string()));
    let hit = engine::execute_point_get(document, found);
    assert_eq!(hit.columns, vec!["id".to_string(), "document".to_string()]);
    assert!(matches!(&hit.rows[0][1], Datum::String(d) if d == "{}"));
    let none = engine::execute_point_get(PointRead::Nothing, Found::Nothing);
    assert!(none.columns.is_empty() && none.rows.is_empty());
}

#[test]
fn column_types_keep_their_text() {
    let (columns, key) = nodedb_lite::query::catalog::columns_from_column_defs(&[
        definition("id", ColumnType::Int64, true),
        definition("v", ColumnType::Vector(3), false),
    ]);
    assert_eq!(key, Some("id".to_string()));
    assert_eq!(columns[0].raw_type, Some("Int64".to_string()));
    assert_eq!(columns[1].raw_type, Some("Vector(3)".to_string()));
}

fn nested(left_rls_filters: Vec<u8>) -> QueryOp {
    QueryOp::NestedLoopJoin {
        left_collection: "a".to_string(),
        right_collection: "b".to_string(),
        condition: Vec::new(),
        join_type: "inner".to_string(),
        limit: 0,
        left_rls_filters,
        right_rls_filters: Vec::new(),
    }
}

#[test]
fn relational_operations_run_on_their_rows() {
    let lefts = vec![row(&[("x", Value::Integer(1))]), row(&[("x", Value::Integer(2))])];
    let rights = vec![row(&[("y", Value::Integer(3))])];
    match execute::run(&nested(Vec::new()), &lefts, &rights) {
        Ok(QueryRun::Rows(rows)) => {
            assert_eq!(rows.len(), 2);
            assert_eq!(rows[1].get_or_null("x"), Value::Integer(2));
            assert_eq!(rows[1].get_or_null("y"), Value::Integer(3));
        }
        other => panic!("unexpected {other:?}"),
    }
    assert!(execute::run(&nested(vec![1]), &lefts, &rights).is_err());
    let op = QueryOp::LateralLoop {
        outer_alias: "o".to_string(),
        inner_collection: "b".to_string(),
        inner_filters: Vec::new(),
        correlation_predicates: pairs("y", "x"),
        lateral_alias: "i".to_string(),
        left_join: true,
        outer_row_cap: 0,
    };
    match execute::run(&op, &lefts, &[row(&[("y", Value::Integer(2))])]) {
        Ok(QueryRun::Rows(rows)) => {
            assert_eq!(rows.len(), 2);
            assert_eq!(rows[0].get_or_null("i.y"), Value::Null);
            assert_eq!(rows[1].get_or_null("i.y"), Value::Integer(2));
        }
        other => panic!("unexpected {other:?}"),
    }
    let op = QueryOp::LateralTopK {
        outer_alias: "o".to_string(),
        inner_collection: "b".to_string(),
        inner_filters: Vec::new(),
        inner_order_by: vec![SortKey::column("z", false)],
        inner_limit: 1,
        correlation_keys: pairs("x", "y"),
        lateral_alias: "i".to_string(),
        left_join: false,
    };
    let inners = vec![
        row(&[("y", Value::Integer(2)), ("z", Value::Integer(5))]),
        row(&[("y", Value::Integer(2)), ("z", Value::Integer(6))]),
    ];
    match execute::run(&op, &lefts, &inners) {
        Ok(QueryRun::Rows(rows)) => {
            assert_eq!(rows.len(), 1);
            assert_eq!(rows[0].get_or_null("i.z"), Value::Integer(6));
        }
        other => panic!("unexpected {other:?}"),
    }
    let facets = QueryOp::FacetCounts {
        collection: "c".to_string(),
        filters: Vec::new(),
        fields: vec!["tag".to_string()],
        limit_per_facet: 3,
    };
    match execute::run(&facets, &[], &[]) {
        Ok(QueryRun::Handler(QueryHandler::FacetCounts { fields, limit_per_facet, .. })) => {
            assert_eq!(fields, &vec!["tag".to_string()]);
            assert_eq!(limit_per_facet, 3);
        }
        other => panic!("unexpected {other:?}"),
    }
}
