use nodedb_lite::document::batch;
use nodedb_lite::document::batch::BatchItem;
use nodedb_lite::document::plan;
use nodedb_lite::document::plan::{DocumentPut, ReadFrom, VectorPart};
use nodedb_lite::error::LiteError;
use nodedb_lite::health::PressureLevel;
use nodedb_lite::query::engine;
use nodedb_lite::render;
use nodedb_lite::steps::Step;
use nodedb_types::Value;
use std::collections::HashMap;

fn put<'a>(fields: &'a [(String, Value)], bitemporal: bool, sync: bool) -> DocumentPut<'a> {
    DocumentPut {
        collection: "docs",
        id: "d1",
        fields,
        pressure: PressureLevel::Normal,
        sync,
        bitemporal,
        system_ms: 100,
        wall_ms: 200,
    }
}

fn body(fields: Vec<(&str, Value)>) -> Vec<u8> {
    let map: HashMap<String, Value> =
        fields.into_iter().map(|(k, v)| (k.to_string(), v)).collect();
    nodedb_types::json_msgpack::value_to_msgpack(&Value::Object(map)).expect("encode")
}

#[test]
fn given_identifiers_are_kept_and_missing_ones_are_made() {
    assert_eq!(plan::resolve_doc_id("d1"), "d1");
    let a = plan::resolve_doc_id("");
    let b = plan::resolve_doc_id("");
    assert_eq!(a.len(), 36);
    assert_ne!(a, b);
}

#[test]
fn put_of_a_plain_document_upserts_and_indexes() {
    let fields = vec![("a".to_string(), Value::Integer(1))];
    let steps = plan::document_put(&put(&fields, false, true)).expect("put");
    assert_eq!(steps.len(), 2);
    match &steps[0] {
        Step::UpsertRows { rows } => {
            assert_eq!(rows.len(), 1);
            assert_eq!(rows[0].collection, "docs");
            assert_eq!(rows[0].id, "d1");
            assert_eq!(rows[0].fields, fields);
        }
        other => panic!("unexpected {other:?}"),
    }
    assert!(matches!(&steps[1], Step::IndexText { fields: f, .. } if *f == fields));
}

#[test]
fn the_history_holds_the_document() {
    let fields = vec![("title".to_string(), Value::String("t".into()))];
    let steps = plan::document_put(&put(&fields, true, true)).expect("put");
    assert!(matches!(&steps[0], Step::UpsertRows { rows } if rows[0].fields == fields));
    assert!(matches!(&steps[1], Step::AppendVersion { fields: f, .. } if *f == fields));
    assert!(matches!(&steps[2], Step::IndexText { fields: f, .. } if *f == fields));
}

#[test]
fn local_documents_stay_out_of_the_queue() {
    let steps = plan::document_put(&put(&[], false, false)).expect("put");
    assert!(steps.iter().any(|s| matches!(s, Step::DropPending)));
    assert!(steps.iter().any(|s| matches!(s, Step::IndexText { sync: false, .. })));
}

#[test]
fn bitemporal_put_appends_a_version() {
    let steps = plan::document_put(&put(&[], true, true)).expect("put");
    match &steps[1] {
        Step::AppendVersion { system_ms, valid_from_ms, valid_until_ms, .. } => {
            assert_eq!(*system_ms, 100);
            assert_eq!(*valid_from_ms, Some(200));
            assert_eq!(*valid_until_ms, None);
        }
        other => panic!("unexpected {other:?}"),
    }
}

#[test]
fn put_is_refused_under_critical_pressure() {
    let mut p = put(&[], false, true);
    p.pressure = PressureLevel::Critical;
    match plan::document_put(&p) {
        Err(LiteError::Backpressure { detail }) => {
            assert_eq!(detail, "document put rejected: memory governor is at Critical pressure")
        }
        other => panic!("unexpected {other:?}"),
    }
}

#[test]
fn vector_of_a_document_is_durable_before_it_is_indexed() {
    let v = VectorPart { collection: "vecs", id: "d1", dim: 3, outbound: true };
    let steps = plan::document_put_with_vector(&put(&[], false, true), &v);
    let durable = steps.iter().position(|s| matches!(s, Step::PutVector { .. })).expect("put");
    let node = steps.iter().position(|s| matches!(s, Step::InsertNode { .. })).expect("node");
    assert!(durable < node);
    match &steps[0] {
        Step::UpsertRows { rows } => {
            assert_eq!(rows.len(), 2);
            assert_eq!(rows[1].fields, vec![("embedding_dim".to_string(), Value::Integer(3))]);
        }
        other => panic!("unexpected {other:?}"),
    }
}

#[test]
fn batch_writes_one_row_for_each_document() {
    let item = |id: &'static str, embedding: Option<usize>| BatchItem {
        doc_collection: "docs",
        doc_id: id,
        fields: &[],
        vector_collection: "vecs",
        id,
        embedding,
        sync: true,
        bitemporal: false,
    };
    let items = vec![item("a", Some(2)), item("b", None)];
    let (steps, ids) =
        batch::document_put_with_vector_batch_impl(&items, PressureLevel::Normal, 5, false)
            .expect("batch");
    assert_eq!(ids, vec!["a".to_string(), "b".to_string()]);
    match &steps[0] {
        Step::UpsertRows { rows } => assert_eq!(rows.len(), 3),
        other => panic!("unexpected {other:?}"),
    }
    assert!(
        batch::document_put_with_vector_batch_impl(&items, PressureLevel::Critical, 5, false)
            .is_err()
    );
}

#[test]
fn batch_keeps_local_items_out_of_the_queues() {
    let item = |id: &'static str, sync: bool| BatchItem {
        doc_collection: "docs",
        doc_id: id,
        fields: &[],
        vector_collection: "vecs",
        id,
        embedding: Some(2),
        sync,
        bitemporal: false,
    };
    let items = vec![item("a", true), item("b", false)];
    let (steps, _) =
        batch::document_put_with_vector_batch_impl(&items, PressureLevel::Normal, 5, true)
            .expect("batch");
    assert!(matches!(&steps[1], Step::DropPendingRows { places } if *places == vec![2, 3]));
    let queued: Vec<&String> = steps
        .iter()
        .filter_map(|s| match s {
            Step::EnqueueInsert { id, .. } => Some(id),
            _ => None,
        })
        .collect();
    assert_eq!(queued, vec!["a"]);
    assert!(steps.iter().any(|s| matches!(s, Step::IndexText { id, sync: false, .. } if id == "b")));
    assert!(steps.iter().any(|s| matches!(s, Step::IndexText { id, sync: true, .. } if id == "a")));
    let indexed = steps.iter().filter(|s| matches!(s, Step::InsertNode { .. })).count();
    assert_eq!(indexed, 2, "a local item is searchable all the same");
}

#[test]
fn batch_gives_a_document_without_an_identifier_a_fresh_one() {
    let items = vec![BatchItem {
        doc_collection: "docs",
        doc_id: "",
        fields: &[],
        vector_collection: "vecs",
        id: "v",
        embedding: None,
        sync: true,
        bitemporal: false,
    }];
    let (steps, ids) =
        batch::document_put_with_vector_batch_impl(&items, PressureLevel::Normal, 5, false)
            .expect("batch");
    assert_eq!(ids[0].len(), 36);
    assert!(matches!(&steps[0], Step::UpsertRows { rows } if rows[0].id == ids[0]));
    assert!(matches!(&steps[1], Step::IndexText { id, .. } if *id == ids[0]));
}

#[test]
fn local_versions_with_valid_times_stay_out_of_the_queue() {
    let steps =
        plan::document_put_with_valid_time(&put(&[], true, false), Some(1), None).expect("put");
    assert!(matches!(&steps[1], Step::DropPending));
    let steps =
        plan::document_put_with_valid_time(&put(&[], true, true), Some(1), None).expect("put");
    assert!(!steps.iter().any(|s| matches!(s, Step::DropPending)));
}

#[test]
fn bitemporal_delete_appends_a_tombstone() {
    let steps = plan::document_delete("docs", "d1", true, 5, 6);
    assert!(steps.iter().any(|s| matches!(s, Step::AppendTombstone { system_ms: 5, .. })));
    let steps = plan::document_delete("docs", "d1", false, 5, 6);
    assert!(!steps.iter().any(|s| matches!(s, Step::AppendTombstone { .. })));
}

#[test]
fn reads_of_a_bitemporal_collection_go_to_the_history() {
    assert!(matches!(plan::document_get(true), ReadFrom::CurrentVersion));
    assert!(matches!(plan::document_get(false), ReadFrom::Store));
    let at = plan::document_get_as_of(true, Some(7), None).expect("as of");
    assert_eq!(at.system_ms, 7);
    let at = plan::document_get_as_of(true, None, Some(3)).expect("as of");
    assert_eq!((at.system_ms, at.valid_ms), (i64::MAX, Some(3)));
    assert!(plan::document_get_as_of(false, Some(7), None).is_err());
    assert!(
        plan::document_put_with_valid_time(&put(&[], false, true), Some(1), None).is_err()
    );
}

#[test]
fn stored_version_with_an_inner_object_is_read_back() {
    let mut inner = HashMap::new();
    inner.insert("b".to_string(), Value::Integer(130));
    let bytes = body(vec![("a", Value::Object(inner.clone())), ("n", Value::Integer(130))]);
    let mut d = plan::decoded_version_to_document("d1", &bytes);
    d.fields.sort_by(|x, y| x.0.cmp(&y.0));
    assert_eq!(
        d.fields,
        vec![("a".to_string(), Value::Object(inner)), ("n".to_string(), Value::Integer(130))]
    );
    assert_eq!(plan::stored_document_text(&bytes), r#"{"a":{"b":130},"n":130}"#);
    let row = engine::history_row("d1", &bytes);
    assert_eq!(row[1], Value::String(r#"{"a":{"b":130},"n":130}"#.into()));
}

#[test]
fn stored_version_is_read_with_its_fields() {
    let d = plan::decoded_version_to_document("d1", &body(vec![("a", Value::Integer(7))]));
    assert_eq!(d.id, "d1");
    assert_eq!(d.fields, vec![("a".to_string(), Value::Integer(7))]);
    assert!(plan::decoded_version_to_document("d1", &[]).fields.is_empty());
    assert!(plan::decoded_version_to_document("d1", &[0xc1]).fields.is_empty());
}

#[test]
fn stored_version_is_shown_as_json_text() {
    let bytes = body(vec![("a", Value::Integer(7)), ("b", Value::String("x".into()))]);
    assert_eq!(plan::stored_document_text(&bytes), r#"{"a":7,"b":"x"}"#);
    assert_eq!(plan::stored_document_text(&[]), "{}");
    assert_eq!(plan::stored_document_text(&[0xc1]), "{}");
    let row = engine::history_row("d1", &bytes);
    assert_eq!(row[0], Value::String("d1".into()));
    assert_eq!(row[1], Value::String(r#"{"a":7,"b":"x"}"#.into()));
}

#[test]
fn values_become_json_all_the_way_down() {
    let mut inner = HashMap::new();
    inner.insert("f".to_string(), Value::Float(1.5));
    inner.insert("n".to_string(), Value::Null);
    let v = Value::Array(vec![Value::Bool(true), Value::Object(inner), Value::Bytes(vec![1])]);
    let mut object = serde_json::Map::new();
    object.insert("f".to_string(), serde_json::Value::from(1.5));
    object.insert("n".to_string(), serde_json::Value::Null);
    let wanted = serde_json::Value::Array(vec![
        serde_json::Value::Bool(true),
        serde_json::Value::Object(object),
        serde_json::Value::Null,
    ]);
    assert_eq!(render::value_to_serde_json(v), wanted);
    let text = render::document_text(Some(vec![("k".to_string(), Value::Integer(-1))]));
    assert_eq!(text, r#"{"k":-1}"#);
    assert_eq!(render::document_text(None), "{}");
}
