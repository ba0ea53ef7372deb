use nodedb_lite::error::LiteError;
use nodedb_lite::health::PressureLevel;
use nodedb_lite::steps::Step;
use nodedb_lite::vector::plan;
use nodedb_lite::vector::plan::DistanceMetric;
use nodedb_lite::vector::search;
use nodedb_lite::vector::state;
use nodedb_lite::vector::state::{IdEntry, VectorState};
use nodedb_lite::vector::writes;
use nodedb_lite::vector::writes::VectorPut;
use nodedb_types::vector_dtype::VectorStorageDtype;
use nodedb_types::{Value, VectorQuantization};

const COLLECTION: &str = "vp";
const FIELD: &str = "vec";

fn empty() -> VectorState {
    VectorState { buckets: Vec::new(), ids: Vec::new(), sidecars: Vec::new() }
}

fn live_nodes(s: &VectorState, index: &str) -> usize {
    match s.buckets.iter().find(|b| b.key == index) {
        Some(b) => b.deleted.iter().filter(|d| !**d).count(),
        None => 0,
    }
}

#[test]
fn truncate_removes_rows_durable_vectors_and_resets_the_index() {
    let key = state::index_key(COLLECTION, FIELD);
    assert_eq!(key, "vp:vec");
    let mut s = empty();
    for id in ["a", "b", "c"] {
        s.insert_node(&key, id, 2);
    }
    assert_eq!(live_nodes(&s, &key), 3);
    let rows = vec!["a".to_string(), "b".to_string(), "c".to_string()];
    let r = writes::vector_direct_truncate(&mut s, COLLECTION, FIELD, &rows, &["orphan".to_string()]);
    assert_eq!(r.result.rows_affected, 0);
    assert_eq!(r.result.command.as_deref(), Some("TRUNCATE"));
    assert_eq!(live_nodes(&s, &key), 0);
    let bucket = s.buckets.iter().find(|b| b.key == key).expect("bucket stays registered");
    assert_eq!(bucket.deleted.len(), 0, "tombstones are gone, not just hidden");
    assert_eq!(bucket.dim, 2, "dimension is kept");
    assert!(s.ids.iter().all(|e| !e.key.starts_with("vp:vec:")));
    let rows_gone = r.steps.iter().filter(|x| matches!(x, Step::DeleteRow { .. })).count();
    let vectors_gone = r.steps.iter().filter(|x| matches!(x, Step::RemoveVector { .. })).count();
    assert_eq!(rows_gone, 3);
    assert_eq!(vectors_gone, 4, "a stored vector without a row goes too");
    assert!(r.steps.iter().any(|x| matches!(x, Step::ClearUnloadable { index } if *index == key)));
    s.insert_node(&key, "d", 2);
    assert_eq!(live_nodes(&s, &key), 1);
}

#[test]
fn clear_collection_indexes_covers_base_and_named_buckets_only() {
    let mut s = empty();
    s.insert_node("docs", "a", 2);
    s.insert_node("docs:emb", "a", 2);
    s.insert_node("docs2", "z", 2);
    let live: Vec<String> = s.buckets.iter().map(|b| b.key.clone()).collect();
    let keys = search::collection_indexes("docs", &live, &[]);
    assert_eq!(keys, vec!["docs".to_string(), "docs:emb".to_string()]);
    let durable = ["a".to_string(), "emb:a".to_string()];
    let steps = writes::clear_collection_indexes(&mut s, "docs", &[], &durable);
    assert_eq!(steps.len(), 6);
    assert!(matches!(&steps[0], Step::RemoveVector { index, id } if index == "docs" && id == "a"));
    assert!(matches!(&steps[1], Step::RemoveVector { id, .. } if id == "emb:a"));
    assert!(matches!(&steps[2], Step::ClearUnloadable { index } if index == "docs"));
    assert!(matches!(&steps[3], Step::DropCheckpoint { index } if index == "docs"));
    assert!(matches!(&steps[4], Step::ClearUnloadable { index } if index == "docs:emb"));
    assert!(matches!(&steps[5], Step::DropCheckpoint { index } if index == "docs:emb"));
    assert_eq!(live_nodes(&s, "docs"), 0);
    assert_eq!(live_nodes(&s, "docs:emb"), 0);
    assert_eq!(live_nodes(&s, "docs2"), 1, "a collection sharing the prefix is untouched");
}

#[test]
fn truncate_of_an_empty_collection_is_the_bare_tag() {
    let mut s = empty();
    let r = writes::vector_direct_truncate(&mut s, COLLECTION, FIELD, &[], &[]);
    assert_eq!(r.result.command.as_deref(), Some("TRUNCATE"));
    assert_eq!(live_nodes(&s, "vp:vec"), 0);
}

#[test]
fn an_index_without_a_field_is_its_collection() {
    assert_eq!(state::index_key("docs", ""), "docs");
    assert_eq!(state::index_key("docs", "emb"), "docs:emb");
}

#[test]
fn replaced_node_is_the_live_one() {
    let mut s = empty();
    let first = s.insert_node("docs", "a", 3);
    assert_eq!(state::live_node(&s, "docs", "a"), Some(first));
    let second = s.replace_node("docs", "a", 3);
    assert_ne!(first, second);
    assert_eq!(state::live_node(&s, "docs", "a"), Some(second));
    assert_eq!(live_nodes(&s, "docs"), 1);
    assert!(state::remove_live_node(&mut s, "docs", "a"));
    assert_eq!(state::live_node(&s, "docs", "a"), None);
    assert!(!state::remove_live_node(&mut s, "docs", "a"));
}

#[test]
fn surrogates_name_rows_without_a_key() {
    assert_eq!(plan::surrogate_string(12), "sur:12");
    assert_eq!(plan::doc_id_for(b"k1", 12).expect("text"), "k1");
    assert_eq!(plan::doc_id_for(b"", 12).expect("number"), "sur:12");
    assert!(plan::doc_id_for(&[0xff], 12).is_err());
}

#[test]
fn metrics_are_named_in_any_case() {
    assert!(matches!(plan::parse_metric("COSINE"), Ok(DistanceMetric::Cosine)));
    assert!(matches!(plan::parse_metric("L2"), Ok(DistanceMetric::L2)));
    match plan::parse_metric("nonsense") {
        Err(LiteError::BadRequest { detail }) => assert!(detail.contains("nonsense"), "{detail}"),
        other => panic!("unexpected {other:?}"),
    }
}

#[test]
fn payload_of_a_vector_is_an_object_or_nothing() {
    assert!(plan::decode_payload(&[]).expect("empty").is_empty());
    let mut map = std::collections::HashMap::new();
    map.insert("a".to_string(), Value::Integer(1));
    let bytes = zerompk::to_msgpack_vec(&map).expect("encode");
    match plan::decode_payload(&bytes) {
        Ok(fields) => assert_eq!(fields, vec![("a".to_string(), Value::Integer(1))]),
        Err(e) => panic!("unexpected {e:?}"),
    }
}

#[test]
fn vector_writes_are_durable_before_the_index() {
    let p = plan::vector_insert("docs", "emb", "a", 4);
    let durable = p.steps.iter().position(|s| matches!(s, Step::PutVector { .. }));
    let indexed = p
        .steps
        .iter()
        .position(|s| matches!(s, Step::InsertNode { .. } | Step::ReplaceNode { .. }));
    match (durable, indexed) {
        (Some(d), Some(i)) => assert!(d < i),
        other => panic!("unexpected {other:?}"),
    }
}

#[test]
fn inserts_are_refused_under_critical_pressure() {
    let put = VectorPut {
        collection: "docs",
        id: "a",
        dim: 2,
        metadata: &[],
        pressure: PressureLevel::Critical,
        outbound: false,
    };
    match writes::insert_vector(&put) {
        Err(LiteError::Backpressure { detail }) => assert!(!detail.is_empty()),
        other => panic!("unexpected {other:?}"),
    }
}

#[test]
fn an_empty_field_is_the_base_index() {
    let put = VectorPut {
        collection: "docs",
        id: "a",
        dim: 2,
        metadata: &[("tag".to_string(), Value::Bool(true))],
        pressure: PressureLevel::Normal,
        outbound: true,
    };
    let base = writes::insert_vector(&put).expect("base");
    let named = writes::insert_vector_field(&put, "").expect("named");
    assert_eq!(format!("{base:?}"), format!("{named:?}"));
    let other = writes::insert_vector_field(&put, "emb").expect("field");
    assert_ne!(format!("{base:?}"), format!("{other:?}"));
}

#[test]
fn prefilter_holds_the_allowed_documents_of_the_index() {
    let entry = |key: &str, doc: &str, slot: u32| IdEntry {
        key: key.to_string(),
        doc_id: doc.to_string(),
        slot,
    };
    let ids = vec![entry("docs:0", "a", 0), entry("docs:1", "b", 1), entry("else:7", "a", 7)];
    assert!(search::search_prefilter(&ids, "docs", None).is_none());
    let allowed = vec!["a".to_string()];
    let bitmap = search::search_prefilter(&ids, "docs", Some(&allowed)).expect("bitmap");
    assert!(bitmap.contains(0));
    assert_eq!(bitmap.len(), 1);
    let ids = vec![entry("docs:0", "b", 0), entry("docs2:0", "a", 0), entry("docs:emb:1", "a", 1)];
    let bitmap = search::search_prefilter(&ids, "docs", Some(&allowed)).expect("bitmap");
    assert!(bitmap.is_empty(), "the slots of other indexes are not those of this one");
}

#[test]
fn deleting_a_vector_takes_the_slot_of_its_own_index() {
    let mut s = empty();
    s.insert_node("else", "d", 2);
    s.insert_node("docs", "a", 2);
    let slot = s.insert_node("docs", "d", 2);
    assert_eq!(slot, 1);
    let steps = writes::delete_vector(&s, "docs", "d", false);
    assert!(matches!(&steps[1], Step::DeleteNode { index, slot: 1 } if index == "docs"));
    let steps = writes::delete_vector(&s, "docs", "b", false);
    assert!(!steps.iter().any(|x| matches!(x, Step::DeleteNode { .. })));
    match plan::vector_delete_by_id(&s, "docs", 0) {
        Ok(p) => {
            assert!(matches!(&p.steps[1], Step::DeleteRow { id, .. } if id == "a"))
        }
        other => panic!("unexpected {other:?}"),
    }
}

#[test]
fn a_slot_that_another_index_binds_is_found_last() {
    let mut s = empty();
    s.insert_node("else", "x", 2);
    s.insert_node("else", "y", 2);
    match plan::vector_delete_by_id(&s, "docs", 1) {
        Ok(p) => {
            assert!(matches!(&p.steps[0], Step::DeleteNode { index, slot: 1 } if index == "docs"));
            assert!(matches!(&p.steps[1], Step::DeleteRow { id, .. } if id == "y"));
        }
        other => panic!("unexpected {other:?}"),
    }
    s.insert_node("docs", "a", 2);
    s.insert_node("docs", "b", 2);
    match plan::vector_delete_by_id(&s, "docs", 1) {
        Ok(p) => assert!(matches!(&p.steps[1], Step::DeleteRow { id, .. } if id == "b")),
        other => panic!("unexpected {other:?}"),
    }
    s.insert_node("else", "sur:3", 2);
    let p = plan::vector_delete_by_surrogate(&s, "docs", 3, "emb");
    assert!(matches!(&p.steps[0], Step::DeleteNode { index, slot: 2 } if index == "docs:emb"));
    s.insert_node("docs:emb", "sur:3", 2);
    let p = plan::vector_delete_by_surrogate(&s, "docs", 3, "emb");
    assert!(matches!(&p.steps[0], Step::DeleteNode { index, slot: 0 } if index == "docs:emb"));
}

#[test]
fn first_upsert_registers_the_shape_of_the_index() {
    let p = plan::vector_direct_upsert(
        "docs",
        "emb",
        "d",
        3,
        false,
        VectorQuantization::default(),
        VectorStorageDtype::F32,
    );
    match &p.steps[0] {
        Step::RegisterIndex { index, field, dim, quantization, storage_dtype } => {
            assert_eq!(index, "docs:emb");
            assert_eq!(field, "emb");
            assert_eq!(*dim, 3);
            assert_eq!(*quantization, VectorQuantization::default());
            assert_eq!(*storage_dtype, VectorStorageDtype::F32);
        }
        other => panic!("unexpected {other:?}"),
    }
    let p = plan::vector_direct_upsert(
        "docs",
        "emb",
        "d",
        3,
        true,
        VectorQuantization::default(),
        VectorStorageDtype::F32,
    );
    assert!(!p.steps.iter().any(|s| matches!(s, Step::RegisterIndex { .. })));
}

#[test]
fn keys_of_the_state_stay_distinct() {
    let mut s = empty();
    for id in ["a", "b", "a", "c", "b"] {
        s.insert_node("docs", id, 2);
        s.replace_node("other", id, 2);
    }
    s.bind("docs", "z", 1);
    state::remove_live_node(&mut s, "docs", "c");
    s.reset_index("other");
    s.insert_node("other", "a", 2);
    let mut keys: Vec<&str> = s.ids.iter().map(|e| e.key.as_str()).collect();
    keys.sort();
    let n = keys.len();
    keys.dedup();
    assert_eq!(keys.len(), n);
    assert_eq!(s.buckets.iter().filter(|b| b.key == "docs").count(), 1);
    assert_eq!(s.buckets.iter().filter(|b| b.key == "other").count(), 1);
}

#[test]
fn deleting_by_number_removes_the_row_and_its_node() {
    let s = empty();
    let p = plan::vector_delete_by_surrogate(&s, "docs", 3, "emb");
    assert_eq!(p.result.rows_affected, 1);
    assert_eq!(p.steps.len(), 1);
    assert!(matches!(&p.steps[0], Step::DeleteRow { id, .. } if id == "sur:3"));
    let mut s = empty();
    let slot = s.insert_node("docs:emb", "sur:3", 2);
    let p = plan::vector_delete_by_surrogate(&s, "docs", 3, "emb");
    assert_eq!(p.steps.len(), 2);
    match &p.steps[0] {
        Step::DeleteNode { index, slot: found } => {
            assert_eq!(index, "docs:emb");
            assert_eq!(*found, slot);
        }
        other => panic!("unexpected {other:?}"),
    }
}

#[test]
fn deleting_an_unknown_vector_is_refused() {
    let s = empty();
    match plan::vector_delete_by_id(&s, "docs", 4) {
        Err(LiteError::BadRequest { detail }) => {
            assert_eq!(detail, "Delete: vector_id 4 not found in collection 'docs'")
        }
        other => panic!("unexpected {other:?}"),
    }
}

#[test]
fn dropped_index_is_gone() {
    let mut s = empty();
    s.insert_node("docs", "a", 2);
    let p = writes::vector_drop_index(&mut s, "docs", &["a".to_string()]);
    assert!(s.buckets.iter().all(|b| b.key != "docs"));
    assert!(p.steps.iter().any(|x| matches!(x, Step::RemoveVector { .. })));
    assert!(matches!(&p.steps[0], Step::UnregisterIndex { index } if index == "docs"));
    assert!(matches!(&p.steps[1], Step::DropCheckpoint { index } if index == "docs"));
}

#[test]
fn a_second_insert_keeps_the_number_of_live_slots() {
    let mut s = empty();
    s.replace_node("docs", "a", 2);
    s.sidecars.push(state::Sidecar { key: "docs".to_string(), slots: vec![0] });
    let first = s.replace_node("docs", "b", 2);
    assert_eq!(live_nodes(&s, "docs"), 2);
    let second = s.replace_node("docs", "b", 2);
    assert_ne!(first, second);
    assert_eq!(live_nodes(&s, "docs"), 2);
    assert_eq!(s.slot_of("docs", "b"), Some(second));
    assert_eq!(s.ids.iter().filter(|e| e.doc_id == "b").count(), 1);
    assert!(!s.sidecars[0].slots.contains(&first));
    assert!(s.sidecars[0].slots.contains(&second));
}
