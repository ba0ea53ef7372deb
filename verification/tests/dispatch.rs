use nodedb_lite::columnar::writes::ColumnarInsertIntent;
use nodedb_lite::dispatch::cluster;
use nodedb_lite::dispatch::columnar;
use nodedb_lite::dispatch::columnar::{ColumnarHandler, ColumnarOp};
use nodedb_lite::dispatch::crdt;
use nodedb_lite::dispatch::crdt::{CrdtHandler, CrdtOp};
use nodedb_lite::dispatch::document;
use nodedb_lite::dispatch::document::{DocumentHandler, DocumentOp};
use nodedb_lite::dispatch::gate::SystemTimeScope;
use nodedb_lite::dispatch::graph;
use nodedb_lite::dispatch::graph::{Direction, GraphHandler, GraphOp};
use nodedb_lite::dispatch::kv;
use nodedb_lite::dispatch::kv::{KvHandler, KvOp};
use nodedb_lite::dispatch::meta;
use nodedb_lite::dispatch::meta::{MetaHandler, MetaOp};
use nodedb_lite::dispatch::query;
use nodedb_lite::dispatch::query::{QueryHandler, QueryOp};
use nodedb_lite::dispatch::spatial;
use nodedb_lite::dispatch::spatial::{SpatialHandler, SpatialOp, SpatialPredicate};
use nodedb_lite::dispatch::timeseries;
use nodedb_lite::dispatch::timeseries::{TimeseriesHandler, TimeseriesOp};
use nodedb_lite::error::LiteError;
use nodedb_lite::open;
use nodedb_lite::open::{OpenConfig, RestoredIndexes, TaskKind, TaskRegistry};
use nodedb_lite::persist::queue::DeltaQueue;
use nodedb_lite::policy;
use nodedb_lite::policy::{RlsWriteCheck, WriteGateDecision};
use nodedb_lite::query::sort::SortKey;
use nodedb_lite::storage::WriteOp;
use nodedb_lite::sync;
use nodedb_lite::sync::{
    CompensationHint, MetaRead, MetaSource, PolicyResolution, RejectAction, RemoteRow,
};
use nodedb_types::Value;
use std::collections::HashMap;

fn unsupported(e: LiteError) -> String {
    match e {
        LiteError::Unsupported { detail } => detail,
        other => panic!("unexpected {other:?}"),
    }
}

#[test]
fn writes_without_a_policy_pass() {
    let put = |rls: Vec<u8>, returning: bool| KvOp::Put {
        collection: "c".to_string(),
        key: Vec::new(),
        value: Vec::new(),
        ttl_ms: 0,
        returning,
        rls_filters: rls,
    };
    assert!(matches!(kv::dispatch(&put(Vec::new(), false)), Ok(KvHandler::Put)));
    assert!(kv::dispatch(&put(vec![1], false)).is_err());
    assert!(kv::dispatch(&put(Vec::new(), true)).is_err());
}

#[test]
fn policies_are_refused_and_not_dropped() {
    let insert = |check: Vec<u8>| ColumnarOp::Insert {
        collection: "c".to_string(),
        payload: Vec::new(),
        format: "json".to_string(),
        intent: ColumnarInsertIntent::Insert,
        on_conflict_updates: Vec::new(),
        schema_bytes: Vec::new(),
        rls_write_check: check,
        returning: false,
        rls_filters: Vec::new(),
    };
    assert!(matches!(columnar::dispatch(&insert(Vec::new())), Ok(ColumnarHandler::Insert)));
    assert!(columnar::dispatch(&insert(vec![9])).is_err());
    let join = |left: Vec<u8>| QueryOp::NestedLoopJoin {
        left_collection: "a".to_string(),
        right_collection: "b".to_string(),
        condition: Vec::new(),
        join_type: "inner".to_string(),
        limit: 0,
        left_rls_filters: left,
        right_rls_filters: Vec::new(),
    };
    assert!(matches!(query::dispatch(&join(Vec::new())), Ok(QueryHandler::NestedLoopJoin)));
    assert!(query::dispatch(&join(vec![9])).is_err());
    let upsert = |rls: Vec<u8>| CrdtOp::DocUpsert {
        collection: "c".to_string(),
        document_id: "d".to_string(),
        fields_json: "{}".to_string(),
        partial: true,
        returning: None,
        rls_filters: rls,
    };
    assert!(matches!(
        crdt::dispatch(&upsert(Vec::new())),
        Ok(CrdtHandler::DocUpsert { partial: true, .. })
    ));
    assert!(crdt::dispatch(&upsert(vec![9])).is_err());
}

#[test]
fn timeseries_scans_take_a_time_and_no_order() {
    let scan = |sorted: bool, system_time: SystemTimeScope| TimeseriesOp::Scan {
        collection: "cpu".to_string(),
        time_range: (1, 9),
        projection: Vec::new(),
        limit: 5,
        filters: Vec::new(),
        bucket_interval_ms: 60,
        group_by: Vec::new(),
        aggregates: Vec::new(),
        gap_fill: String::new(),
        computed_columns: Vec::new(),
        rls_filters: vec![8],
        system_time,
        valid_at_ms: None,
        sort_keys: if sorted { vec![SortKey::column("ts", true)] } else { Vec::new() },
    };
    match timeseries::dispatch(&scan(false, SystemTimeScope::AsOf(7))) {
        Ok(TimeseriesHandler::Scan { time_range, limit, rls_filters, system_as_of_ms, .. }) => {
            assert_eq!(time_range, (1, 9));
            assert_eq!(limit, 5);
            assert_eq!(rls_filters, &vec![8]);
            assert_eq!(system_as_of_ms, Some(7));
        }
        other => panic!("unexpected {other:?}"),
    }
    let e = timeseries::dispatch(&scan(true, SystemTimeScope::Current)).expect_err("order");
    assert_eq!(unsupported(e), "ORDER BY is not supported on the timeseries engine in Lite");
    assert!(timeseries::dispatch(&scan(false, SystemTimeScope::AllVersions)).is_err());
}

#[test]
fn graph_walks_refuse_row_policies() {
    let hop = |rls: Vec<u8>| GraphOp::Hop {
        start_nodes: vec!["a".to_string()],
        edge_label: Some("KNOWS".to_string()),
        direction: Direction::Out,
        depth: 2,
        options: Vec::new(),
        frontier_bitmap: None,
        rls_filters: rls,
    };
    match graph::dispatch(&hop(Vec::new())) {
        Ok(GraphHandler::Hop { start_nodes, edge_label, direction, depth, .. }) => {
            assert_eq!(start_nodes, &vec!["a".to_string()]);
            assert_eq!(edge_label.as_deref(), Some("KNOWS"));
            assert_eq!(direction, Direction::Out);
            assert_eq!(depth, 2);
        }
        other => panic!("unexpected {other:?}"),
    }
    assert!(graph::dispatch(&hop(vec![1])).is_err());
}

#[test]
fn temporal_reads_pass_their_time_on() {
    let read = |system_time: SystemTimeScope| GraphOp::TemporalNeighbors {
        collection: "g".to_string(),
        node_id: "a".to_string(),
        edge_label: None,
        direction: Direction::Both,
        system_time,
        valid_at_ms: Some(4),
        rls_filters: Vec::new(),
    };
    assert!(matches!(
        graph::dispatch(&read(SystemTimeScope::AsOf(9))),
        Ok(GraphHandler::TemporalNeighbors {
            system_as_of_ms: Some(9),
            valid_at_ms: Some(4),
            ..
        })
    ));
    assert!(matches!(
        graph::dispatch(&read(SystemTimeScope::Current)),
        Ok(GraphHandler::TemporalNeighbors { system_as_of_ms: None, .. })
    ));
    assert!(graph::dispatch(&read(SystemTimeScope::AllVersions)).is_err());
}

#[test]
fn document_handlers_get_their_arguments() {
    let insert = DocumentOp::PointInsert {
        collection: "docs".to_string(),
        document_id: "d".to_string(),
        value: vec![1],
        if_absent: true,
    };
    match document::dispatch(&insert) {
        Ok(DocumentHandler::PointInsert { collection, document_id, value, if_absent }) => {
            assert_eq!(collection, "docs");
            assert_eq!(document_id, "d");
            assert_eq!(value, &vec![1]);
            assert!(if_absent);
        }
        other => panic!("unexpected {other:?}"),
    }
    let balance = DocumentOp::ApplyBalanceDelta {
        collection: "accounts".to_string(),
        column: "total".to_string(),
    };
    let e = document::dispatch(&balance).expect_err("balance");
    assert!(unsupported(e).starts_with("ApplyBalanceDelta on accounts.total: "));
}

#[test]
fn maintenance_handlers_get_their_arguments() {
    let purge = MetaOp::TemporalPurgeColumnar {
        tenant_id: 3,
        collection: "items".to_string(),
        cutoff_system_ms: -5,
    };
    match meta::dispatch(&purge) {
        Ok(MetaHandler::TemporalPurgeColumnar { tenant_id, collection, cutoff_system_ms }) => {
            assert_eq!(tenant_id, 3);
            assert_eq!(collection, "items");
            assert_eq!(cutoff_system_ms, -5);
        }
        other => panic!("unexpected {other:?}"),
    }
    let e = meta::dispatch(&MetaOp::CalvinDrop).expect_err("scheduler");
    assert_eq!(
        unsupported(e),
        "CalvinDrop is a deterministic-scheduler op; unsupported on the single-node Lite engine"
    );
}

#[test]
fn cluster_events_are_refused() {
    assert!(unsupported(cluster::cluster_event()).contains("coordinator-only"));
}

#[test]
fn spatial_scans_carry_their_row_filters() {
    let op = SpatialOp::Scan {
        collection: "places".to_string(),
        field: "at".to_string(),
        predicate: SpatialPredicate::Within,
        query_geometry: vec![6],
        distance_meters: Vec::new(),
        attribute_filters: Vec::new(),
        limit: 4,
        projection: Vec::new(),
        rls_filters: vec![1, 2],
        prefilter: None,
    };
    match spatial::dispatch(&op) {
        SpatialHandler::Scan { collection, limit, rls_filters, .. } => {
            assert_eq!(collection, "places");
            assert_eq!(limit, 4);
            assert_eq!(rls_filters, &vec![1, 2]);
        }
        other => panic!("unexpected {other:?}"),
    }
}

#[test]
fn write_checks_decide() {
    assert!(matches!(
        RlsWriteCheck::NoPolicyApplies.decision(),
        WriteGateDecision::AdmitAll
    ));
    assert!(matches!(
        RlsWriteCheck::Predicate(vec![1]).decision(),
        WriteGateDecision::Evaluate
    ));
    assert!(matches!(
        RlsWriteCheck::PendingInjection.decision(),
        WriteGateDecision::DenyNotInjected
    ));
    assert!(policy::deny_write_check("op", &[&RlsWriteCheck::NoPolicyApplies]).is_ok());
    assert!(policy::deny_write_check("op", &[&RlsWriteCheck::PendingInjection]).is_err());
    assert!(policy::deny_policy("op", false, &[&[], &[]]).is_ok());
    assert!(policy::deny_policy("op", true, &[&[]]).is_err());
    assert!(policy::deny_gate("op", false, &[], &RlsWriteCheck::Predicate(vec![1])).is_err());
}

#[test]
fn opening_checks_its_configuration() {
    let found = RestoredIndexes {
        fts_empty: false,
        sparse_checkpoint_present: false,
        spatial_empty: true,
        csr_empty: false,
    };
    let config = OpenConfig { kv_cache_capacity: 0, auto_flush_ms: 0, auto_compact_ms: 0 };
    match open::open_inner(&config, &found) {
        Err(LiteError::Config { detail }) => {
            assert_eq!(detail, "kv_cache_capacity must be greater than 0")
        }
        other => panic!("unexpected {other:?}"),
    }
    let config = OpenConfig { kv_cache_capacity: 8, auto_flush_ms: 100, auto_compact_ms: 0 };
    let (rebuilds, tasks) = open::open_inner(&config, &found).expect("open");
    assert!(rebuilds.text && rebuilds.spatial && !rebuilds.graph);
    assert!(tasks.has(TaskKind::AutoFlush));
    assert!(!tasks.has(TaskKind::AutoCompact));
}

#[test]
fn tasks_start_once_and_stop() {
    let mut tasks = TaskRegistry::new();
    assert!(tasks.start_sync());
    assert!(!tasks.start_sync());
    assert!(tasks.stop(TaskKind::Sync));
    assert!(!tasks.stop(TaskKind::Sync));
    assert!(tasks.start_auto_compact(10));
    assert!(!TaskRegistry::new().start_auto_flush(0));
    tasks.shutdown();
    assert!(!tasks.has(TaskKind::AutoCompact));
}

#[test]
fn refusals_about_the_row_reach_the_policy() {
    let collision = CompensationHint::Custom {
        constraint: "peer_id_collision".to_string(),
        detail: String::new(),
    };
    assert!(sync::is_peer_id_collision(&collision));
    assert!(matches!(
        sync::handle_reject_with_policy(&collision),
        RejectAction::AwaitRotation
    ));
    assert!(matches!(
        sync::handle_reject_with_policy(&CompensationHint::PermissionDenied),
        RejectAction::Block
    ));
    assert!(matches!(
        sync::handle_reject_with_policy(&CompensationHint::IntegrityViolation),
        RejectAction::ResolveByPolicy
    ));
    assert!(sync::refusal_is_about_the_row(&CompensationHint::IntegrityViolation));
    assert!(sync::drops_after_policy(PolicyResolution::WebhookRequired));
    assert!(!sync::drops_after_policy(PolicyResolution::AutoResolved));
}

#[test]
fn producer_identity_is_read_back() {
    let ops = sync::persist_producer_state(7, 9);
    let mut stored: HashMap<Vec<u8>, Vec<u8>> = HashMap::new();
    for op in ops {
        match op {
            WriteOp::Put { key, value, .. } => {
                stored.insert(key, value);
            }
            WriteOp::Delete { .. } => panic!("a put expected"),
        }
    }
    let id = stored.get(b"sync.producer_id".as_slice()).map(|v| v.as_slice());
    let epoch = stored.get(b"sync.accepted_epoch".as_slice()).map(|v| v.as_slice());
    assert_eq!(id, Some(7u64.to_be_bytes().as_slice()));
    assert_eq!(sync::load_producer_state(id, epoch), (7, 9));
    assert_eq!(sync::load_producer_state(None, Some(b"short")), (0, 0));
}

#[test]
fn remote_rows_are_read_and_not_echoed() {
    let mut map = HashMap::new();
    map.insert("a".to_string(), Value::Integer(1));
    let payload = zerompk::to_msgpack_vec(&Value::Object(map)).expect("encode");
    match sync::apply_remote_row(&payload, false).expect("row") {
        RemoteRow::Upsert(fields) => {
            assert_eq!(fields, vec![("a".to_string(), Value::Integer(1))])
        }
        other => panic!("unexpected {other:?}"),
    }
    assert!(matches!(sync::apply_remote_row(&[], true), Ok(RemoteRow::Delete)));
    let scalar = zerompk::to_msgpack_vec(&Value::Integer(1)).expect("encode");
    match sync::apply_remote_row(&scalar, false) {
        Err(LiteError::Storage { detail }) => {
            assert_eq!(detail, "remote row payload is not an object")
        }
        other => panic!("unexpected {other:?}"),
    }
    let mut q = DeltaQueue::new(4);
    q.push(1, vec![1], 1);
    sync::drop_echo(&mut q, 1);
    assert_eq!(q.pending_count(), 0);
}

#[test]
fn sequence_numbers_are_stable() {
    assert_eq!(sync::set_crdt_pending_delta_seq(0, 5), 5);
    assert_eq!(sync::set_crdt_pending_delta_seq(5, 9), 5);
    assert_eq!(sync::next_stream_seq(Ok(3)), 3);
    assert_eq!(sync::next_stream_seq(Err(LiteError::Storage { detail: String::new() })), 0);
    assert!(sync::should_sync_doc(None));
    assert!(!sync::should_sync_doc(Some(false)));
}

#[test]
fn descriptions_are_stored_or_implied() {
    assert_eq!(sync::collection_meta_key("docs"), b"collection:docs".to_vec());
    assert!(matches!(sync::get_collection_meta(MetaRead::Decoded), MetaSource::Stored));
    assert!(matches!(sync::get_collection_meta(MetaRead::Missing), MetaSource::Implicit));
    assert!(matches!(sync::get_collection_meta(MetaRead::Undecodable), MetaSource::Nowhere));
    assert!(matches!(sync::get_collection_meta(MetaRead::Failed), MetaSource::Nowhere));
}
