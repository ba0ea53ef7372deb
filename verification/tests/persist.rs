use nodedb_lite::error::LiteError;
use nodedb_lite::health;
use nodedb_lite::persist::flush;
use nodedb_lite::persist::flush::{CrdtWrite, CrdtWriteKind, FlushInput, FlushOp};
use nodedb_lite::persist::keys;
use nodedb_lite::persist::queue::DeltaQueue;
use nodedb_lite::persist::restore;
use nodedb_lite::persist::restore::{FlushCheck, StateEntry};
use nodedb_lite::persist::scan;
use nodedb_lite::storage::Namespace;
use std::collections::BTreeMap;

const WINDOW: usize = 8;
const WRITES: usize = 40;

type Stored = BTreeMap<Vec<u8>, Vec<u8>>;

fn input(stored: &[u64]) -> FlushInput {
    FlushInput {
        sync_enabled: true,
        stored_delta_ids: stored.to_vec(),
        crdt_writes: Vec::new(),
        csr: Vec::new(),
        csr_in_segments: false,
        id_map: Vec::new(),
        hnsw: Vec::new(),
        vectors_in_segments: false,
    }
}

fn queued() -> DeltaQueue {
    let mut q = DeltaQueue::new(WINDOW);
    for i in 0..WRITES {
        q.push(i as u64 + 1, vec![i as u8], 1);
    }
    q
}

fn persisted_delta_ids(store: &Stored) -> Vec<u64> {
    let chunk: Vec<Vec<u8>> = store.keys().cloned().collect();
    scan::scan_chunk(&chunk, chunk.len() + 1).ids
}

/// One flush: plan, write, mark, evict and refill.
fn flush_once(q: &mut DeltaQueue, store: &mut Stored) {
    let plan = flush::flush(q, &input(&persisted_delta_ids(store))).expect("flush");
    for op in &plan.ops {
        match op {
            FlushOp::Put { ns, key, value } if matches!(ns, Namespace::Crdt) => {
                store.insert(key.clone(), value.clone());
            }
            FlushOp::Delete { ns, key } if matches!(ns, Namespace::Crdt) => {
                store.remove(key);
            }
            _ => {}
        }
    }
    q.mark_pending_deltas_persisted(&plan.written);
    q.evict_pending_overflow();
    let mut backlog: Vec<(u64, Vec<u8>)> = Vec::new();
    for id in q.spilled_pending_ids() {
        let key = keys::delta_storage_key(id);
        backlog.push((id, store.get(&key).expect("stored entry").clone()));
    }
    q.hydrate_pending_deltas(backlog);
}

fn resident_ids(q: &DeltaQueue) -> Vec<u64> {
    (0..q.resident_pending_count()).map(|i| q.resident_at(i).mutation_id).collect()
}

#[test]
fn flush_bounds_the_resident_delta_window_without_losing_the_queue() {
    let mut q = queued();
    let mut store = Stored::new();
    flush_once(&mut q, &mut store);
    let resident = q.resident_pending_count();
    let total = q.pending_count();
    assert!(resident <= WINDOW, "resident window is {resident}, must not exceed {WINDOW}");
    assert_eq!(
        total, WRITES,
        "no Origin acknowledged anything, so the queue must still hold every mutation"
    );
    assert_eq!(q.spilled_pending_count(), WRITES - resident);
}

#[test]
fn the_retirement_sweep_keeps_every_paged_out_entry_on_disk() {
    let mut q = queued();
    let mut store = Stored::new();
    flush_once(&mut q, &mut store);
    flush_once(&mut q, &mut store);
    assert_eq!(
        persisted_delta_ids(&store).len(),
        WRITES,
        "every queued mutation must still have its stored entry"
    );
    assert_eq!(q.pending_count(), WRITES, "the queue survives a sweep that cannot see most of it");
}

#[test]
fn acknowledging_a_paged_out_entry_deletes_its_stored_entry() {
    let mut q = queued();
    let mut store = Stored::new();
    flush_once(&mut q, &mut store);
    let resident = resident_ids(&q);
    let acked = (1..=WRITES as u64)
        .find(|id| !resident.contains(id))
        .expect("some entry was paged out");
    q.acknowledge(acked);
    flush_once(&mut q, &mut store);
    let stored = persisted_delta_ids(&store);
    assert!(!stored.contains(&acked));
    assert_eq!(stored.len(), WRITES - 1);
    assert_eq!(q.pending_count(), WRITES - 1);
}

#[test]
fn draining_the_window_pages_the_backlog_back_in_oldest_first() {
    let mut q = queued();
    let mut store = Stored::new();
    flush_once(&mut q, &mut store);
    let head = resident_ids(&q);
    for id in &head {
        q.acknowledge(*id);
    }
    assert_eq!(q.resident_pending_count(), 0);
    flush_once(&mut q, &mut store);
    let resident = resident_ids(&q);
    assert_eq!(
        resident.len(),
        WINDOW,
        "the window refills from storage once acknowledgements drain it"
    );
    assert_eq!(
        resident.first().copied(),
        Some(head.len() as u64 + 1),
        "the oldest unacknowledged entry is paged in first, so replay stays in order"
    );
    assert!(
        (0..resident.len()).all(|i| !q.resident_at(i).payload.is_empty()),
        "a paged-in entry carries the payload that will be pushed"
    );
    assert_eq!(q.pending_count(), WRITES - head.len());
}

#[test]
fn health_reports_the_queue_and_not_the_window() {
    let mut q = queued();
    let mut store = Stored::new();
    flush_once(&mut q, &mut store);
    let usage = health::EngineUsage { budget: 1, used: 0, pressure: health::PressureLevel::Normal };
    let gov = health::MemoryGovernor {
        total_budget: 1,
        total_used: 0,
        pressure: health::PressureLevel::Normal,
        hnsw: usage,
        csr: usage,
        loro: usage,
        query: usage,
    };
    let counts = health::EngineCounts {
        vectors: Vec::new(),
        graphs: Vec::new(),
        crdt_collections: 1,
        text_indexes: 0,
        pending_deltas: q.pending_count(),
        blocked_deltas: 0,
        dropped_writes: 0,
    };
    assert_eq!(health::health(&gov, &counts).engines.pending_deltas, WRITES);
}

#[test]
fn delta_keys_name_their_mutation_in_order() {
    let a = keys::delta_storage_key(9);
    let b = keys::delta_storage_key(10);
    assert!(a < b);
    assert_eq!(keys::mutation_id_from_delta_key(&a), Some(9));
    assert_eq!(keys::mutation_id_from_delta_key(b"delta:zz"), None);
}

#[test]
fn snapshots_remove_the_updates_they_hold() {
    let mut i = input(&[]);
    i.crdt_writes = vec![CrdtWrite {
        collection: "docs".to_string(),
        kind: CrdtWriteKind::Checkpoint { superseded_deltas: 2 },
        bytes: vec![1, 2, 3],
    }];
    let plan = flush::flush(&DeltaQueue::new(WINDOW), &i).expect("flush");
    for seq in 0..2u64 {
        let key = keys::state_delta_key_for("docs", seq);
        assert!(plan.ops.iter().any(|op| matches!(op, FlushOp::Delete { key: k, .. } if *k == key)));
    }
    let snapshot = keys::snapshot_key_for("docs");
    assert!(plan.ops.iter().any(
        |op| matches!(op, FlushOp::PutSealed { key: k, value, .. } if *k == snapshot && value == &[1, 2, 3])
    ));
}

#[test]
fn flush_records_the_watermark_and_the_index_names() {
    let mut i = input(&[]);
    i.csr = vec![("g".to_string(), Some(vec![7]))];
    i.hnsw = vec![("v".to_string(), vec![8])];
    i.id_map = vec![("v:0".to_string(), "d".to_string(), 0)];
    let mut q = DeltaQueue::new(WINDOW);
    q.push(5, vec![1], 1);
    let plan = flush::flush(&q, &i).expect("flush");
    let value_of = |wanted: &[u8]| {
        plan.ops
            .iter()
            .find_map(|op| match op {
                FlushOp::Put { key, value, .. } | FlushOp::PutSealed { key, value, .. }
                    if key == wanted =>
                {
                    Some(value.clone())
                }
                _ => None,
            })
            .expect("written")
    };
    assert_eq!(value_of(b"meta:last_flushed_mid"), 5u64.to_le_bytes().to_vec());
    let names: Vec<String> =
        zerompk::from_msgpack(&value_of(b"meta:csr_collections")).expect("names");
    assert_eq!(names, vec!["g".to_string()]);
    let names: Vec<String> =
        zerompk::from_msgpack(&value_of(b"meta:hnsw_collections")).expect("names");
    assert_eq!(names, vec!["v".to_string()]);
    assert_eq!(value_of(b"csr:g"), vec![7]);
    assert_eq!(value_of(b"hnsw:v"), vec![8]);
    assert!(!value_of(b"hnsw_id_map").is_empty());
    assert_eq!(plan.written, vec![(5, 1)]);
}

#[test]
fn a_store_that_does_not_replicate_deletes_no_entry() {
    let mut i = input(&[1, 2, 3]);
    i.sync_enabled = false;
    let plan = flush::flush(&DeltaQueue::new(WINDOW), &i).expect("flush");
    assert!(!plan.ops.iter().any(|op| matches!(op, FlushOp::Delete { .. })));
}

#[test]
fn scans_continue_after_a_full_chunk() {
    let chunk: Vec<Vec<u8>> = vec![keys::delta_storage_key(1), keys::delta_storage_key(2)];
    let s = scan::scan_chunk(&chunk, 2);
    assert_eq!(s.ids, vec![1, 2]);
    let mut next = keys::delta_storage_key(2);
    next.push(0);
    assert_eq!(s.next_start, Some(next));
    let s = scan::scan_chunk(&chunk, 3);
    assert_eq!(s.next_start, None);
    let mixed = vec![keys::delta_storage_key(1), b"other".to_vec()];
    let s = scan::scan_chunk(&mixed, 2);
    assert_eq!(s.ids, vec![1]);
    assert_eq!(s.next_start, None);
}

#[test]
fn state_keys_name_their_collection() {
    let key = keys::snapshot_key_for("docs");
    assert_eq!(restore::collection_from_snapshot_key(&key).as_deref(), Some("docs"));
    let key = keys::state_delta_key_for("docs", 7);
    assert_eq!(restore::state_delta_from_key(&key), Some(("docs".to_string(), 7)));
}

#[test]
fn unreadable_state_is_discarded_only_with_consent() {
    let broken = vec![StateEntry { key: keys::snapshot_key_for("docs"), payload: None }];
    match restore::restore_snapshots(&broken, false) {
        Err(LiteError::Corrupted { detail }) => assert!(detail.contains("docs"), "{detail}"),
        other => panic!("unexpected {other:?}"),
    }
    let plan = restore::restore_snapshots(&broken, true).expect("consent");
    assert_eq!(plan.discards, vec![0]);
    assert!(plan.imports.is_empty());
    let good = vec![StateEntry { key: keys::snapshot_key_for("docs"), payload: Some(vec![1]) }];
    assert_eq!(restore::restore_snapshots(&good, false).expect("import").imports, vec![0]);
}

#[test]
fn history_flags_enable_their_collection() {
    assert_eq!(
        restore::bitemporal_collection(b"document_bitemporal:docs", &[1]).as_deref(),
        Some("docs")
    );
    assert_eq!(restore::bitemporal_collection(b"document_bitemporal:docs", &[0]), None);
    assert_eq!(restore::bitemporal_collection(b"other:docs", &[1]), None);
}

#[test]
fn torn_flushes_are_noticed() {
    let five = 5u64.to_le_bytes();
    assert!(matches!(
        restore::check_partial_flush(3, Some(&five), 5, false),
        Ok(FlushCheck::Consistent)
    ));
    match restore::check_partial_flush(3, Some(&five), 9, false) {
        Err(LiteError::Corrupted { detail }) => {
            assert!(detail.contains("the last flushed mutation is 5"), "{detail}");
            assert!(detail.contains("the queue reaches 9"), "{detail}");
        }
        other => panic!("unexpected {other:?}"),
    }
    assert!(matches!(
        restore::check_partial_flush(3, Some(&five), 9, true),
        Ok(FlushCheck::Clear)
    ));
}

#[test]
fn updates_follow_the_snapshots_they_apply_to() {
    let entry = |key: Vec<u8>, payload: Option<Vec<u8>>| StateEntry { key, payload };
    let snapshots = vec![
        entry(keys::snapshot_key_for("docs"), Some(vec![1])),
        entry(keys::snapshot_key_for("lost"), None),
    ];
    let updates = vec![
        entry(keys::state_delta_key_for("docs", 0), Some(vec![2])),
        entry(keys::state_delta_key_for("lost", 0), Some(vec![3])),
    ];
    let (discards, refused) = restore::restore_identity_and_crdt(&snapshots, &updates, false);
    assert!(refused.is_err());
    assert!(discards.is_empty());
    let (discards, plan) = restore::restore_identity_and_crdt(&snapshots, &updates, true);
    let plan = plan.expect("consent");
    assert_eq!(plan.imports, vec![0]);
    assert_eq!(discards, vec![1]);
    assert_eq!(plan.bases, vec!["docs".to_string()]);
    assert_eq!(plan.updates.replays, vec![0]);
    assert_eq!(plan.updates.orphans, vec![1]);
    assert_eq!(restore::update_totals(&updates, "docs"), (1, 1));
}

#[test]
fn a_broken_update_always_stops_the_opening() {
    let entry = |key: Vec<u8>, payload: Option<Vec<u8>>| StateEntry { key, payload };
    let snapshots = vec![
        entry(keys::snapshot_key_for("docs"), Some(vec![1])),
        entry(keys::snapshot_key_for("lost"), None),
    ];
    let updates = vec![entry(keys::state_delta_key_for("docs", 3), None)];
    let (discards, plan) = restore::restore_identity_and_crdt(&snapshots, &updates, true);
    assert_eq!(discards, vec![1], "what is discarded goes all the same");
    match plan {
        Err(LiteError::Corrupted { detail }) => {
            assert!(detail.starts_with("CRDT update 'docs' #3 failed its CRC32C check"), "{detail}")
        }
        other => panic!("unexpected {other:?}"),
    }
}

/// Every queued mutation with its payload, resident or stored.
fn payloads(q: &DeltaQueue, store: &Stored) -> BTreeMap<u64, Vec<u8>> {
    let mut all = BTreeMap::new();
    for i in 0..q.resident_pending_count() {
        let d = q.resident_at(i);
        all.insert(d.mutation_id, d.payload.clone());
    }
    for id in 1..=WRITES as u64 {
        if q.pending_delta_is_live(id) && !all.contains_key(&id) {
            let stored = store.get(&keys::delta_storage_key(id)).expect("stored entry");
            all.insert(id, stored.clone());
        }
    }
    all
}

#[test]
fn payloads_survive_flushes_and_paging() {
    let mut q = queued();
    let mut store = Stored::new();
    let before = payloads(&q, &store);
    assert_eq!(before.len(), WRITES);
    flush_once(&mut q, &mut store);
    assert_eq!(payloads(&q, &store), before);
    flush_once(&mut q, &mut store);
    assert_eq!(payloads(&q, &store), before);
}

#[test]
fn acknowledging_leaves_the_other_payloads() {
    let mut q = queued();
    let mut store = Stored::new();
    flush_once(&mut q, &mut store);
    let mut expected = payloads(&q, &store);
    for acked in [1, 20] {
        q.acknowledge(acked);
        expected.remove(&acked);
        assert_eq!(payloads(&q, &store), expected);
    }
    flush_once(&mut q, &mut store);
    assert_eq!(payloads(&q, &store), expected);
}

#[test]
fn an_idle_flush_writes_no_entry() {
    let mut q = queued();
    let mut store = Stored::new();
    flush_once(&mut q, &mut store);
    let plan = flush::flush(&q, &input(&persisted_delta_ids(&store))).expect("flush");
    assert!(plan.written.is_empty());
    assert!(!plan.ops.iter().any(|op| matches!(
        op,
        FlushOp::Put { ns: Namespace::Crdt, .. } | FlushOp::Delete { ns: Namespace::Crdt, .. }
    )));
}

#[test]
fn a_flush_stores_exactly_the_queue_and_leaves_nameless_keys() {
    let mut q = queued();
    let mut store = Stored::new();
    store.insert(b"delta:stray".to_vec(), vec![9]);
    store.insert(keys::delta_storage_key(900), vec![1]);
    flush_once(&mut q, &mut store);
    let stored = persisted_delta_ids(&store);
    let queue: Vec<u64> = (1..=WRITES as u64).collect();
    assert_eq!(stored, queue, "a stored entry that is not queued goes");
    assert_eq!(store.get(b"delta:stray".as_slice()), Some(&vec![9]));
}

#[test]
fn new_mutations_cost_one_entry_write_each() {
    let mut q = queued();
    let mut store = Stored::new();
    flush_once(&mut q, &mut store);
    let before = q.pending_delta_write_count();
    assert_eq!(before, WRITES as u64);
    flush_once(&mut q, &mut store);
    assert_eq!(q.pending_delta_write_count(), before, "an idle store writes nothing");
    for id in 0..3 {
        q.push(WRITES as u64 + 1 + id, vec![7], 1);
    }
    flush_once(&mut q, &mut store);
    assert_eq!(q.pending_delta_write_count(), before + 3);
}

#[test]
fn restored_mutations_need_no_write() {
    let mut q = DeltaQueue::new(WINDOW);
    q.push_stored(4, vec![1]);
    assert_eq!(q.pending_delta_write_count(), 0);
    let plan = flush::flush(&q, &input(&[4])).expect("flush");
    assert!(plan.written.is_empty());
}

#[test]
fn without_sync_stored_entries_keep_their_values() {
    let q = DeltaQueue::new(WINDOW);
    let mut off = input(&[]);
    off.sync_enabled = false;
    let plan = flush::flush(&q, &off).expect("flush");
    assert!(!plan.ops.iter().any(|op| match op {
        FlushOp::Put { key, .. } | FlushOp::PutSealed { key, .. } | FlushOp::Delete { key, .. } => {
            key.starts_with(b"delta:")
        }
    }));
}
