//! What a flush writes.
//!
//! A flush is one batch: the replicated state of each collection that moved,
//! the changes to the queue of mutations, and a checkpoint of every index.
use crate::bytes;
use crate::error::LiteError;
use crate::persist::keys;
use crate::persist::queue::{DeltaQueue, PendingDelta};
use crate::storage::Namespace;
use crate::text;
use crate::value;
use crate::wire;
use vstd::prelude::*;
use vstd::utf8::*;

verus! {

/// How a collection's replicated state is written.
#[derive(Debug, Clone, Copy, PartialEq, Eq)]
pub enum CrdtWriteKind {
    /// A fresh snapshot, which supersedes the updates numbered below this.
    Checkpoint { superseded_deltas: u64 },
    /// An update on top of the snapshot, with its number.
    Delta { seq_no: u64 },
}

/// The replicated state of a collection that moved since the last flush.
#[derive(Debug)]
pub struct CrdtWrite {
    /// The collection.
    pub collection: String,
    /// Whether this is a snapshot or an update.
    pub kind: CrdtWriteKind,
    /// The exported state.
    pub bytes: Vec<u8>,
}

/// A write of a flush.
#[derive(Debug)]
pub enum FlushOp {
    /// Sets the value of a key.
    Put { ns: Namespace, key: Vec<u8>, value: Vec<u8> },
    /// Sets the value of a key, sealed with a checksum.
    PutSealed { ns: Namespace, key: Vec<u8>, value: Vec<u8> },
    /// Removes a key.
    Delete { ns: Namespace, key: Vec<u8> },
}

/// What a [`FlushOp`] does.
pub enum FlushOpView {
    Put { ns: Namespace, key: Seq<u8>, value: Seq<u8> },
    PutSealed { ns: Namespace, key: Seq<u8>, value: Seq<u8> },
    Delete { ns: Namespace, key: Seq<u8> },
}

impl View for FlushOp {
    type V = FlushOpView;

    open spec fn view(&self) -> FlushOpView {
        match *self {
            FlushOp::Put { ns, key, value } => FlushOpView::Put { ns, key: key@, value: value@ },
            FlushOp::PutSealed { ns, key, value } => FlushOpView::PutSealed {
                ns,
                key: key@,
                value: value@,
            },
            FlushOp::Delete { ns, key } => FlushOpView::Delete { ns, key: key@ },
        }
    }
}

/// What a list of writes does, in order.
pub open spec fn flush_view(ops: Seq<FlushOp>) -> Seq<FlushOpView> {
    ops.map_values(|op: FlushOp| op@)
}

/// What there is to flush, apart from the queue of mutations.
#[derive(Debug)]
pub struct FlushInput {
    /// Whether this store replicates.
    pub sync_enabled: bool,
    /// The mutations that have a stored entry.
    pub stored_delta_ids: Vec<u64>,
    /// The collections whose replicated state moved.
    pub crdt_writes: Vec<CrdtWrite>,
    /// The adjacency index of each collection, `None` where its checkpoint
    /// could not be made.
    pub csr: Vec<(String, Option<Vec<u8>>)>,
    /// Whether adjacency checkpoints go to segments of their own.
    pub csr_in_segments: bool,
    /// The identity of each vector: index entry, document and slot.
    pub id_map: Vec<(String, String, u32)>,
    /// The checkpoint of each vector index.
    pub hnsw: Vec<(String, Vec<u8>)>,
    /// Whether vectors go to segments of their own.
    pub vectors_in_segments: bool,
}

/// What a flush does.
#[derive(Debug)]
pub struct FlushPlan {
    /// The writes, made in one batch.
    pub ops: Vec<FlushOp>,
    /// The queue entries that the batch makes durable, each with its edit.
    pub written: Vec<(u64, u64)>,
    /// Adjacency segments to write once the batch is durable.
    pub csr_segments: Vec<(String, Vec<u8>)>,
    /// Vector indexes whose segments to write once the batch is durable.
    pub vector_segments: Vec<String>,
}

/// The writes of one collection's replicated state. A snapshot removes the
/// updates that it contains in the same batch, so no restore ever sees a
/// snapshot with updates in front of it that it already holds.
pub open spec fn crdt_write_ops(w: CrdtWrite) -> Seq<FlushOpView> {
    match w.kind {
        CrdtWriteKind::Checkpoint { superseded_deltas } => Seq::new(
            superseded_deltas as nat,
            |i: int|
                FlushOpView::Delete {
                    ns: Namespace::LoroState,
                    key: keys::state_delta_key(w.collection@, i as u64),
                },
        ).push(
            FlushOpView::PutSealed {
                ns: Namespace::LoroState,
                key: keys::snapshot_key(w.collection@),
                value: w.bytes@,
            },
        ),
        CrdtWriteKind::Delta { seq_no } => seq![
            FlushOpView::PutSealed {
                ns: Namespace::LoroState,
                key: keys::state_delta_key(w.collection@, seq_no),
                value: w.bytes@,
            },
        ],
    }
}

/// The writes of every collection's replicated state.
pub open spec fn crdt_ops(writes: Seq<CrdtWrite>) -> Seq<FlushOpView>
    decreases writes.len(),
{
    if writes.len() == 0 {
        Seq::empty()
    } else {
        crdt_ops(writes.drop_last()) + crdt_write_ops(writes.last())
    }
}

/// The deletes of retired queue entries.
pub open spec fn retired_ops(ids: Seq<u64>) -> Seq<FlushOpView> {
    ids.map_values(
        |id: u64| FlushOpView::Delete { ns: Namespace::Crdt, key: keys::delta_key(id) },
    )
}

/// The resident entries whose current edit is not durable.
pub open spec fn needing_write(resident: Seq<PendingDelta>) -> Seq<PendingDelta>
    decreases resident.len(),
{
    if resident.len() == 0 {
        Seq::empty()
    } else if resident.last().durable() {
        needing_write(resident.drop_last())
    } else {
        needing_write(resident.drop_last()).push(resident.last())
    }
}

/// The writes of queue entries.
pub open spec fn entry_ops(entries: Seq<PendingDelta>) -> Seq<FlushOpView> {
    entries.map_values(
        |d: PendingDelta|
            FlushOpView::Put {
                ns: Namespace::Crdt,
                key: keys::delta_key(d.mutation_id),
                value: d.payload@,
            },
    )
}

/// The mutations and edits of queue entries.
pub open spec fn entry_edits(entries: Seq<PendingDelta>) -> Seq<(u64, u64)> {
    entries.map_values(|d: PendingDelta| (d.mutation_id, d.revision))
}

/// The removal of the bulk form of the queue, wherever the queue changed.
pub open spec fn bulk_ops(changed: bool) -> Seq<FlushOpView> {
    if changed {
        seq![
            FlushOpView::Delete {
                ns: Namespace::Crdt,
                key: encode_utf8("crdt:pending_deltas"@),
            },
        ]
    } else {
        Seq::empty()
    }
}

/// The record of the newest queued mutation.
pub open spec fn watermark_op(newest: u64) -> FlushOpView {
    FlushOpView::Put {
        ns: Namespace::Meta,
        key: encode_utf8("meta:last_flushed_mid"@),
        value: bytes::le64(newest),
    }
}

/// The stored mutations that the flush deletes. A store that does not
/// replicate deletes none: what it left behind stays until it does.
pub open spec fn swept(queue: DeltaQueue, input: FlushInput) -> Seq<u64> {
    if input.sync_enabled {
        queue.retired(input.stored_delta_ids@)
    } else {
        Seq::empty()
    }
}

/// The writes that bring the stored queue up to date.
pub open spec fn queue_ops(queue: DeltaQueue, input: FlushInput) -> Seq<FlushOpView> {
    let retired = swept(queue, input);
    let entries = needing_write(queue.resident());
    retired_ops(retired) + entry_ops(entries) + bulk_ops(retired.len() > 0 || entries.len() > 0)
        + seq![watermark_op(queue.newest())]
}

/// The names of the adjacency indexes.
pub open spec fn csr_names(csr: Seq<(String, Option<Vec<u8>>)>) -> Seq<Seq<char>> {
    csr.map_values(|e: (String, Option<Vec<u8>>)| e.0@)
}

/// The writes of adjacency checkpoints.
pub open spec fn csr_blob_ops(csr: Seq<(String, Option<Vec<u8>>)>) -> Seq<FlushOpView>
    decreases csr.len(),
{
    if csr.len() == 0 {
        Seq::empty()
    } else {
        let head = csr_blob_ops(csr.drop_last());
        match csr.last().1 {
            Some(blob) => head.push(
                FlushOpView::PutSealed {
                    ns: Namespace::Graph,
                    key: encode_utf8("csr:"@ + csr.last().0@),
                    value: blob@,
                },
            ),
            None => head,
        }
    }
}

/// The adjacency checkpoints that go to segments.
pub open spec fn csr_segment_list(csr: Seq<(String, Option<Vec<u8>>)>) -> Seq<(Seq<char>, Seq<u8>)>
    decreases csr.len(),
{
    if csr.len() == 0 {
        Seq::empty()
    } else {
        let head = csr_segment_list(csr.drop_last());
        match csr.last().1 {
            Some(blob) => head.push((csr.last().0@, blob@)),
            None => head,
        }
    }
}

/// The writes of the adjacency indexes.
pub open spec fn csr_ops(input: FlushInput) -> Seq<FlushOpView> {
    seq![
        FlushOpView::Put {
            ns: Namespace::Meta,
            key: encode_utf8("meta:csr_collections"@),
            value: wire::encoded_names(csr_names(input.csr@)),
        },
    ] + if input.csr_in_segments {
        Seq::empty()
    } else {
        csr_blob_ops(input.csr@)
    }
}

/// The names of the vector indexes.
pub open spec fn hnsw_names(hnsw: Seq<(String, Vec<u8>)>) -> Seq<Seq<char>> {
    hnsw.map_values(|e: (String, Vec<u8>)| e.0@)
}

/// The writes of the vector indexes.
pub open spec fn hnsw_ops(input: FlushInput) -> Seq<FlushOpView> {
    seq![
        FlushOpView::PutSealed {
            ns: Namespace::Vector,
            key: encode_utf8("hnsw_id_map"@),
            value: wire::encoded_id_map(
                input.id_map@.map_values(|e: (String, String, u32)| (e.0@, e.1@, e.2)),
            ),
        },
        FlushOpView::Put {
            ns: Namespace::Meta,
            key: encode_utf8("meta:hnsw_collections"@),
            value: wire::encoded_names(hnsw_names(input.hnsw@)),
        },
    ] + input.hnsw@.map_values(
        |e: (String, Vec<u8>)|
            FlushOpView::PutSealed {
                ns: Namespace::Vector,
                key: encode_utf8("hnsw:"@ + e.0@),
                value: e.1@,
            },
    )
}

/// The writes of a flush.
pub open spec fn flush_ops(queue: DeltaQueue, input: FlushInput) -> Seq<FlushOpView> {
    crdt_ops(input.crdt_writes@) + queue_ops(queue, input) + csr_ops(input) + hnsw_ops(input)
}

fn push_op(ops: &mut Vec<FlushOp>, op: FlushOp)
    ensures
        flush_view(final(ops)@) == flush_view(old(ops)@).push(op@),
{
    ops.push(op);
    proof {
        assert(flush_view(ops@) =~= flush_view(old(ops)@).push(op@));
    }
}

fn push_crdt_write(ops: &mut Vec<FlushOp>, w: &CrdtWrite)
    ensures
        flush_view(final(ops)@) == flush_view(old(ops)@) + crdt_write_ops(*w),
{
    let ghost before = flush_view(ops@);
    match w.kind {
        CrdtWriteKind::Checkpoint { superseded_deltas } => {
            let ghost deletes = Seq::new(
                superseded_deltas as nat,
                |i: int|
                    FlushOpView::Delete {
                        ns: Namespace::LoroState,
                        key: keys::state_delta_key(w.collection@, i as u64),
                    },
            );
            let mut i: u64 = 0;
            proof {
                assert(before + deletes.take(0) =~= before);
            }
            while i < superseded_deltas
                invariant
                    i <= superseded_deltas,
                    deletes == Seq::new(
                        superseded_deltas as nat,
                        |i: int|
                            FlushOpView::Delete {
                                ns: Namespace::LoroState,
                                key: keys::state_delta_key(w.collection@, i as u64),
                            },
                    ),
                    flush_view(ops@) == before + deletes.take(i as int),
                decreases superseded_deltas - i,
            {
                push_op(
                    ops,
                    FlushOp::Delete {
                        ns: Namespace::LoroState,
                        key: keys::state_delta_key_for(w.collection.as_str(), i),
                    },
                );
                proof {
                    assert(before + deletes.take(i as int + 1) =~= (before + deletes.take(
                        i as int,
                    )).push(deletes[i as int]));
                }
                i = i + 1;
            }
            push_op(
                ops,
                FlushOp::PutSealed {
                    ns: Namespace::LoroState,
                    key: keys::snapshot_key_for(w.collection.as_str()),
                    value: bytes::copy_bytes(&w.bytes),
                },
            );
            proof {
                assert(deletes.take(superseded_deltas as int) =~= deletes);
                assert(flush_view(ops@) =~= before + crdt_write_ops(*w));
            }
        },
        CrdtWriteKind::Delta { seq_no } => {
            push_op(
                ops,
                FlushOp::PutSealed {
                    ns: Namespace::LoroState,
                    key: keys::state_delta_key_for(w.collection.as_str(), seq_no),
                    value: bytes::copy_bytes(&w.bytes),
                },
            );
            proof {
                assert(flush_view(ops@) =~= before + crdt_write_ops(*w));
            }
        },
    }
}

fn push_crdt_writes(ops: &mut Vec<FlushOp>, writes: &Vec<CrdtWrite>)
    ensures
        flush_view(final(ops)@) == flush_view(old(ops)@) + crdt_ops(writes@),
{
    let ghost before = flush_view(ops@);
    let mut i: usize = 0;
    proof {
        assert(before + crdt_ops(writes@.take(0)) =~= before);
    }
    while i < writes.len()
        invariant
            i <= writes@.len(),
            flush_view(ops@) == before + crdt_ops(writes@.take(i as int)),
        decreases writes@.len() - i,
    {
        push_crdt_write(ops, &writes[i]);
        proof {
            let next = writes@.take(i as int + 1);
            assert(next.drop_last() =~= writes@.take(i as int));
            assert(next.last() == writes@[i as int]);
            assert(before + (crdt_ops(writes@.take(i as int)) + crdt_write_ops(next.last())) =~= (
            before + crdt_ops(writes@.take(i as int))) + crdt_write_ops(next.last()));
        }
        i = i + 1;
    }
    proof {
        assert(writes@.take(writes@.len() as int) =~= writes@);
    }
}

fn push_queue(ops: &mut Vec<FlushOp>, queue: &DeltaQueue, input: &FlushInput) -> (written: Vec<
    (u64, u64),
>)
    ensures
        flush_view(final(ops)@) == flush_view(old(ops)@) + queue_ops(*queue, *input),
        written@ == entry_edits(needing_write(queue.resident())),
{
    let ghost before = flush_view(ops@);
    let retired: Vec<u64> = if input.sync_enabled {
        queue.retired_delta_ids(&input.stored_delta_ids)
    } else {
        Vec::new()
    };
    proof {
        assert(retired@ =~= swept(*queue, *input));
        assert(before + retired_ops(retired@.take(0)) =~= before);
    }
    let mut i: usize = 0;
    while i < retired.len()
        invariant
            i <= retired@.len(),
            flush_view(ops@) == before + retired_ops(retired@.take(i as int)),
        decreases retired@.len() - i,
    {
        push_op(
            ops,
            FlushOp::Delete { ns: Namespace::Crdt, key: keys::delta_storage_key(retired[i]) },
        );
        proof {
            assert(before + retired_ops(retired@.take(i as int + 1)) =~= (before + retired_ops(
                retired@.take(i as int),
            )).push(
                FlushOpView::Delete {
                    ns: Namespace::Crdt,
                    key: keys::delta_key(retired@[i as int]),
                },
            ));
        }
        i = i + 1;
    }
    proof {
        assert(retired@.take(retired@.len() as int) =~= retired@);
    }
    let ghost middle = flush_view(ops@);
    let ghost resident = queue.resident();
    let mut written: Vec<(u64, u64)> = Vec::new();
    let n: usize = queue.resident_pending_count();
    let mut k: usize = 0;
    proof {
        assert(middle + entry_ops(needing_write(resident.take(0))) =~= middle);
        assert(written@ =~= entry_edits(needing_write(resident.take(0))));
    }
    while k < n
        invariant
            k <= n,
            n == resident.len(),
            resident == queue.resident(),
            flush_view(ops@) == middle + entry_ops(needing_write(resident.take(k as int))),
            written@ == entry_edits(needing_write(resident.take(k as int))),
        decreases n - k,
    {
        let d = queue.resident_at(k);
        let durable: bool = match d.persisted {
            Some(p) => p == d.revision,
            None => false,
        };
        proof {
            let next = resident.take(k as int + 1);
            assert(next.drop_last() =~= resident.take(k as int));
            assert(next.last() == *d);
        }
        if !durable {
            let ghost head = needing_write(resident.take(k as int));
            let payload = bytes::copy_bytes(&d.payload);
            push_op(
                ops,
                FlushOp::Put {
                    ns: Namespace::Crdt,
                    key: keys::delta_storage_key(d.mutation_id),
                    value: payload,
                },
            );
            written.push((d.mutation_id, d.revision));
            proof {
                assert(middle + entry_ops(head.push(*d)) =~= (middle + entry_ops(head)).push(
                    FlushOpView::Put {
                        ns: Namespace::Crdt,
                        key: keys::delta_key(d.mutation_id),
                        value: d.payload@,
                    },
                ));
                assert(entry_edits(head.push(*d)) =~= entry_edits(head).push(
                    (d.mutation_id, d.revision),
                ));
            }
        }
        k = k + 1;
    }
    proof {
        assert(resident.take(n as int) =~= resident);
    }
    let ghost entries = needing_write(resident);
    let ghost late = flush_view(ops@);
    if retired.len() > 0 || written.len() > 0 {
        push_op(
            ops,
            FlushOp::Delete {
                ns: Namespace::Crdt,
                key: bytes::copy_bytes("crdt:pending_deltas".as_bytes()),
            },
        );
    }
    push_op(
        ops,
        FlushOp::Put {
            ns: Namespace::Meta,
            key: bytes::copy_bytes("meta:last_flushed_mid".as_bytes()),
            value: bytes::u64_to_le(queue.max_pending_mutation_id()),
        },
    );
    proof {
        assert(written@.len() == entries.len());
        assert(flush_view(ops@) =~= before + queue_ops(*queue, *input));
    }
    written
}

fn push_csr(ops: &mut Vec<FlushOp>, input: &FlushInput) -> (r: Result<
    Vec<(String, Vec<u8>)>,
    LiteError,
>)
    ensures
        match r {
            Ok(segments) => {
                &&& flush_view(final(ops)@) == flush_view(old(ops)@) + csr_ops(*input)
                &&& segments@.map_values(|e: (String, Vec<u8>)| (e.0@, e.1@))
                    == if input.csr_in_segments {
                    csr_segment_list(input.csr@)
                } else {
                    Seq::empty()
                }
            },
            Err(_) => false,
        },
{
    let ghost before = flush_view(ops@);
    let mut names: Vec<String> = Vec::new();
    let mut i: usize = 0;
    while i < input.csr.len()
        invariant
            i <= input.csr@.len(),
            names@.len() == i,
            forall|j: int| 0 <= j < i ==> (#[trigger] names@[j])@ == input.csr@[j].0@,
        decreases input.csr@.len() - i,
    {
        names.push(input.csr[i].0.clone());
        i = i + 1;
    }
    proof {
        assert(value::names_view(names@) =~= csr_names(input.csr@));
        assert(names@.map_values(|s: String| s@) =~= csr_names(input.csr@));
    }
    let encoded = match wire::encode_names(&names) {
        Ok(b) => b,
        Err(detail) => {
            return Err(LiteError::Serialization { detail });
        },
    };
    push_op(
        ops,
        FlushOp::Put {
            ns: Namespace::Meta,
            key: bytes::copy_bytes("meta:csr_collections".as_bytes()),
            value: encoded,
        },
    );
    let ghost middle = flush_view(ops@);
    let mut segments: Vec<(String, Vec<u8>)> = Vec::new();
    let mut k: usize = 0;
    let ghost seen = segments@.map_values(|e: (String, Vec<u8>)| (e.0@, e.1@));
    proof {
        assert(middle + csr_blob_ops(input.csr@.take(0)) =~= middle);
        assert(seen =~= Seq::empty());
    }
    while k < input.csr.len()
        invariant
            k <= input.csr@.len(),
            flush_view(ops@) == middle + if input.csr_in_segments {
                Seq::empty()
            } else {
                csr_blob_ops(input.csr@.take(k as int))
            },
            segments@.map_values(|e: (String, Vec<u8>)| (e.0@, e.1@)) == if input.csr_in_segments {
                csr_segment_list(input.csr@.take(k as int))
            } else {
                Seq::empty()
            },
        decreases input.csr@.len() - k,
    {
        let ghost segs = segments@.map_values(|e: (String, Vec<u8>)| (e.0@, e.1@));
        proof {
            let next = input.csr@.take(k as int + 1);
            assert(next.drop_last() =~= input.csr@.take(k as int));
            assert(next.last() == input.csr@[k as int]);
        }
        match &input.csr[k].1 {
            Some(blob) => {
                if input.csr_in_segments {
                    segments.push((input.csr[k].0.clone(), bytes::copy_bytes(blob)));
                    proof {
                        assert(segments@.map_values(|e: (String, Vec<u8>)| (e.0@, e.1@)) =~= segs.push(
                            (input.csr@[k as int].0@, blob@),
                        ));
                    }
                } else {
                    let key = text::concat2("csr:", input.csr[k].0.as_str());
                    push_op(
                        ops,
                        FlushOp::PutSealed {
                            ns: Namespace::Graph,
                            key: bytes::copy_bytes(key.as_str().as_bytes()),
                            value: bytes::copy_bytes(blob),
                        },
                    );
                    proof {
                        assert(flush_view(ops@) =~= middle + csr_blob_ops(
                            input.csr@.take(k as int + 1),
                        ));
                    }
                }
            },
            None => {},
        }
        k = k + 1;
    }
    proof {
        assert(input.csr@.take(input.csr@.len() as int) =~= input.csr@);
        assert(flush_view(ops@) =~= before + csr_ops(*input));
    }
    Ok(segments)
}

fn push_hnsw(ops: &mut Vec<FlushOp>, input: &FlushInput) -> (r: Result<Vec<String>, LiteError>)
    ensures
        match r {
            Ok(segments) => {
                &&& flush_view(final(ops)@) == flush_view(old(ops)@) + hnsw_ops(*input)
                &&& value::names_view(segments@) == if input.vectors_in_segments {
                    hnsw_names(input.hnsw@)
                } else {
                    Seq::empty()
                }
            },
            Err(_) => false,
        },
{
    let ghost before = flush_view(ops@);
    let encoded_map = match wire::encode_id_map(&input.id_map) {
        Ok(b) => b,
        Err(detail) => {
            return Err(LiteError::Serialization { detail });
        },
    };
    push_op(
        ops,
        FlushOp::PutSealed {
            ns: Namespace::Vector,
            key: bytes::copy_bytes("hnsw_id_map".as_bytes()),
            value: encoded_map,
        },
    );
    let mut names: Vec<String> = Vec::new();
    let mut i: usize = 0;
    while i < input.hnsw.len()
        invariant
            i <= input.hnsw@.len(),
            names@.len() == i,
            forall|j: int| 0 <= j < i ==> (#[trigger] names@[j])@ == input.hnsw@[j].0@,
        decreases input.hnsw@.len() - i,
    {
        names.push(input.hnsw[i].0.clone());
        i = i + 1;
    }
    proof {
        assert(value::names_view(names@) =~= hnsw_names(input.hnsw@));
        assert(names@.map_values(|s: String| s@) =~= hnsw_names(input.hnsw@));
    }
    let encoded = match wire::encode_names(&names) {
        Ok(b) => b,
        Err(detail) => {
            return Err(LiteError::Serialization { detail });
        },
    };
    push_op(
        ops,
        FlushOp::Put {
            ns: Namespace::Meta,
            key: bytes::copy_bytes("meta:hnsw_collections".as_bytes()),
            value: encoded,
        },
    );
    let ghost middle = flush_view(ops@);
    let ghost blobs = input.hnsw@.map_values(
        |e: (String, Vec<u8>)|
            FlushOpView::PutSealed {
                ns: Namespace::Vector,
                key: encode_utf8("hnsw:"@ + e.0@),
                value: e.1@,
            },
    );
    let mut k: usize = 0;
    proof {
        assert(middle + blobs.take(0) =~= middle);
    }
    while k < input.hnsw.len()
        invariant
            k <= input.hnsw@.len(),
            blobs == input.hnsw@.map_values(
                |e: (String, Vec<u8>)|
                    FlushOpView::PutSealed {
                        ns: Namespace::Vector,
                        key: encode_utf8("hnsw:"@ + e.0@),
                        value: e.1@,
                    },
            ),
            flush_view(ops@) == middle + blobs.take(k as int),
        decreases input.hnsw@.len() - k,
    {
        let key = text::concat2("hnsw:", input.hnsw[k].0.as_str());
        push_op(
            ops,
            FlushOp::PutSealed {
                ns: Namespace::Vector,
                key: bytes::copy_bytes(key.as_str().as_bytes()),
                value: bytes::copy_bytes(&input.hnsw[k].1),
            },
        );
        proof {
            assert(middle + blobs.take(k as int + 1) =~= (middle + blobs.take(k as int)).push(
                blobs[k as int],
            ));
        }
        k = k + 1;
    }
    proof {
        assert(blobs.take(blobs.len() as int) =~= blobs);
        assert(flush_view(ops@) =~= before + hnsw_ops(*input));
    }
    if input.vectors_in_segments {
        Ok(names)
    } else {
        let none: Vec<String> = Vec::new();
        proof {
            assert(value::names_view(none@) =~= Seq::empty());
        }
        Ok(none)
    }
}

/// Plans a flush. Once its batch is durable, the entries in `written` are to
/// be marked so, and only then may entries be paged out.
pub fn flush(queue: &DeltaQueue, input: &FlushInput) -> (r: Result<FlushPlan, LiteError>)
    ensures
        match r {
            Ok(p) => {
                &&& flush_view(p.ops@) == flush_ops(*queue, *input)
                &&& p.written@ == entry_edits(needing_write(queue.resident()))
                &&& p.csr_segments@.map_values(|e: (String, Vec<u8>)| (e.0@, e.1@))
                    == if input.csr_in_segments {
                    csr_segment_list(input.csr@)
                } else {
                    Seq::empty()
                }
                &&& value::names_view(p.vector_segments@) == if input.vectors_in_segments {
                    hnsw_names(input.hnsw@)
                } else {
                    Seq::empty()
                }
            },
            Err(_) => false,
        },
{
    let mut ops: Vec<FlushOp> = Vec::new();
    proof {
        assert(flush_view(ops@) =~= Seq::empty());
    }
    push_crdt_writes(&mut ops, &input.crdt_writes);
    let written = push_queue(&mut ops, queue, input);
    let csr_segments = match push_csr(&mut ops, input) {
        Ok(s) => s,
        Err(e) => {
            return Err(e);
        },
    };
    let vector_segments = match push_hnsw(&mut ops, input) {
        Ok(s) => s,
        Err(e) => {
            return Err(e);
        },
    };
    proof {
        assert(flush_view(ops@) =~= flush_ops(*queue, *input));
    }
    Ok(FlushPlan { ops, written, csr_segments, vector_segments })
}

} // verus!
