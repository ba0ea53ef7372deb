//! What a flush keeps.
use crate::persist::digits;
use crate::persist::flush;
use crate::persist::flush::{CrdtWrite, CrdtWriteKind, FlushInput, FlushOpView};
use crate::persist::keys;
use crate::persist::queue;
use crate::persist::queue::{DeltaQueue, PendingDelta};
use crate::storage;
use crate::storage::Namespace;
use vstd::prelude::*;
use vstd::utf8::*;

verus! {

/// Where a write of a flush goes.
pub open spec fn target(op: FlushOpView) -> (Namespace, Seq<u8>) {
    match op {
        FlushOpView::Put { ns, key, .. } => (ns, key),
        FlushOpView::PutSealed { ns, key, .. } => (ns, key),
        FlushOpView::Delete { ns, key } => (ns, key),
    }
}

/// The store after the writes of a flush, where `seal` adds the checksum.
pub open spec fn apply_flush(
    store: storage::Store,
    ops: Seq<FlushOpView>,
    seal: spec_fn(Seq<u8>) -> Seq<u8>,
) -> storage::Store
    decreases ops.len(),
{
    if ops.len() == 0 {
        store
    } else {
        let before = apply_flush(store, ops.drop_last(), seal);
        match ops.last() {
            FlushOpView::Put { ns, key, value } => before.insert((ns, key), value),
            FlushOpView::PutSealed { ns, key, value } => before.insert((ns, key), seal(value)),
            FlushOpView::Delete { ns, key } => before.remove((ns, key)),
        }
    }
}

proof fn lemma_apply_concat(
    store: storage::Store,
    a: Seq<FlushOpView>,
    b: Seq<FlushOpView>,
    seal: spec_fn(Seq<u8>) -> Seq<u8>,
)
    ensures
        apply_flush(store, a + b, seal) == apply_flush(apply_flush(store, a, seal), b, seal),
    decreases b.len(),
{
    if b.len() == 0 {
        assert(a + b =~= a);
    } else {
        lemma_apply_concat(store, a, b.drop_last(), seal);
        assert((a + b).drop_last() =~= a + b.drop_last());
    }
}

/// No write of the list goes to this place.
pub open spec fn avoids(ops: Seq<FlushOpView>, place: (Namespace, Seq<u8>)) -> bool {
    forall|i: int| 0 <= i < ops.len() ==> target(#[trigger] ops[i]) != place
}

proof fn lemma_frame(
    store: storage::Store,
    ops: Seq<FlushOpView>,
    seal: spec_fn(Seq<u8>) -> Seq<u8>,
    place: (Namespace, Seq<u8>),
)
    requires
        avoids(ops, place),
    ensures
        apply_flush(store, ops, seal).dom().contains(place) == store.dom().contains(place),
        store.dom().contains(place) ==> apply_flush(store, ops, seal)[place] == store[place],
    decreases ops.len(),
{
    if ops.len() > 0 {
        let head = ops.drop_last();
        assert forall|i: int| 0 <= i < head.len() implies target(#[trigger] head[i]) != place by {
            assert(head[i] == ops[i]);
        }
        lemma_frame(store, head, seal, place);
        assert(target(ops[ops.len() - 1]) != place);
    }
}

proof fn lemma_crdt_ops_namespace(writes: Seq<CrdtWrite>, place: (Namespace, Seq<u8>))
    requires
        place.0 == Namespace::Crdt,
    ensures
        avoids(flush::crdt_ops(writes), place),
    decreases writes.len(),
{
    if writes.len() > 0 {
        lemma_crdt_ops_namespace(writes.drop_last(), place);
        let a = flush::crdt_ops(writes.drop_last());
        let b = flush::crdt_write_ops(writes.last());
        assert forall|i: int| 0 <= i < (a + b).len() implies target(#[trigger] (a + b)[i])
            != place by {
            if i < a.len() {
                assert((a + b)[i] == a[i]);
            } else {
                assert((a + b)[i] == b[i - a.len()]);
            }
        }
    }
}

proof fn lemma_index_ops_namespace(input: FlushInput, place: (Namespace, Seq<u8>))
    requires
        place.0 == Namespace::Crdt,
    ensures
        avoids(flush::csr_ops(input), place),
        avoids(flush::hnsw_ops(input), place),
{
    lemma_csr_blobs_namespace(input.csr@, place);
    let blobs = flush::csr_blob_ops(input.csr@);
    let all = flush::csr_ops(input);
    assert forall|i: int| 0 <= i < all.len() implies target(#[trigger] all[i]) != place by {
        if i > 0 {
            assert(all[i] == blobs[i - 1]);
        }
    }
}

proof fn lemma_csr_blobs_namespace(
    csr: Seq<(String, Option<Vec<u8>>)>,
    place: (Namespace, Seq<u8>),
)
    requires
        place.0 == Namespace::Crdt,
    ensures
        avoids(flush::csr_blob_ops(csr), place),
    decreases csr.len(),
{
    if csr.len() > 0 {
        lemma_csr_blobs_namespace(csr.drop_last(), place);
        let head = flush::csr_blob_ops(csr.drop_last());
        let all = flush::csr_blob_ops(csr);
        assert forall|i: int| 0 <= i < all.len() implies target(#[trigger] all[i]) != place by {
            if i < head.len() {
                assert(all[i] == head[i]);
            }
        }
    }
}

/// The bulk form of the queue is not an entry of the queue.
proof fn lemma_bulk_key_is_no_entry(id: u64)
    ensures
        encode_utf8("crdt:pending_deltas"@) != keys::delta_key(id),
{
    let bulk = "crdt:pending_deltas"@;
    let prefix = "delta:"@;
    reveal_strlit("crdt:pending_deltas");
    reveal_strlit("delta:");
    is_ascii_chars_encode_utf8(bulk);
    is_ascii_chars_encode_utf8(prefix);
    assert(encode_utf8(bulk)[0] == bulk[0] as u8);
    assert(encode_utf8(prefix)[0] == prefix[0] as u8);
    assert(keys::delta_key(id)[0] == encode_utf8(prefix)[0]);
}

/// Different mutations have different stored entries.
proof fn lemma_delta_key_injective(a: u64, b: u64)
    ensures
        keys::delta_key(a) == keys::delta_key(b) ==> a == b,
{
    keys::delta_key_names_its_mutation(a);
    keys::delta_key_names_its_mutation(b);
}

/// Where the stored entry of a mutation is.
pub open spec fn entry_place(id: u64) -> (Namespace, Seq<u8>) {
    (Namespace::Crdt, keys::delta_key(id))
}

/// The payload that entries leave for a mutation when they are written.
pub open spec fn written_payload(entries: Seq<PendingDelta>, id: u64) -> Option<Seq<u8>>
    decreases entries.len(),
{
    if entries.len() == 0 {
        None
    } else if entries.last().mutation_id == id {
        Some(entries.last().payload@)
    } else {
        written_payload(entries.drop_last(), id)
    }
}

/// The entries that are written leave the others of the queue alone, and each
/// written one is stored with its payload.
proof fn lemma_entry_ops(
    store: storage::Store,
    entries: Seq<PendingDelta>,
    seal: spec_fn(Seq<u8>) -> Seq<u8>,
    id: u64,
)
    ensures
        ({
            let after = apply_flush(store, flush::entry_ops(entries), seal);
            &&& after.dom().contains(entry_place(id)) == (store.dom().contains(entry_place(id))
                || written_payload(entries, id) is Some)
            &&& after.dom().contains(entry_place(id)) ==> after[entry_place(id)]
                == match written_payload(entries, id) {
                Some(payload) => payload,
                None => store[entry_place(id)],
            }
        }),
    decreases entries.len(),
{
    let ops = flush::entry_ops(entries);
    if entries.len() > 0 {
        let head = entries.drop_last();
        lemma_entry_ops(store, head, seal, id);
        assert(ops.drop_last() =~= flush::entry_ops(head));
        let d = entries.last();
        assert(ops.last() == FlushOpView::Put {
            ns: Namespace::Crdt,
            key: keys::delta_key(d.mutation_id),
            value: d.payload@,
        });
        lemma_delta_key_injective(d.mutation_id, id);
    }
}

/// A list of deletes by mutation removes exactly those entries.
proof fn lemma_retired_ops(
    store: storage::Store,
    ids: Seq<u64>,
    seal: spec_fn(Seq<u8>) -> Seq<u8>,
    id: u64,
)
    ensures
        ({
            let after = apply_flush(store, flush::retired_ops(ids), seal);
            &&& after.dom().contains(entry_place(id)) == (store.dom().contains(entry_place(id))
                && !ids.contains(id))
            &&& after.dom().contains(entry_place(id)) ==> after[entry_place(id)]
                == store[entry_place(id)]
        }),
    decreases ids.len(),
{
    let ops = flush::retired_ops(ids);
    if ids.len() > 0 {
        let head = ids.drop_last();
        lemma_retired_ops(store, head, seal, id);
        assert(ops.drop_last() =~= flush::retired_ops(head));
        assert(ops.last() == FlushOpView::Delete {
            ns: Namespace::Crdt,
            key: keys::delta_key(ids.last()),
        });
        lemma_delta_key_injective(id, ids.last());
        if ids.contains(id) {
            let i = choose|i: int| 0 <= i < ids.len() && ids[i] == id;
            if i < head.len() {
                assert(head[i] == id);
            }
        }
        if head.contains(id) {
            let i = choose|i: int| 0 <= i < head.len() && head[i] == id;
            assert(ids[i] == id);
        }
        assert(ids[ids.len() - 1] == ids.last());
    }
}

/// What a flush does to the stored entry of one mutation.
proof fn lemma_flush_on_entry(
    store: storage::Store,
    q: DeltaQueue,
    input: FlushInput,
    seal: spec_fn(Seq<u8>) -> Seq<u8>,
    id: u64,
)
    ensures
        ({
            let after = apply_flush(store, flush::flush_ops(q, input), seal);
            let written = written_payload(flush::needing_write(q.resident()), id);
            &&& after.dom().contains(entry_place(id)) == (written is Some || (store.dom().contains(
                entry_place(id),
            ) && !flush::swept(q, input).contains(id)))
            &&& after.dom().contains(entry_place(id)) ==> after[entry_place(id)] == match written {
                Some(payload) => payload,
                None => store[entry_place(id)],
            }
        }),
{
    let place = entry_place(id);
    let a = flush::crdt_ops(input.crdt_writes@);
    let retired = flush::swept(q, input);
    let entries = flush::needing_write(q.resident());
    let r = flush::retired_ops(retired);
    let e = flush::entry_ops(entries);
    let b = flush::bulk_ops(retired.len() > 0 || entries.len() > 0);
    let w = seq![flush::watermark_op(q.newest())];
    let c = flush::csr_ops(input);
    let h = flush::hnsw_ops(input);
    lemma_crdt_ops_namespace(input.crdt_writes@, place);
    lemma_index_ops_namespace(input, place);
    lemma_bulk_key_is_no_entry(id);
    let tail = b + w + c + h;
    assert(flush::flush_ops(q, input) =~= a + (r + (e + tail)));
    assert forall|i: int| 0 <= i < tail.len() implies target(#[trigger] tail[i]) != place by {
        if i < b.len() {
            assert(tail[i] == b[i]);
        } else if i < b.len() + 1 {
            assert(tail[i] == w[0]);
        } else if i < b.len() + 1 + c.len() {
            assert(tail[i] == c[i - b.len() - 1]);
        } else {
            assert(tail[i] == h[i - b.len() - 1 - c.len()]);
        }
    }
    let s1 = apply_flush(store, a, seal);
    lemma_apply_concat(store, a, r + (e + tail), seal);
    lemma_apply_concat(s1, r, e + tail, seal);
    let s2 = apply_flush(s1, r, seal);
    lemma_apply_concat(s2, e, tail, seal);
    let s3 = apply_flush(s2, e, seal);
    lemma_frame(store, a, seal, place);
    lemma_retired_ops(s1, retired, seal, id);
    lemma_entry_ops(s2, entries, seal, id);
    lemma_frame(s3, tail, seal, place);
}

/// What a flush writes of a mutation is the payload of its resident entry, where
/// that is not durable yet.
proof fn lemma_written_payload(resident: Seq<PendingDelta>, id: u64)
    requires
        queue::ascending(queue::resident_ids(resident)),
    ensures
        forall|i: int|
            0 <= i < resident.len() && (#[trigger] resident[i]).mutation_id == id
                ==> written_payload(flush::needing_write(resident), id) == if resident[i].durable() {
                None::<Seq<u8>>
            } else {
                Some(resident[i].payload@)
            },
    decreases resident.len(),
{
    let ids = queue::resident_ids(resident);
    if resident.len() > 0 {
        let head = resident.drop_last();
        let last = resident.len() - 1;
        assert(queue::resident_ids(head) =~= ids.drop_last());
        assert forall|a: int, b: int| 0 <= a < b < head.len() implies #[trigger] queue::resident_ids(
            head,
        )[a] < #[trigger] queue::resident_ids(head)[b] by {
            assert(ids[a] < ids[b]);
        }
        lemma_written_payload(head, id);
        let entries = flush::needing_write(resident);
        if !resident[last].durable() {
            assert(entries.drop_last() =~= flush::needing_write(head));
        }
        assert forall|i: int|
            0 <= i < resident.len() && (
            #[trigger] resident[i]).mutation_id == id implies written_payload(entries, id)
            == if resident[i].durable() {
            None::<Seq<u8>>
        } else {
            Some(resident[i].payload@)
        } by {
            assert(ids[i] == id);
            if i < last {
                assert(head[i] == resident[i]);
                assert(ids[i] < ids[last]);
            } else {
                assert(!queue::resident_ids(head).contains(id)) by {
                    if queue::resident_ids(head).contains(id) {
                        let k = choose|k: int|
                            0 <= k < queue::resident_ids(head).len() && queue::resident_ids(head)[k]
                                == id;
                        assert(ids[k] < ids[last]);
                    }
                }
                lemma_not_written(head, id);
            }
        }
    }
}

/// A flush writes nothing of a mutation without a resident entry.
proof fn lemma_not_written(resident: Seq<PendingDelta>, id: u64)
    requires
        !queue::resident_ids(resident).contains(id),
    ensures
        written_payload(flush::needing_write(resident), id) is None,
    decreases resident.len(),
{
    let ids = queue::resident_ids(resident);
    if resident.len() > 0 {
        let head = resident.drop_last();
        let last = resident.len() - 1;
        assert(queue::resident_ids(head) =~= ids.drop_last());
        assert(!queue::resident_ids(head).contains(id)) by {
            if queue::resident_ids(head).contains(id) {
                let k = choose|k: int|
                    0 <= k < queue::resident_ids(head).len() && queue::resident_ids(head)[k] == id;
                assert(ids[k] == id);
            }
        }
        lemma_not_written(head, id);
        assert(ids[last] == resident[last].mutation_id);
        if !resident[last].durable() {
            assert(flush::needing_write(resident).drop_last() =~= flush::needing_write(head));
        }
    }
}

/// The payload that is held for a queued mutation: that of its resident entry,
/// or the stored one.
pub open spec fn held(store: storage::Store, q: DeltaQueue, id: u64) -> Seq<u8> {
    let ids = queue::resident_ids(q.resident());
    if ids.contains(id) {
        q.resident()[ids.index_of(id)].payload@
    } else {
        store[entry_place(id)]
    }
}

/// Whether a queued mutation that need not be written has its stored entry, with
/// the payload that is held for it.
pub open spec fn backed_entry(store: storage::Store, q: DeltaQueue, id: u64) -> bool {
    ||| exists|i: int|
        0 <= i < q.resident().len() && (#[trigger] q.resident()[i]).mutation_id == id
            && !q.resident()[i].durable()
    ||| store.dom().contains(entry_place(id)) && store[entry_place(id)] == held(store, q, id)
}

/// Whether this holds of every queued mutation.
pub open spec fn backed(store: storage::Store, q: DeltaQueue) -> bool {
    forall|id: u64| #[trigger] q.live().contains(id) ==> backed_entry(store, q, id)
}

/// The payload of a resident entry is the one that is held.
proof fn lemma_held_resident(store: storage::Store, q: DeltaQueue, i: int)
    requires
        q.wf(),
        0 <= i < q.resident().len(),
    ensures
        q.live().contains(q.resident()[i].mutation_id),
        queue::resident_ids(q.resident()).contains(q.resident()[i].mutation_id),
        held(store, q, q.resident()[i].mutation_id) == q.resident()[i].payload@,
{
    let ids = queue::resident_ids(q.resident());
    let id = q.resident()[i].mutation_id;
    assert(ids[i] == id);
    assert(ids.contains(id));
    let k = ids.index_of(id);
    assert(0 <= k < ids.len() && ids[k] == id);
    if k < i {
        assert(ids[k] < ids[i]);
    }
    if i < k {
        assert(ids[i] < ids[k]);
    }
}

/// A flush loses nothing of the queue: afterwards every queued mutation,
/// resident or paged out, has its stored entry, with the payload that was held
/// for it.
pub proof fn flush_keeps_the_queue(
    store: storage::Store,
    q: DeltaQueue,
    input: FlushInput,
    seal: spec_fn(Seq<u8>) -> Seq<u8>,
    id: u64,
)
    requires
        q.wf(),
        backed(store, q),
        q.live().contains(id),
    ensures
        ({
            let after = apply_flush(store, flush::flush_ops(q, input), seal);
            &&& after.dom().contains(entry_place(id))
            &&& after[entry_place(id)] == held(store, q, id)
        }),
{
    let ids = queue::resident_ids(q.resident());
    lemma_flush_on_entry(store, q, input, seal, id);
    lemma_swept_is_dead(q, input, id);
    lemma_written_payload(q.resident(), id);
    assert(backed_entry(store, q, id));
    if ids.contains(id) {
        let i = choose|i: int| 0 <= i < ids.len() && ids[i] == id;
        assert(q.resident()[i].mutation_id == id);
        lemma_held_resident(store, q, i);
        if exists|k: int|
            0 <= k < q.resident().len() && (#[trigger] q.resident()[k]).mutation_id == id
                && !q.resident()[k].durable() {
            let k = choose|k: int|
                0 <= k < q.resident().len() && (#[trigger] q.resident()[k]).mutation_id == id
                    && !q.resident()[k].durable();
            lemma_held_resident(store, q, k);
        }
    } else {
        lemma_not_written(q.resident(), id);
        assert forall|k: int| 0 <= k < q.resident().len() implies (
        #[trigger] q.resident()[k]).mutation_id != id by {
            assert(ids[k] == q.resident()[k].mutation_id);
        }
    }
}

/// Once what a flush wrote is marked, every queued mutation is held as before,
/// and each has its stored entry.
pub proof fn flush_backs_the_queue(
    store: storage::Store,
    before: DeltaQueue,
    input: FlushInput,
    seal: spec_fn(Seq<u8>) -> Seq<u8>,
    after: DeltaQueue,
)
    requires
        before.wf(),
        after.wf(),
        backed(store, before),
        after.spilled() == before.spilled(),
        after.live() == before.live(),
        after.resident().len() == before.resident().len(),
        forall|i: int|
            0 <= i < before.resident().len() ==> queue::marked(
                before.resident()[i],
                #[trigger] after.resident()[i],
                flush::entry_edits(flush::needing_write(before.resident())),
            ),
    ensures
        ({
            let flushed = apply_flush(store, flush::flush_ops(before, input), seal);
            &&& backed(flushed, after)
            &&& forall|id: u64| #[trigger]
                before.live().contains(id) ==> held(flushed, after, id) == held(store, before, id)
        }),
{
    let flushed = apply_flush(store, flush::flush_ops(before, input), seal);
    let a = queue::resident_ids(after.resident());
    let b = queue::resident_ids(before.resident());
    assert forall|i: int| 0 <= i < a.len() implies a[i] == b[i] by {
        assert(after.resident()[i].mutation_id == before.resident()[i].mutation_id);
    }
    assert(a =~= b);
    assert forall|id: u64| #[trigger] before.live().contains(id) implies held(flushed, after, id)
        == held(store, before, id) && backed_entry(flushed, after, id) by {
        flush_keeps_the_queue(store, before, input, seal, id);
        if a.contains(id) {
            let i = choose|i: int| 0 <= i < a.len() && a[i] == id;
            assert(after.resident()[i].payload == before.resident()[i].payload);
            lemma_held_resident(flushed, after, i);
            lemma_held_resident(store, before, i);
        }
    }
}

/// Paging out loses nothing: every queued mutation is held as before, and its
/// stored entry with it.
pub proof fn paging_out_keeps_payloads(
    store: storage::Store,
    before: DeltaQueue,
    after: DeltaQueue,
)
    requires
        before.wf(),
        after.wf(),
        backed(store, before),
        after.live() == before.live(),
        after.resident() == queue::kept(
            before.resident(),
            before.resident().len() - before.window(),
        ),
    ensures
        backed(store, after),
        forall|id: u64| #[trigger]
            before.live().contains(id) ==> held(store, after, id) == held(store, before, id),
{
    let excess = before.resident().len() - before.window();
    assert forall|id: u64| #[trigger] before.live().contains(id) implies held(store, after, id)
        == held(store, before, id) && backed_entry(store, after, id) by {
        assert(backed_entry(store, before, id));
        let a = queue::resident_ids(after.resident());
        let b = queue::resident_ids(before.resident());
        if a.contains(id) {
            let i = choose|i: int| 0 <= i < a.len() && a[i] == id;
            lemma_kept_is_resident(before.resident(), excess, i);
            let k = choose|k: int|
                0 <= k < before.resident().len() && before.resident()[k] == after.resident()[i];
            lemma_held_resident(store, after, i);
            lemma_held_resident(store, before, k);
            if exists|j: int|
                0 <= j < before.resident().len() && (#[trigger] before.resident()[j]).mutation_id
                    == id && !before.resident()[j].durable() {
                let j = choose|j: int|
                    0 <= j < before.resident().len() && (
                    #[trigger] before.resident()[j]).mutation_id == id
                        && !before.resident()[j].durable();
                assert(b[j] == b[k]);
                if j < k {
                    assert(b[j] < b[k]);
                }
                if k < j {
                    assert(b[k] < b[j]);
                }
                assert(!after.resident()[i].durable());
            }
        } else if b.contains(id) {
            let k = choose|k: int| 0 <= k < b.len() && b[k] == id;
            lemma_held_resident(store, before, k);
            assert forall|j: int|
                0 <= j < before.resident().len() && (
                #[trigger] before.resident()[j]).mutation_id == id implies before.resident()[
            j].durable() by {
                if !before.resident()[j].durable() {
                    lemma_not_durable_is_kept(before.resident(), excess, j);
                    let i = choose|i: int|
                        0 <= i < after.resident().len() && after.resident()[i]
                            == before.resident()[j];
                    assert(a[i] == id);
                }
            }
        } else {
            assert forall|j: int| 0 <= j < before.resident().len() implies (
            #[trigger] before.resident()[j]).mutation_id != id by {
                assert(b[j] == before.resident()[j].mutation_id);
            }
        }
    }
}

/// What stays resident was resident.
proof fn lemma_kept_is_resident(resident: Seq<PendingDelta>, excess: int, i: int)
    requires
        0 <= i < queue::kept(resident, excess).len(),
    ensures
        exists|k: int|
            0 <= k < resident.len() && resident[k] == queue::kept(resident, excess)[i],
    decreases resident.len(),
{
    if resident.len() > 0 {
        let head = resident.drop_last();
        let less = if excess > 0 && resident.last().durable() {
            excess - 1
        } else {
            excess
        };
        let rest = queue::kept(head, less);
        if i < rest.len() {
            lemma_kept_is_resident(head, less, i);
            let k = choose|k: int| 0 <= k < head.len() && head[k] == rest[i];
            assert(resident[k] == queue::kept(resident, excess)[i]);
        } else {
            assert(resident[resident.len() - 1] == queue::kept(resident, excess)[i]);
        }
    }
}

/// What is not durable stays resident.
proof fn lemma_not_durable_is_kept(resident: Seq<PendingDelta>, excess: int, k: int)
    requires
        0 <= k < resident.len(),
        !resident[k].durable(),
    ensures
        exists|i: int|
            0 <= i < queue::kept(resident, excess).len() && queue::kept(resident, excess)[i]
                == resident[k],
    decreases resident.len(),
{
    let head = resident.drop_last();
    let less = if excess > 0 && resident.last().durable() {
        excess - 1
    } else {
        excess
    };
    let rest = queue::kept(head, less);
    if k < head.len() {
        assert(head[k] == resident[k]);
        lemma_not_durable_is_kept(head, less, k);
        let i = choose|i: int| 0 <= i < rest.len() && rest[i] == head[k];
        assert(queue::kept(resident, excess)[i] == resident[k]);
    } else {
        assert(queue::kept(resident, excess)[rest.len() as int] == resident[k]);
    }
}

/// Paging in loses nothing, where what is offered was read from the store: every
/// queued mutation is held as before.
pub proof fn paging_in_keeps_payloads(
    store: storage::Store,
    before: DeltaQueue,
    after: DeltaQueue,
    deltas: Seq<(u64, Vec<u8>)>,
)
    requires
        before.wf(),
        after.wf(),
        backed(store, before),
        after.live() == before.live(),
        forall|i: int|
            0 <= i < deltas.len() ==> store.dom().contains(entry_place((#[trigger] deltas[i]).0))
                && store[entry_place(deltas[i].0)] == deltas[i].1@,
        forall|i: int|
            0 <= i < after.resident().len() ==> before.resident().contains(
                #[trigger] after.resident()[i],
            ) || queue::offered(deltas, after.resident()[i]),
        forall|i: int|
            0 <= i < before.resident().len() ==> after.resident().contains(
                #[trigger] before.resident()[i],
            ),
    ensures
        backed(store, after),
        forall|id: u64| #[trigger]
            before.live().contains(id) ==> held(store, after, id) == held(store, before, id),
{
    let a = queue::resident_ids(after.resident());
    let b = queue::resident_ids(before.resident());
    assert forall|id: u64| #[trigger] before.live().contains(id) implies held(store, after, id)
        == held(store, before, id) && backed_entry(store, after, id) by {
        assert(backed_entry(store, before, id));
        if b.contains(id) {
            let k = choose|k: int| 0 <= k < b.len() && b[k] == id;
            lemma_held_resident(store, before, k);
            assert(after.resident().contains(before.resident()[k]));
            let i = choose|i: int|
                0 <= i < after.resident().len() && after.resident()[i] == before.resident()[k];
            lemma_held_resident(store, after, i);
            if exists|j: int|
                0 <= j < before.resident().len() && (#[trigger] before.resident()[j]).mutation_id
                    == id && !before.resident()[j].durable() {
                let j = choose|j: int|
                    0 <= j < before.resident().len() && (
                    #[trigger] before.resident()[j]).mutation_id == id
                        && !before.resident()[j].durable();
                assert(b[j] == b[k]);
                if j < k {
                    assert(b[j] < b[k]);
                }
                if k < j {
                    assert(b[k] < b[j]);
                }
                assert(!after.resident()[i].durable());
            }
        } else {
            assert forall|j: int| 0 <= j < before.resident().len() implies (
            #[trigger] before.resident()[j]).mutation_id != id by {
                assert(b[j] == before.resident()[j].mutation_id);
            }
            if a.contains(id) {
                let i = choose|i: int| 0 <= i < a.len() && a[i] == id;
                lemma_held_resident(store, after, i);
                let d = after.resident()[i];
                if before.resident().contains(d) {
                    let k = choose|k: int|
                        0 <= k < before.resident().len() && before.resident()[k] == d;
                    assert(b[k] == id);
                }
                assert(queue::offered(deltas, d));
                let j = choose|j: int|
                    0 <= j < deltas.len() && #[trigger] deltas[j] == (d.mutation_id, d.payload);
                assert(store[entry_place(deltas[j].0)] == deltas[j].1@);
            }
        }
    }
}

/// A new mutation leaves the others as they were held.
pub proof fn push_keeps_payloads(
    store: storage::Store,
    before: DeltaQueue,
    after: DeltaQueue,
    d: PendingDelta,
)
    requires
        before.wf(),
        after.wf(),
        backed(store, before),
        !d.durable(),
        !before.live().contains(d.mutation_id),
        after.resident() == before.resident().push(d),
        after.spilled() == before.spilled(),
        after.live() == before.live().insert(d.mutation_id),
    ensures
        backed(store, after),
        held(store, after, d.mutation_id) == d.payload@,
        forall|id: u64| #[trigger]
            before.live().contains(id) ==> held(store, after, id) == held(store, before, id),
{
    let n = before.resident().len() as int;
    let a = queue::resident_ids(after.resident());
    let b = queue::resident_ids(before.resident());
    assert(after.resident()[n] == d);
    lemma_held_resident(store, after, n);
    assert forall|id: u64| #[trigger] before.live().contains(id) implies held(store, after, id)
        == held(store, before, id) && backed_entry(store, after, id) by {
        assert(backed_entry(store, before, id));
        if b.contains(id) {
            let k = choose|k: int| 0 <= k < b.len() && b[k] == id;
            assert(after.resident()[k] == before.resident()[k]);
            lemma_held_resident(store, before, k);
            lemma_held_resident(store, after, k);
        } else if a.contains(id) {
            let k = choose|k: int| 0 <= k < a.len() && a[k] == id;
            if k < n {
                assert(b[k] == a[k]);
            }
        }
        if exists|j: int|
            0 <= j < before.resident().len() && (#[trigger] before.resident()[j]).mutation_id == id
                && !before.resident()[j].durable() {
            let j = choose|j: int|
                0 <= j < before.resident().len() && (#[trigger] before.resident()[j]).mutation_id
                    == id && !before.resident()[j].durable();
            assert(after.resident()[j] == before.resident()[j]);
        }
    }
    assert forall|id: u64| #[trigger] after.live().contains(id) implies backed_entry(
        store,
        after,
        id,
    ) by {
        if id != d.mutation_id {
            assert(before.live().contains(id));
        }
    }
}

/// An acknowledgement leaves the other mutations as they were held.
pub proof fn acknowledgement_keeps_payloads(
    store: storage::Store,
    before: DeltaQueue,
    after: DeltaQueue,
    acked: u64,
)
    requires
        before.wf(),
        after.wf(),
        backed(store, before),
        queue::dropped(before, after, acked),
        after.live() == before.live().remove(acked),
    ensures
        backed(store, after),
        forall|id: u64| #[trigger]
            after.live().contains(id) ==> held(store, after, id) == held(store, before, id),
{
    let a = queue::resident_ids(after.resident());
    let b = queue::resident_ids(before.resident());
    let gone = b.index_of(acked);
    assert forall|k: int|
        0 <= k < before.resident().len() && (#[trigger] before.resident()[k]).mutation_id
            != acked implies after.resident().contains(before.resident()[k]) by {
        if b.contains(acked) {
            assert(b[gone] == acked);
            if k < gone {
                assert(after.resident()[k] == before.resident()[k]);
            } else {
                assert(b[k] == before.resident()[k].mutation_id);
                assert(after.resident()[k - 1] == before.resident()[k]);
            }
        } else {
            assert(after.resident()[k] == before.resident()[k]);
        }
    }
    assert forall|id: u64| #[trigger] after.live().contains(id) implies held(store, after, id)
        == held(store, before, id) && backed_entry(store, after, id) by {
        assert(before.live().contains(id));
        assert(backed_entry(store, before, id));
        if b.contains(id) {
            let k = choose|k: int| 0 <= k < b.len() && b[k] == id;
            assert(before.resident()[k].mutation_id != acked);
            let i = choose|i: int|
                0 <= i < after.resident().len() && after.resident()[i] == before.resident()[k];
            lemma_held_resident(store, before, k);
            lemma_held_resident(store, after, i);
        } else if a.contains(id) {
            let i = choose|i: int| 0 <= i < a.len() && a[i] == id;
            if b.contains(acked) && i >= gone {
                assert(b[i + 1] == after.resident()[i].mutation_id);
            } else {
                assert(b[i] == after.resident()[i].mutation_id);
            }
        }
        if exists|j: int|
            0 <= j < before.resident().len() && (#[trigger] before.resident()[j]).mutation_id == id
                && !before.resident()[j].durable() {
            let j = choose|j: int|
                0 <= j < before.resident().len() && (#[trigger] before.resident()[j]).mutation_id
                    == id && !before.resident()[j].durable();
            let i = choose|i: int|
                0 <= i < after.resident().len() && after.resident()[i] == before.resident()[j];
            assert(after.resident()[i].mutation_id == id);
        }
    }
}

proof fn lemma_swept_is_dead(q: DeltaQueue, input: FlushInput, id: u64)
    ensures
        flush::swept(q, input).contains(id) <==> input.sync_enabled
            && input.stored_delta_ids@.contains(id) && !q.live().contains(id),
{
    let stored = input.stored_delta_ids@;
    let dead = |x: u64| !q.live().contains(x);
    lemma_filter_only(stored, dead, id);
    assert(q.retired(stored) == stored.filter(dead));
}

proof fn lemma_filter_only(s: Seq<u64>, keep: spec_fn(u64) -> bool, x: u64)
    ensures
        s.filter(keep).contains(x) <==> s.contains(x) && keep(x),
    decreases s.len(),
{
    reveal(Seq::filter);
    if s.len() > 0 {
        let head = s.drop_last();
        lemma_filter_only(head, keep, x);
        let hf = head.filter(keep);
        let f = s.filter(keep);
        if s.contains(x) {
            let i = choose|i: int| 0 <= i < s.len() && s[i] == x;
            if i < head.len() {
                assert(head[i] == x);
            }
        }
        if head.contains(x) {
            let i = choose|i: int| 0 <= i < head.len() && head[i] == x;
            assert(s[i] == x);
        }
        if keep(s.last()) {
            assert(f == hf.push(s.last()));
            if f.contains(x) {
                let i = choose|i: int| 0 <= i < f.len() && f[i] == x;
                if i < hf.len() {
                    assert(hf[i] == x);
                }
            }
            if hf.contains(x) {
                let i = choose|i: int| 0 <= i < hf.len() && hf[i] == x;
                assert(f[i] == x);
            }
            assert(f[f.len() - 1] == s.last());
        }
        assert(s[s.len() - 1] == s.last());
    }
}

/// An acknowledged mutation loses its stored entry at the next flush of a
/// store that replicates, even if it was never paged back in.
pub proof fn flush_sweeps_acknowledged(
    store: storage::Store,
    q: DeltaQueue,
    input: FlushInput,
    seal: spec_fn(Seq<u8>) -> Seq<u8>,
    id: u64,
)
    requires
        input.sync_enabled,
        input.stored_delta_ids@.contains(id),
        !q.live().contains(id),
    ensures
        !apply_flush(store, flush::flush_ops(q, input), seal).dom().contains(
            (Namespace::Crdt, keys::delta_key(id)),
        ),
{
    lemma_flush_on_entry(store, q, input, seal, id);
    lemma_swept_is_dead(q, input, id);
    let ids = queue::resident_ids(q.resident());
    assert(!ids.contains(id)) by {
        if ids.contains(id) {
            assert(ids.to_set().contains(id));
        }
    }
    lemma_not_written(q.resident(), id);
}

/// Whether a key is one of the queue's that carries no mutation.
pub open spec fn nameless(key: Seq<u8>) -> bool {
    keys::is_delta_key(key) && keys::delta_id(key) is None
}

/// A flush leaves alone what is stored under a key of the queue that carries no
/// mutation.
pub proof fn flush_leaves_nameless_keys(
    store: storage::Store,
    q: DeltaQueue,
    input: FlushInput,
    seal: spec_fn(Seq<u8>) -> Seq<u8>,
    key: Seq<u8>,
)
    requires
        nameless(key),
    ensures
        ({
            let after = apply_flush(store, flush::flush_ops(q, input), seal);
            let place = (Namespace::Crdt, key);
            &&& after.dom().contains(place) == store.dom().contains(place)
            &&& store.dom().contains(place) ==> after[place] == store[place]
        }),
{
    let place = (Namespace::Crdt, key);
    let a = flush::crdt_ops(input.crdt_writes@);
    let retired = flush::swept(q, input);
    let entries = flush::needing_write(q.resident());
    let r = flush::retired_ops(retired);
    let e = flush::entry_ops(entries);
    let b = flush::bulk_ops(retired.len() > 0 || entries.len() > 0);
    let w = seq![flush::watermark_op(q.newest())];
    let c = flush::csr_ops(input);
    let h = flush::hnsw_ops(input);
    lemma_crdt_ops_namespace(input.crdt_writes@, place);
    lemma_index_ops_namespace(input, place);
    lemma_bulk_key_is_nameless(key);
    let all = flush::flush_ops(q, input);
    assert(all =~= a + r + e + b + w + c + h);
    let ar = a.len() + r.len();
    let re = ar + e.len();
    let be = re + b.len();
    assert forall|i: int| 0 <= i < all.len() implies target(#[trigger] all[i]) != place by {
        if i < a.len() {
            assert(all[i] == a[i]);
        } else if i < ar {
            assert(all[i] == r[i - a.len()]);
            keys::delta_key_names_its_mutation(retired[i - a.len()]);
        } else if i < re {
            assert(all[i] == e[i - ar]);
            keys::delta_key_names_its_mutation(entries[i - ar].mutation_id);
        } else if i < be {
            assert(all[i] == b[i - re]);
        } else if i < be + 1 {
            assert(all[i] == w[0]);
        } else if i < be + 1 + c.len() {
            assert(all[i] == c[i - be - 1]);
        } else {
            assert(all[i] == h[i - be - 1 - c.len()]);
        }
    }
    lemma_frame(store, all, seal, place);
}

proof fn lemma_bulk_key_is_nameless(key: Seq<u8>)
    requires
        keys::is_delta_key(key),
    ensures
        encode_utf8("crdt:pending_deltas"@) != key,
{
    let bulk = "crdt:pending_deltas"@;
    let prefix = "delta:"@;
    reveal_strlit("crdt:pending_deltas");
    reveal_strlit("delta:");
    is_ascii_chars_encode_utf8(bulk);
    is_ascii_chars_encode_utf8(prefix);
    assert(encode_utf8(bulk)[0] == bulk[0] as u8);
    assert(encode_utf8(prefix)[0] == prefix[0] as u8);
    assert(key.take(encode_utf8(prefix).len() as int)[0] == key[0]);
}

/// The mutations that have a stored entry.
pub open spec fn stored_ids(store: storage::Store) -> Set<u64> {
    Set::new(
        |id: u64|
            exists|key: Seq<u8>|
                store.dom().contains((Namespace::Crdt, key)) && #[trigger] keys::delta_id(key)
                    == Some(id),
    )
}

proof fn lemma_stored_id(store: storage::Store, id: u64)
    ensures
        stored_ids(store).contains(id) == store.dom().contains(entry_place(id)),
{
    keys::delta_key_names_its_mutation(id);
    if stored_ids(store).contains(id) {
        let key = choose|key: Seq<u8>|
            store.dom().contains((Namespace::Crdt, key)) && #[trigger] keys::delta_id(key)
                == Some(id);
        keys::named_mutation_has_its_key(key);
    }
}

/// After a flush of a store that replicates, the mutations with a stored entry
/// are exactly the queued ones, resident and paged out.
pub proof fn flush_stores_exactly_the_queue(
    store: storage::Store,
    q: DeltaQueue,
    input: FlushInput,
    seal: spec_fn(Seq<u8>) -> Seq<u8>,
)
    requires
        q.wf(),
        backed(store, q),
        input.sync_enabled,
        input.stored_delta_ids@.to_set() == stored_ids(store),
    ensures
        stored_ids(apply_flush(store, flush::flush_ops(q, input), seal)) == q.live(),
{
    let after = apply_flush(store, flush::flush_ops(q, input), seal);
    assert forall|id: u64| stored_ids(after).contains(id) == q.live().contains(id) by {
        lemma_stored_id(after, id);
        lemma_stored_id(store, id);
        if q.live().contains(id) {
            flush_keeps_the_queue(store, q, input, seal, id);
        } else {
            lemma_flush_on_entry(store, q, input, seal, id);
            lemma_swept_is_dead(q, input, id);
            let ids = queue::resident_ids(q.resident());
            assert(!ids.contains(id)) by {
                if ids.contains(id) {
                    assert(ids.to_set().contains(id));
                }
            }
            lemma_not_written(q.resident(), id);
            if store.dom().contains(entry_place(id)) {
                assert(input.stored_delta_ids@.to_set().contains(id));
            }
        }
    }
    assert(stored_ids(after) =~= q.live());
}

/// A store that does not replicate deletes no stored entry of the queue. One that
/// need not be written keeps its value, and so does what is stored under a key
/// that carries no mutation.
pub proof fn flush_without_sync_deletes_no_entry(
    store: storage::Store,
    q: DeltaQueue,
    input: FlushInput,
    seal: spec_fn(Seq<u8>) -> Seq<u8>,
    key: Seq<u8>,
)
    requires
        q.wf(),
        !input.sync_enabled,
        keys::is_delta_key(key),
        store.dom().contains((Namespace::Crdt, key)),
    ensures
        ({
            let after = apply_flush(store, flush::flush_ops(q, input), seal);
            let place = (Namespace::Crdt, key);
            &&& after.dom().contains(place)
            &&& (forall|i: int|
                0 <= i < q.resident().len() && keys::delta_id(key) == Some(
                    (#[trigger] q.resident()[i]).mutation_id,
                ) ==> q.resident()[i].durable()) ==> after[place] == store[place]
        }),
{
    match keys::delta_id(key) {
        Some(id) => {
            keys::named_mutation_has_its_key(key);
            lemma_flush_on_entry(store, q, input, seal, id);
            lemma_written_payload(q.resident(), id);
            let ids = queue::resident_ids(q.resident());
            if ids.contains(id) {
                let i = choose|i: int| 0 <= i < ids.len() && ids[i] == id;
                assert(q.resident()[i].mutation_id == id);
            } else {
                lemma_not_written(q.resident(), id);
            }
        },
        None => {
            flush_leaves_nameless_keys(store, q, input, seal, key);
        },
    }
}

proof fn lemma_fresh_needs_write(resident: Seq<PendingDelta>, fresh: Seq<PendingDelta>)
    requires
        forall|i: int| 0 <= i < resident.len() ==> (#[trigger] resident[i]).durable(),
        forall|i: int| 0 <= i < fresh.len() ==> !(#[trigger] fresh[i]).durable(),
    ensures
        flush::needing_write(resident + fresh) == fresh,
    decreases fresh.len(),
{
    if fresh.len() == 0 {
        lemma_nothing_needs_write(resident);
        assert(resident + fresh =~= resident);
        assert(flush::needing_write(resident) =~= fresh);
    } else {
        let head = fresh.drop_last();
        assert forall|i: int| 0 <= i < head.len() implies !(#[trigger] head[i]).durable() by {
            assert(head[i] == fresh[i]);
        }
        lemma_fresh_needs_write(resident, head);
        assert((resident + fresh).drop_last() =~= resident + head);
        assert(!fresh[fresh.len() - 1].durable());
        assert(head.push(fresh.last()) =~= fresh);
    }
}

proof fn lemma_eviction_keeps_unwritten(resident: Seq<PendingDelta>, excess: int)
    ensures
        flush::needing_write(queue::kept(resident, excess)) == flush::needing_write(resident),
    decreases resident.len(),
{
    if resident.len() > 0 {
        let head = resident.drop_last();
        if excess > 0 && resident.last().durable() {
            lemma_eviction_keeps_unwritten(head, excess - 1);
        } else {
            lemma_eviction_keeps_unwritten(head, excess);
            let rest = queue::kept(head, excess);
            assert(rest.push(resident.last()).drop_last() =~= rest);
        }
    }
}

/// New mutations cost one entry write each, whatever the length of the queue:
/// once the edits of a flush are marked, and entries beyond the window are paged
/// out, the next flush writes an entry for each mutation that was appended since,
/// and no other. The count of writes advances by just as many.
pub proof fn new_mutations_cost_one_write_each(
    q: DeltaQueue,
    marked: Seq<PendingDelta>,
    fresh: Seq<PendingDelta>,
    later: DeltaQueue,
    input: FlushInput,
)
    requires
        q.wf(),
        marked.len() == q.resident().len(),
        forall|i: int|
            0 <= i < marked.len() ==> queue::marked(
                q.resident()[i],
                #[trigger] marked[i],
                flush::entry_edits(flush::needing_write(q.resident())),
            ),
        forall|i: int| 0 <= i < fresh.len() ==> (#[trigger] fresh[i]).persisted is None,
        later.resident() == queue::kept(marked, marked.len() - q.window()) + fresh,
    ensures
        flush::needing_write(later.resident()) == fresh,
        flush::entry_edits(flush::needing_write(later.resident())).len() == fresh.len(),
        later.writes() + fresh.len() <= u64::MAX ==> queue::counted(
            later.writes(),
            flush::entry_edits(flush::needing_write(later.resident())).len(),
        ) == later.writes() + fresh.len(),
        flush::queue_ops(later, input) == flush::retired_ops(flush::swept(later, input))
            + flush::entry_ops(fresh) + flush::bulk_ops(
            flush::swept(later, input).len() > 0 || fresh.len() > 0,
        ) + seq![flush::watermark_op(later.newest())],
        flush::entry_ops(fresh).len() == fresh.len(),
{
    flush_bounds_the_window(q, marked);
    let stay = queue::kept(marked, marked.len() - q.window());
    assert forall|i: int| 0 <= i < stay.len() implies (#[trigger] stay[i]).durable() by {
        assert(stay == marked.take(stay.len() as int));
        assert(stay[i] == marked[i]);
    }
    lemma_fresh_needs_write(stay, fresh);
}

/// Paging out changes nothing of what the next flush writes.
pub proof fn paging_out_costs_no_write(resident: Seq<PendingDelta>, window: nat)
    ensures
        flush::needing_write(queue::kept(resident, resident.len() - window))
            == flush::needing_write(resident),
{
    lemma_eviction_keeps_unwritten(resident, resident.len() - window);
}

/// A flush of a store in which nothing has changed writes no queue entry and
/// no replicated state: an idle store does not grow.
pub proof fn idle_flush_writes_no_entry(q: DeltaQueue, input: FlushInput)
    requires
        forall|i: int| 0 <= i < q.resident().len() ==> (#[trigger] q.resident()[i]).durable(),
        input.crdt_writes@.len() == 0,
        flush::swept(q, input).len() == 0,
    ensures
        flush::crdt_ops(input.crdt_writes@).len() == 0,
        flush::queue_ops(q, input) == seq![flush::watermark_op(q.newest())],
{
    lemma_nothing_needs_write(q.resident());
    assert(flush::queue_ops(q, input) =~= seq![flush::watermark_op(q.newest())]);
}

proof fn lemma_nothing_needs_write(resident: Seq<PendingDelta>)
    requires
        forall|i: int| 0 <= i < resident.len() ==> (#[trigger] resident[i]).durable(),
    ensures
        flush::needing_write(resident).len() == 0,
    decreases resident.len(),
{
    if resident.len() > 0 {
        let head = resident.drop_last();
        assert forall|i: int| 0 <= i < head.len() implies (#[trigger] head[i]).durable() by {
            assert(head[i] == resident[i]);
        }
        lemma_nothing_needs_write(head);
        assert(resident[resident.len() - 1].durable());
    }
}

/// A snapshot leaves no superseded update behind: after the batch, none of the
/// updates it contains is stored.
pub proof fn checkpoint_removes_superseded(
    store: storage::Store,
    w: CrdtWrite,
    superseded: u64,
    seq_no: u64,
    seal: spec_fn(Seq<u8>) -> Seq<u8>,
)
    requires
        w.kind == (CrdtWriteKind::Checkpoint { superseded_deltas: superseded }),
        seq_no < superseded,
    ensures
        !apply_flush(store, flush::crdt_write_ops(w), seal).dom().contains(
            (Namespace::LoroState, keys::state_delta_key(w.collection@, seq_no)),
        ),
{
    let ops = flush::crdt_write_ops(w);
    let deletes = ops.drop_last();
    lemma_update_key_is_no_snapshot(w.collection@, seq_no);
    lemma_deletes(store, w.collection@, superseded as nat, seq_no, seal, deletes);
}

/// An update and a snapshot are stored in different places.
proof fn lemma_update_key_is_no_snapshot(collection: Seq<char>, seq_no: u64)
    ensures
        keys::state_delta_key(collection, seq_no) != keys::snapshot_key(collection),
{
    let a = "loro_delta:"@;
    let b = "loro_snapshot:"@;
    reveal_strlit("loro_delta:");
    reveal_strlit("loro_snapshot:");
    is_ascii_chars_encode_utf8(a);
    is_ascii_chars_encode_utf8(b);
    assert(encode_utf8(a)[5] == a[5] as u8);
    assert(encode_utf8(b)[5] == b[5] as u8);
    assert(keys::state_delta_key(collection, seq_no)[5] == encode_utf8(a)[5]);
    assert(keys::snapshot_key(collection)[5] == encode_utf8(b)[5]);
}

proof fn lemma_deletes(
    store: storage::Store,
    collection: Seq<char>,
    n: nat,
    seq_no: u64,
    seal: spec_fn(Seq<u8>) -> Seq<u8>,
    deletes: Seq<FlushOpView>,
)
    requires
        n <= u64::MAX,
        deletes.len() == n,
        forall|i: int|
            0 <= i < n ==> #[trigger] deletes[i] == (FlushOpView::Delete {
                ns: Namespace::LoroState,
                key: keys::state_delta_key(collection, i as u64),
            }),
        seq_no < n,
    ensures
        !apply_flush(store, deletes, seal).dom().contains(
            (Namespace::LoroState, keys::state_delta_key(collection, seq_no)),
        ),
    decreases n,
{
    if n > 0 {
        assert(deletes.last() == deletes[n - 1]);
        if seq_no < n - 1 {
            lemma_deletes(store, collection, (n - 1) as nat, seq_no, seal, deletes.drop_last());
        }
    }
}

/// The last edit that a flush writes of a mutation is the one of its resident
/// entry, where that needs writing.
proof fn lemma_last_written(resident: Seq<PendingDelta>, id: u64)
    requires
        queue::ascending(queue::resident_ids(resident)),
    ensures
        forall|i: int|
            0 <= i < resident.len() && (#[trigger] resident[i]).mutation_id == id
                ==> queue::last_written(
                flush::entry_edits(flush::needing_write(resident)),
                id,
            ) == if resident[i].durable() {
                None::<u64>
            } else {
                Some(resident[i].revision)
            },
        !queue::resident_ids(resident).contains(id) ==> queue::last_written(
            flush::entry_edits(flush::needing_write(resident)),
            id,
        ) is None,
    decreases resident.len(),
{
    let ids = queue::resident_ids(resident);
    if resident.len() > 0 {
        let head = resident.drop_last();
        let last = resident.len() - 1;
        assert(queue::resident_ids(head) =~= ids.drop_last());
        assert forall|a: int, b: int| 0 <= a < b < head.len() implies #[trigger] queue::resident_ids(
            head,
        )[a] < #[trigger] queue::resident_ids(head)[b] by {
            assert(ids[a] < ids[b]);
        }
        lemma_last_written(head, id);
        let edits = flush::entry_edits(flush::needing_write(resident));
        let before = flush::entry_edits(flush::needing_write(head));
        assert(ids[last] == resident[last].mutation_id);
        if !resident[last].durable() {
            assert(edits =~= before.push((resident[last].mutation_id, resident[last].revision)));
            assert(edits.drop_last() =~= before);
        }
        if resident[last].mutation_id == id {
            if queue::resident_ids(head).contains(id) {
                let k = choose|k: int|
                    0 <= k < queue::resident_ids(head).len() && queue::resident_ids(head)[k] == id;
                assert(ids[k] == id);
                assert(ids[k] < ids[last]);
            }
            assert forall|i: int|
                0 <= i < resident.len() && (#[trigger] resident[i]).mutation_id == id implies i
                == last by {
                assert(ids[i] == id);
                if i < last {
                    assert(ids[i] < ids[last]);
                }
            }
            assert(ids.contains(ids[last]));
        } else {
            assert forall|i: int|
                0 <= i < resident.len() && (#[trigger] resident[i]).mutation_id == id implies (i
                < last && head[i] == resident[i]) by {}
            if queue::resident_ids(head).contains(id) {
                let k = choose|k: int|
                    0 <= k < queue::resident_ids(head).len() && queue::resident_ids(head)[k] == id;
                assert(ids[k] == id);
                assert(ids.contains(id));
            }
        }
    }
}

/// A flush bounds the memory that the queue takes: once the edits that it wrote
/// are marked, every entry is durable, and paging out leaves no more entries
/// than the window, the oldest ones.
pub proof fn flush_bounds_the_window(q: DeltaQueue, marked: Seq<PendingDelta>)
    requires
        q.wf(),
        marked.len() == q.resident().len(),
        forall|i: int|
            0 <= i < marked.len() ==> queue::marked(
                q.resident()[i],
                #[trigger] marked[i],
                flush::entry_edits(flush::needing_write(q.resident())),
            ),
    ensures
        forall|i: int| 0 <= i < marked.len() ==> (#[trigger] marked[i]).durable(),
        queue::kept(marked, marked.len() - q.window()).len() <= q.window(),
        queue::kept(marked, marked.len() - q.window()).is_prefix_of(marked),
{
    assert forall|i: int| 0 <= i < marked.len() implies (#[trigger] marked[i]).durable() by {
        lemma_last_written(q.resident(), q.resident()[i].mutation_id);
        assert(queue::marked(
            q.resident()[i],
            marked[i],
            flush::entry_edits(flush::needing_write(q.resident())),
        ));
    }
    queue::eviction_bounds_the_window(marked, q.window());
}

} // verus!
