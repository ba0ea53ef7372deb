//! What a flush saves of the engines.
use crate::bytes;
use crate::error::LiteError;
use crate::persist::flush;
use crate::persist::flush::{CrdtWrite, CrdtWriteKind, FlushInput, FlushOpView, FlushPlan};
use crate::persist::keys;
use crate::persist::queue::DeltaQueue;
use crate::storage::Namespace;
use vstd::prelude::*;
use vstd::utf8::encode_utf8;

verus! {

/// Whether writes set a sealed value.
pub open spec fn seals(
    ops: Seq<FlushOpView>,
    ns: Namespace,
    key: Seq<u8>,
    value: Seq<u8>,
) -> bool {
    ops.contains(FlushOpView::PutSealed { ns, key, value })
}

/// The key that the replicated state of a collection is saved under.
pub open spec fn state_key(w: CrdtWrite) -> Seq<u8> {
    match w.kind {
        CrdtWriteKind::Checkpoint { .. } => keys::snapshot_key(w.collection@),
        CrdtWriteKind::Delta { seq_no } => keys::state_delta_key(w.collection@, seq_no),
    }
}

proof fn lemma_in_first(a: Seq<FlushOpView>, b: Seq<FlushOpView>, op: FlushOpView)
    requires
        a.contains(op),
    ensures
        (a + b).contains(op),
{
    let i = choose|i: int| 0 <= i < a.len() && a[i] == op;
    assert((a + b)[i] == op);
}

proof fn lemma_in_second(a: Seq<FlushOpView>, b: Seq<FlushOpView>, op: FlushOpView)
    requires
        b.contains(op),
    ensures
        (a + b).contains(op),
{
    let i = choose|i: int| 0 <= i < b.len() && b[i] == op;
    assert((a + b)[a.len() + i] == op);
}

proof fn lemma_states(writes: Seq<CrdtWrite>, i: int)
    requires
        0 <= i < writes.len(),
    ensures
        seals(
            flush::crdt_ops(writes),
            Namespace::LoroState,
            state_key(writes[i]),
            writes[i].bytes@,
        ),
    decreases writes.len(),
{
    let op = FlushOpView::PutSealed {
        ns: Namespace::LoroState,
        key: state_key(writes[i]),
        value: writes[i].bytes@,
    };
    let head = flush::crdt_ops(writes.drop_last());
    let tail = flush::crdt_write_ops(writes.last());
    if i == writes.len() - 1 {
        assert(tail[tail.len() - 1] == op);
        lemma_in_second(head, tail, op);
    } else {
        assert(writes.drop_last()[i] == writes[i]);
        lemma_states(writes.drop_last(), i);
        lemma_in_first(head, tail, op);
    }
}

proof fn lemma_blobs(csr: Seq<(String, Option<Vec<u8>>)>, i: int)
    requires
        0 <= i < csr.len(),
        csr[i].1 is Some,
    ensures
        seals(
            flush::csr_blob_ops(csr),
            Namespace::Graph,
            encode_utf8("csr:"@ + csr[i].0@),
            csr[i].1->0@,
        ),
        flush::csr_segment_list(csr).contains((csr[i].0@, csr[i].1->0@)),
    decreases csr.len(),
{
    let op = FlushOpView::PutSealed {
        ns: Namespace::Graph,
        key: encode_utf8("csr:"@ + csr[i].0@),
        value: csr[i].1->0@,
    };
    let pair = (csr[i].0@, csr[i].1->0@);
    let rest = csr.drop_last();
    let ops = flush::csr_blob_ops(csr);
    let list = flush::csr_segment_list(csr);
    if i == csr.len() - 1 {
        assert(ops[ops.len() - 1] == op);
        assert(list[list.len() - 1] == pair);
    } else {
        assert(rest[i] == csr[i]);
        lemma_blobs(rest, i);
        let before = flush::csr_blob_ops(rest);
        let listed = flush::csr_segment_list(rest);
        let a = choose|a: int| 0 <= a < before.len() && before[a] == op;
        assert(ops[a] == op);
        let b = choose|b: int| 0 <= b < listed.len() && listed[b] == pair;
        assert(list[b] == pair);
    }
}

/// A flush saves, sealed and under its own key, the state of every collection
/// that moved, every vector index and every adjacency index that has an image,
/// the last in a segment where segments hold them. It records the newest queued
/// mutation.
pub proof fn flush_saves_every_engine(
    queue: &DeltaQueue,
    input: &FlushInput,
    r: Result<FlushPlan, LiteError>,
)
    requires
        call_ensures(flush::flush, (queue, input), r),
    ensures
        r is Ok,
        ({
            let p = r->Ok_0;
            let ops = flush::flush_view(p.ops@);
            &&& forall|i: int|
                0 <= i < input.crdt_writes@.len() ==> seals(
                    ops,
                    Namespace::LoroState,
                    state_key(#[trigger] input.crdt_writes@[i]),
                    input.crdt_writes@[i].bytes@,
                )
            &&& forall|i: int|
                0 <= i < input.hnsw@.len() ==> seals(
                    ops,
                    Namespace::Vector,
                    encode_utf8("hnsw:"@ + (#[trigger] input.hnsw@[i]).0@),
                    input.hnsw@[i].1@,
                )
            &&& !input.csr_in_segments ==> forall|i: int|
                0 <= i < input.csr@.len() && (#[trigger] input.csr@[i]).1 is Some ==> seals(
                    ops,
                    Namespace::Graph,
                    encode_utf8("csr:"@ + input.csr@[i].0@),
                    input.csr@[i].1->0@,
                )
            &&& input.csr_in_segments ==> forall|i: int|
                0 <= i < input.csr@.len() && (#[trigger] input.csr@[i]).1 is Some
                    ==> p.csr_segments@.map_values(
                    |e: (String, Vec<u8>)| (e.0@, e.1@),
                ).contains((input.csr@[i].0@, input.csr@[i].1->0@))
            &&& ops.contains(
                FlushOpView::Put {
                    ns: Namespace::Meta,
                    key: encode_utf8("meta:last_flushed_mid"@),
                    value: bytes::le64(queue.newest()),
                },
            )
        }),
{
    let p = r->Ok_0;
    let a = flush::crdt_ops(input.crdt_writes@);
    let b = flush::queue_ops(*queue, *input);
    let c = flush::csr_ops(*input);
    let d = flush::hnsw_ops(*input);
    assert forall|i: int| 0 <= i < input.crdt_writes@.len() implies seals(
        a + b + c + d,
        Namespace::LoroState,
        state_key(#[trigger] input.crdt_writes@[i]),
        input.crdt_writes@[i].bytes@,
    ) by {
        let w = input.crdt_writes@[i];
        let op = FlushOpView::PutSealed {
            ns: Namespace::LoroState,
            key: state_key(w),
            value: w.bytes@,
        };
        lemma_states(input.crdt_writes@, i);
        lemma_in_first(a, b, op);
        lemma_in_first(a + b, c, op);
        lemma_in_first(a + b + c, d, op);
    }
    assert forall|i: int| 0 <= i < input.hnsw@.len() implies seals(
        a + b + c + d,
        Namespace::Vector,
        encode_utf8("hnsw:"@ + (#[trigger] input.hnsw@[i]).0@),
        input.hnsw@[i].1@,
    ) by {
        let op = FlushOpView::PutSealed {
            ns: Namespace::Vector,
            key: encode_utf8("hnsw:"@ + input.hnsw@[i].0@),
            value: input.hnsw@[i].1@,
        };
        assert(d[2 + i] == op);
        lemma_in_second(a + b + c, d, op);
    }
    assert forall|i: int|
        !input.csr_in_segments && 0 <= i < input.csr@.len() && (
        #[trigger] input.csr@[i]).1 is Some implies seals(
        a + b + c + d,
        Namespace::Graph,
        encode_utf8("csr:"@ + input.csr@[i].0@),
        input.csr@[i].1->0@,
    ) by {
        let op = FlushOpView::PutSealed {
            ns: Namespace::Graph,
            key: encode_utf8("csr:"@ + input.csr@[i].0@),
            value: input.csr@[i].1->0@,
        };
        lemma_blobs(input.csr@, i);
        let head = c.take(1);
        assert(c =~= head + flush::csr_blob_ops(input.csr@));
        lemma_in_second(head, flush::csr_blob_ops(input.csr@), op);
        lemma_in_second(a + b, c, op);
        lemma_in_first(a + b + c, d, op);
    }
    assert forall|i: int|
        input.csr_in_segments && 0 <= i < input.csr@.len() && (
        #[trigger] input.csr@[i]).1 is Some implies flush::csr_segment_list(input.csr@).contains(
        (input.csr@[i].0@, input.csr@[i].1->0@),
    ) by {
        lemma_blobs(input.csr@, i);
    }
    let mark = FlushOpView::Put {
        ns: Namespace::Meta,
        key: encode_utf8("meta:last_flushed_mid"@),
        value: bytes::le64(queue.newest()),
    };
    assert(b[b.len() - 1] == mark);
    lemma_in_second(a, b, mark);
    lemma_in_first(a + b, c, mark);
    lemma_in_first(a + b + c, d, mark);
}

} // verus!
