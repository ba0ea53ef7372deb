//! What holds of document and vector writes taken together.
use crate::document::batch;
use crate::document::batch::BatchItem;
use crate::document::plan;
use crate::document::plan::{DocumentPut, VectorPart};
use crate::steps;
use crate::steps::{RowView, StepView};
use crate::vector::writes;
use crate::vector::writes::VectorPut;
use vstd::prelude::*;

verus! {

/// Whether a step puts the vector of a document into an index in memory.
pub open spec fn indexes(step: StepView, index: Seq<char>, id: Seq<char>) -> bool {
    match step {
        StepView::InsertNode { index: k, id: d, .. } => k == index && d == id,
        StepView::ReplaceNode { index: k, id: d, .. } => k == index && d == id,
        _ => false,
    }
}

/// Whether every vector of positive dimension is written to the store before it
/// goes into an index in memory.
pub open spec fn durable_first(all: Seq<StepView>) -> bool {
    forall|i: int, index: Seq<char>, id: Seq<char>|
        0 <= i < all.len() && #[trigger] indexes(all[i], index, id) ==> stored_before(
            all,
            i,
            index,
            id,
        )
}

/// Whether the vector of a document is written before the step `i`.
pub open spec fn stored_before(
    all: Seq<StepView>,
    i: int,
    index: Seq<char>,
    id: Seq<char>,
) -> bool {
    exists|j: int| 0 <= j < i && #[trigger] all[j] == (StepView::PutVector { index, id })
}

/// A document put with a vector makes the vector durable before it indexes it:
/// after a crash the index can be missing a vector, the store cannot.
pub proof fn put_is_durable_first(p: DocumentPut, v: VectorPart)
    ensures
        durable_first(plan::put_with_vector_steps(p, v)),
{
    let all = plan::put_with_vector_steps(p, v);
    assert forall|i: int, index: Seq<char>, id: Seq<char>|
        0 <= i < all.len() && #[trigger] indexes(all[i], index, id) implies stored_before(
        all,
        i,
        index,
        id,
    ) by {
        assert(v.dim > 0);
        let a: int = if p.sync {
            1
        } else {
            2
        };
        let b: int = if p.bitemporal {
            a + 1
        } else {
            a
        };
        assert(all[b] == (StepView::PutVector { index: v.collection@, id: v.id@ }));
        assert(b < i);
    }
}

proof fn lemma_stored_grows(
    all: Seq<StepView>,
    more: Seq<StepView>,
    i: int,
    index: Seq<char>,
    id: Seq<char>,
)
    requires
        0 <= i <= all.len(),
        stored_before(all, i, index, id),
    ensures
        stored_before(all + more, i, index, id),
{
    let j = choose|j: int|
        0 <= j < i && #[trigger] all[j] == (StepView::PutVector { index, id });
    assert((all + more)[j] == all[j]);
}

proof fn lemma_item_durable_first(
    item: BatchItem,
    doc_id: Seq<char>,
    now_ms: i64,
    outbound: bool,
)
    ensures
        durable_first(batch::item_steps(item, doc_id, now_ms, outbound)),
{
    let all = batch::item_steps(item, doc_id, now_ms, outbound);
    assert forall|i: int, index: Seq<char>, id: Seq<char>|
        0 <= i < all.len() && #[trigger] indexes(all[i], index, id) implies stored_before(
        all,
        i,
        index,
        id,
    ) by {
        let b: int = if item.bitemporal {
            1
        } else {
            0
        };
        assert(batch::item_dim(item) > 0);
        assert(all[b] == (StepView::PutVector {
            index: item.vector_collection@,
            id: item.id@,
        }));
        assert(b < i);
    }
}

proof fn lemma_durable_joined(a: Seq<StepView>, b: Seq<StepView>)
    requires
        durable_first(a),
        durable_first(b),
    ensures
        durable_first(a + b),
{
    let all = a + b;
    assert forall|i: int, index: Seq<char>, id: Seq<char>|
        0 <= i < all.len() && #[trigger] indexes(all[i], index, id) implies stored_before(
        all,
        i,
        index,
        id,
    ) by {
        if i < a.len() {
            assert(indexes(a[i], index, id));
            lemma_stored_grows(a, b, i, index, id);
        } else {
            let k = i - a.len();
            assert(indexes(b[k], index, id));
            let j = choose|j: int|
                0 <= j < k && #[trigger] b[j] == (StepView::PutVector { index, id });
            assert(all[a.len() + j] == b[j]);
        }
    }
}

proof fn lemma_items_durable_first(
    items: Seq<BatchItem>,
    ids: Seq<Seq<char>>,
    now_ms: i64,
    outbound: bool,
)
    ensures
        durable_first(batch::items_steps(items, ids, now_ms, outbound)),
    decreases items.len(),
{
    if items.len() > 0 {
        lemma_items_durable_first(items.drop_last(), ids.drop_last(), now_ms, outbound);
        lemma_item_durable_first(items.last(), ids.last(), now_ms, outbound);
        lemma_durable_joined(
            batch::items_steps(items.drop_last(), ids.drop_last(), now_ms, outbound),
            batch::item_steps(items.last(), ids.last(), now_ms, outbound),
        );
    }
}

/// A batch makes every vector durable before it indexes it.
pub proof fn batch_is_durable_first(
    items: Seq<BatchItem>,
    ids: Seq<Seq<char>>,
    now_ms: i64,
    outbound: bool,
)
    ensures
        durable_first(batch::batch_steps(items, ids, now_ms, outbound)),
{
    if items.len() > 0 {
        let head = batch::rows_steps(items, ids);
        let body = batch::items_steps(items, ids, now_ms, outbound);
        let tail = steps::when(batch::any_vector(items), StepView::UpdateMemoryStats);
        assert(durable_first(head));
        assert(durable_first(tail));
        lemma_items_durable_first(items, ids, now_ms, outbound);
        lemma_durable_joined(head, body);
        lemma_durable_joined(head + body, tail);
    }
}

/// A vector insert makes the vector durable before it indexes it.
pub proof fn insert_is_durable_first(p: VectorPut, field: Seq<char>)
    requires
        p.dim > 0,
    ensures
        durable_first(writes::insert_vector_steps(p)),
        durable_first(writes::insert_field_steps(p, field)),
{
    let all = writes::insert_vector_steps(p);
    assert forall|i: int, index: Seq<char>, id: Seq<char>|
        0 <= i < all.len() && #[trigger] indexes(all[i], index, id) implies stored_before(
        all,
        i,
        index,
        id,
    ) by {
        assert(all[0] == (StepView::PutVector { index: p.collection@, id: p.id@ }));
        assert(0 < i);
    }
    let named = writes::insert_field_steps(p, field);
    assert forall|i: int, index: Seq<char>, id: Seq<char>|
        0 <= i < named.len() && #[trigger] indexes(named[i], index, id) implies stored_before(
        named,
        i,
        index,
        id,
    ) by {
        assert(named[0] == (StepView::PutVector {
            index: crate::vector::state::index_key_of(p.collection@, field),
            id: p.id@,
        }));
        assert(0 < i);
    }
}

/// Whether a step queues something for synchronisation.
pub open spec fn outbound_step(step: StepView) -> bool {
    match step {
        StepView::EnqueueInsert { .. } => true,
        StepView::IndexText { sync, .. } => sync,
        _ => false,
    }
}

/// Whether steps write rows, drop their deltas at once, and queue nothing for
/// synchronisation.
pub open spec fn stays_local(all: Seq<StepView>) -> bool {
    all[0] is UpsertRows && all[1] is DropPending && forall|i: int|
        0 <= i < all.len() ==> !outbound_step(#[trigger] all[i])
}

/// A document that is not synchronised leaves nothing for synchronisation: its
/// deltas are dropped right after they are made, and neither its vector nor the
/// change of its text index is queued.
pub proof fn local_documents_stay_local(
    p: DocumentPut,
    v: VectorPart,
    from: Option<i64>,
    until: Option<i64>,
)
    requires
        !p.sync,
    ensures
        stays_local(plan::put_steps(p)),
        stays_local(plan::put_valid_steps(p, from, until)),
        stays_local(plan::put_with_vector_steps(p, v)),
{
}

/// How many items have a vector.
pub open spec fn vectors_in(items: Seq<BatchItem>) -> nat
    decreases items.len(),
{
    if items.len() == 0 {
        0
    } else {
        vectors_in(items.drop_last()) + if batch::item_dim(items.last()) > 0 {
            1nat
        } else {
            0nat
        }
    }
}

/// A batch writes one row for each document and one for each vector.
pub proof fn batch_writes_one_row_each(items: Seq<BatchItem>, ids: Seq<Seq<char>>)
    ensures
        batch::batch_rows(items, ids).len() == items.len() + vectors_in(items),
    decreases items.len(),
{
    if items.len() > 0 {
        batch_writes_one_row_each(items.drop_last(), ids.drop_last());
    }
}

/// Where the rows of the item `k` begin among the rows of a batch.
pub open spec fn first_row(items: Seq<BatchItem>, k: int) -> nat {
    (k + vectors_in(items.take(k))) as nat
}

/// Whether two items of a batch write the same vector or the same document.
pub open spec fn overlaps(a: BatchItem, a_id: Seq<char>, b: BatchItem, b_id: Seq<char>) -> bool {
    (a.vector_collection@ == b.vector_collection@ && a.id@ == b.id@) || (a.doc_collection@
        == b.doc_collection@ && a_id == b_id)
}

/// Whether a step queues the vector of an item, or the change of the text index
/// for its document.
pub open spec fn queues(step: StepView, item: BatchItem, doc_id: Seq<char>) -> bool {
    match step {
        StepView::EnqueueInsert { collection, id, .. } => collection == item.vector_collection@
            && id == item.id@,
        StepView::IndexText { collection, id, sync, .. } => sync && collection == item.doc_collection@
            && id == doc_id,
        _ => false,
    }
}

/// Whether no synchronised item writes the vector or the document of an item.
pub open spec fn alone(
    items: Seq<BatchItem>,
    ids: Seq<Seq<char>>,
    item: BatchItem,
    doc_id: Seq<char>,
) -> bool {
    forall|k: int|
        0 <= k < items.len() && overlaps(#[trigger] items[k], ids[k], item, doc_id)
            ==> !items[k].sync
}

proof fn lemma_local_rows(items: Seq<BatchItem>, ids: Seq<Seq<char>>, k: int)
    requires
        0 <= k < items.len(),
        ids.len() == items.len(),
        batch::batch_rows(items, ids).len() <= usize::MAX,
    ensures
        !items[k].sync ==> batch::local_rows(items, ids).contains(first_row(items, k) as usize),
        !items[k].sync && batch::item_dim(items[k]) > 0 ==> batch::local_rows(items, ids).contains(
            (first_row(items, k) + 1) as usize,
        ),
        first_row(items, k) < batch::batch_rows(items, ids).len(),
        batch::batch_rows(items, ids)[first_row(items, k) as int] == plan::document_row(
            items[k].doc_collection@,
            ids[k],
            items[k].fields@,
        ),
        batch::item_dim(items[k]) > 0 ==> first_row(items, k) + 1 < batch::batch_rows(
            items,
            ids,
        ).len() && batch::batch_rows(items, ids)[first_row(items, k) as int + 1]
            == plan::dimension_row(
            items[k].vector_collection@,
            items[k].id@,
            batch::item_dim(items[k]),
        ),
    decreases items.len(),
{
    let less = items.drop_last();
    let fewer = ids.drop_last();
    let all = batch::local_rows(items, ids);
    let before = batch::local_rows(less, fewer);
    let n = batch::batch_rows(less, fewer).len();
    batch_writes_one_row_each(less, fewer);
    if k == items.len() - 1 {
        assert(items.take(k) =~= less);
        assert(first_row(items, k) == n);
        if !items[k].sync {
            assert(all[before.len() as int] == n as usize);
            if batch::item_dim(items[k]) > 0 {
                assert(all[before.len() as int + 1] == (n + 1) as usize);
            }
        }
    } else {
        assert(less.take(k) =~= items.take(k));
        lemma_local_rows(less, fewer, k);
        assert forall|place: usize| before.contains(place) implies all.contains(place) by {
            let j = before.index_of(place);
            assert(all[j] == place);
        }
    }
}

proof fn lemma_local_rows_only(items: Seq<BatchItem>, ids: Seq<Seq<char>>, j: int)
    requires
        0 <= j < batch::local_rows(items, ids).len(),
        ids.len() == items.len(),
        batch::batch_rows(items, ids).len() <= usize::MAX,
    ensures
        exists|k: int|
            0 <= k < items.len() && !(#[trigger] items[k]).sync && (batch::local_rows(items, ids)[j]
                == first_row(items, k) || (batch::item_dim(items[k]) > 0 && batch::local_rows(
                items,
                ids,
            )[j] == first_row(items, k) + 1)),
    decreases items.len(),
{
    let less = items.drop_last();
    let fewer = ids.drop_last();
    let before = batch::local_rows(less, fewer);
    batch_writes_one_row_each(less, fewer);
    if j < before.len() {
        lemma_local_rows_only(less, fewer, j);
        let k = choose|k: int|
            0 <= k < less.len() && !(#[trigger] less[k]).sync && (before[j] == first_row(less, k)
                || (batch::item_dim(less[k]) > 0 && before[j] == first_row(less, k) + 1));
        assert(less.take(k) =~= items.take(k));
        assert(!items[k].sync);
    } else {
        let k = items.len() - 1;
        assert(items.take(k) =~= less);
        assert(!items[k].sync);
    }
}

proof fn lemma_local_items_queue_nothing(
    items: Seq<BatchItem>,
    ids: Seq<Seq<char>>,
    now_ms: i64,
    outbound: bool,
    item: BatchItem,
    doc_id: Seq<char>,
)
    requires
        ids.len() == items.len(),
        alone(items, ids, item, doc_id),
    ensures
        forall|i: int|
            0 <= i < batch::items_steps(items, ids, now_ms, outbound).len() ==> !queues(
                #[trigger] batch::items_steps(items, ids, now_ms, outbound)[i],
                item,
                doc_id,
            ),
    decreases items.len(),
{
    if items.len() > 0 {
        let less = items.drop_last();
        let fewer = ids.drop_last();
        assert forall|k: int|
            0 <= k < less.len() && overlaps(
                #[trigger] less[k],
                fewer[k],
                item,
                doc_id,
            ) implies !less[k].sync by {
            assert(items[k] == less[k] && ids[k] == fewer[k]);
        }
        lemma_local_items_queue_nothing(less, fewer, now_ms, outbound, item, doc_id);
        let last = items.len() - 1;
        assert(items[last] == items.last() && ids[last] == ids.last());
        let all = batch::items_steps(items, ids, now_ms, outbound);
        let before = batch::items_steps(less, fewer, now_ms, outbound);
        let own = batch::item_steps(items.last(), ids.last(), now_ms, outbound);
        assert(overlaps(items[last], ids[last], item, doc_id) ==> !items[last].sync);
        assert forall|i: int| 0 <= i < all.len() implies !queues(
            #[trigger] all[i],
            item,
            doc_id,
        ) by {
            if i < before.len() {
                assert(all[i] == before[i]);
            } else {
                assert(all[i] == own[i - before.len()]);
            }
        }
    }
}

/// An item of a batch that is not synchronised leaves nothing for
/// synchronisation: right after the rows are written, the deltas of just the
/// rows of such items are dropped, and neither its vector nor the change of its
/// text index is queued, unless a synchronised item writes the same.
pub proof fn local_items_stay_local(
    items: Seq<BatchItem>,
    ids: Seq<Seq<char>>,
    now_ms: i64,
    outbound: bool,
    k: int,
)
    requires
        0 <= k < items.len(),
        ids.len() == items.len(),
        !items[k].sync,
        batch::batch_rows(items, ids).len() <= usize::MAX,
    ensures
        batch::batch_steps(items, ids, now_ms, outbound)[0] == (StepView::UpsertRows {
            rows: batch::batch_rows(items, ids),
        }),
        batch::batch_steps(items, ids, now_ms, outbound)[1] == (StepView::DropPendingRows {
            places: batch::local_rows(items, ids),
        }),
        batch::local_rows(items, ids).contains(first_row(items, k) as usize),
        batch::item_dim(items[k]) > 0 ==> batch::local_rows(items, ids).contains(
            (first_row(items, k) + 1) as usize,
        ),
        batch::batch_rows(items, ids)[first_row(items, k) as int] == plan::document_row(
            items[k].doc_collection@,
            ids[k],
            items[k].fields@,
        ),
        batch::item_dim(items[k]) > 0 ==> batch::batch_rows(items, ids)[first_row(items, k) as int
            + 1] == plan::dimension_row(
            items[k].vector_collection@,
            items[k].id@,
            batch::item_dim(items[k]),
        ),
        forall|j: int|
            0 <= j < batch::local_rows(items, ids).len() ==> exists|m: int|
                0 <= m < items.len() && !(#[trigger] items[m]).sync && (
                #[trigger] batch::local_rows(items, ids)[j] == first_row(items, m) || (
                batch::item_dim(items[m]) > 0 && batch::local_rows(items, ids)[j] == first_row(
                    items,
                    m,
                ) + 1)),
        alone(items, ids, items[k], ids[k]) ==> (forall|i: int|
            0 <= i < batch::batch_steps(items, ids, now_ms, outbound).len() ==> !queues(
                #[trigger] batch::batch_steps(items, ids, now_ms, outbound)[i],
                items[k],
                ids[k],
            )),
{
    lemma_local_rows(items, ids, k);
    let local = batch::local_rows(items, ids);
    assert(local.len() > 0);
    assert forall|j: int| 0 <= j < local.len() implies exists|m: int|
        0 <= m < items.len() && !(#[trigger] items[m]).sync && (#[trigger] local[j] == first_row(
            items,
            m,
        ) || (batch::item_dim(items[m]) > 0 && local[j] == first_row(items, m) + 1)) by {
        lemma_local_rows_only(items, ids, j);
    }
    if alone(items, ids, items[k], ids[k]) {
        lemma_local_items_queue_nothing(items, ids, now_ms, outbound, items[k], ids[k]);
        let head = batch::rows_steps(items, ids);
        let body = batch::items_steps(items, ids, now_ms, outbound);
        let all = batch::batch_steps(items, ids, now_ms, outbound);
        assert forall|i: int| 0 <= i < all.len() implies !queues(
            #[trigger] all[i],
            items[k],
            ids[k],
        ) by {
            if head.len() <= i < head.len() + body.len() {
                assert(all[i] == body[i - head.len()]);
            }
        }
    }
}

/// A delete in a bitemporal collection keeps the document: it appends a
/// tombstone and removes no row.
pub proof fn bitemporal_delete_keeps_history(
    collection: Seq<char>,
    id: Seq<char>,
    system_ms: i64,
    wall_ms: i64,
)
    ensures
        forall|i: int|
            0 <= i < plan::delete_steps(collection, id, true, system_ms, wall_ms).len() ==> !(
            #[trigger] plan::delete_steps(collection, id, true, system_ms, wall_ms)[i] is DeleteRow),
        plan::delete_steps(collection, id, true, system_ms, wall_ms)[0] is AppendTombstone,
{
}

/// Whether steps write a document under an identifier, append it to its history,
/// and index its text, all with the same fields.
pub open spec fn keeps_together(
    all: Seq<StepView>,
    collection: Seq<char>,
    id: Seq<char>,
    fields: Seq<(Seq<char>, nodedb_types::Value)>,
) -> bool {
    &&& all[0] matches StepView::UpsertRows { rows } && rows[0] == (RowView {
        collection,
        id,
        fields,
    })
    &&& exists|i: int|
        0 <= i < all.len() && (#[trigger] all[i] matches StepView::AppendVersion {
            collection: c,
            id: d,
            fields: f,
            ..
        } && c == collection && d == id && f == fields)
    &&& exists|i: int|
        0 <= i < all.len() && (#[trigger] all[i] matches StepView::IndexText {
            collection: c,
            id: d,
            fields: f,
            ..
        } && c == collection && d == id && f == fields)
}

/// A put into a bitemporal collection gives the store, the history and the text
/// index the same document.
pub proof fn history_holds_the_document(
    p: DocumentPut,
    v: VectorPart,
    from: Option<i64>,
    until: Option<i64>,
)
    requires
        p.bitemporal,
    ensures
        keeps_together(plan::put_steps(p), p.collection@, p.id@, steps::named_view(p.fields@)),
        keeps_together(
            plan::put_valid_steps(p, from, until),
            p.collection@,
            p.id@,
            steps::named_view(p.fields@),
        ),
        keeps_together(
            plan::put_with_vector_steps(p, v),
            p.collection@,
            p.id@,
            steps::named_view(p.fields@),
        ),
{
    let n: int = if p.sync {
        1
    } else {
        2
    };
    let put = plan::put_steps(p);
    let valid = plan::put_valid_steps(p, from, until);
    let with = plan::put_with_vector_steps(p, v);
    let m: int = if v.dim > 0 {
        n + 2
    } else {
        n + 1
    };
    assert(put[n] is AppendVersion && put[n + 1] is IndexText);
    assert(valid[n] is AppendVersion && valid[n + 1] is IndexText);
    assert(with[n] is AppendVersion && with[m] is IndexText);
}

} // verus!
