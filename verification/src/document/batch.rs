//! Puts of many documents with their vectors.
//!
//! The rows of the whole batch go to the replicated store under one lock, each
//! with a delta of its own. The deltas of the items that stay local are dropped
//! at once. The rest happens item by item afterwards.
use crate::document::plan;
use crate::error::{ErrorView, LiteError};
use crate::health::PressureLevel;
use crate::steps;
use crate::steps::{CrdtRow, RowView, Step, StepView};
use crate::value::names_view;
use vstd::prelude::*;

verus! {

/// One item of a batch.
#[derive(Debug)]
pub struct BatchItem<'a> {
    /// The collection of the document.
    pub doc_collection: &'a str,
    /// The document, empty where it has no identifier yet.
    pub doc_id: &'a str,
    /// The fields of the document.
    pub fields: &'a [(String, nodedb_types::Value)],
    /// The collection of the vector.
    pub vector_collection: &'a str,
    /// The document that the vector is of.
    pub id: &'a str,
    /// The dimension of the vector, where there is one.
    pub embedding: Option<usize>,
    /// Whether the document is synchronised.
    pub sync: bool,
    /// Whether the collection of the document is bitemporal.
    pub bitemporal: bool,
}

/// The dimension of an item's vector, zero for no vector.
pub open spec fn item_dim(item: BatchItem) -> usize {
    match item.embedding {
        Some(d) => d,
        None => 0,
    }
}

/// Whether a document of an identifier may be written under another: its own,
/// or any that is not empty where it has none.
pub open spec fn resolves(id: Seq<char>, resolved: Seq<char>) -> bool {
    resolved.len() > 0 && (id.len() > 0 ==> resolved == id)
}

/// Whether the documents of the items may be written under these identifiers.
pub open spec fn resolves_all(items: Seq<BatchItem>, ids: Seq<Seq<char>>) -> bool {
    ids.len() == items.len() && forall|i: int|
        0 <= i < items.len() ==> resolves((#[trigger] items[i]).doc_id@, ids[i])
}

/// The rows of several items: each document, followed by the dimension of its
/// vector where it has one.
pub open spec fn batch_rows(items: Seq<BatchItem>, ids: Seq<Seq<char>>) -> Seq<RowView>
    decreases items.len(),
{
    if items.len() == 0 {
        Seq::empty()
    } else {
        let item = items.last();
        let before = batch_rows(items.drop_last(), ids.drop_last()).push(
            plan::document_row(item.doc_collection@, ids.last(), item.fields@),
        );
        if item_dim(item) > 0 {
            before.push(
                plan::dimension_row(item.vector_collection@, item.id@, item_dim(item)),
            )
        } else {
            before
        }
    }
}

/// The places, among the rows, of those of the items that stay local.
pub open spec fn local_rows(items: Seq<BatchItem>, ids: Seq<Seq<char>>) -> Seq<usize>
    decreases items.len(),
{
    if items.len() == 0 {
        Seq::empty()
    } else {
        let item = items.last();
        let before = local_rows(items.drop_last(), ids.drop_last());
        let n = batch_rows(items.drop_last(), ids.drop_last()).len();
        if item.sync {
            before
        } else if item_dim(item) > 0 {
            before.push(n as usize).push((n + 1) as usize)
        } else {
            before.push(n as usize)
        }
    }
}

/// The steps of one item after the rows are written.
pub open spec fn item_steps(
    item: BatchItem,
    doc_id: Seq<char>,
    now_ms: i64,
    outbound: bool,
) -> Seq<StepView> {
    let dim = item_dim(item);
    steps::when(
        item.bitemporal,
        StepView::AppendVersion {
            collection: item.doc_collection@,
            id: doc_id,
            fields: steps::named_view(item.fields@),
            system_ms: now_ms,
            valid_from_ms: None,
            valid_until_ms: None,
        },
    ) + steps::when(
        dim > 0,
        StepView::PutVector { index: item.vector_collection@, id: item.id@ },
    ) + seq![
        StepView::IndexText {
            collection: item.doc_collection@,
            id: doc_id,
            fields: steps::named_view(item.fields@),
            sync: item.sync,
        },
    ] + steps::when(
        dim > 0,
        StepView::InsertNode { index: item.vector_collection@, id: item.id@, dim },
    ) + steps::when(
        dim > 0 && item.sync && outbound,
        StepView::EnqueueInsert {
            collection: item.vector_collection@,
            id: item.id@,
            dim,
            field: ""@,
        },
    )
}

/// The steps of several items, in order.
pub open spec fn items_steps(
    items: Seq<BatchItem>,
    ids: Seq<Seq<char>>,
    now_ms: i64,
    outbound: bool,
) -> Seq<StepView>
    decreases items.len(),
{
    if items.len() == 0 {
        Seq::empty()
    } else {
        items_steps(items.drop_last(), ids.drop_last(), now_ms, outbound) + item_steps(
            items.last(),
            ids.last(),
            now_ms,
            outbound,
        )
    }
}

/// Whether an item has a vector.
pub open spec fn any_vector(items: Seq<BatchItem>) -> bool {
    exists|i: int| 0 <= i < items.len() && item_dim(#[trigger] items[i]) > 0
}

/// The first steps of a batch: all rows are written, and the deltas of those
/// that stay local are dropped.
pub open spec fn rows_steps(items: Seq<BatchItem>, ids: Seq<Seq<char>>) -> Seq<StepView> {
    let local = local_rows(items, ids);
    seq![StepView::UpsertRows { rows: batch_rows(items, ids) }] + steps::when(
        local.len() > 0,
        StepView::DropPendingRows { places: local },
    )
}

/// The steps of a batch whose documents are written under these identifiers.
pub open spec fn batch_steps(
    items: Seq<BatchItem>,
    ids: Seq<Seq<char>>,
    now_ms: i64,
    outbound: bool,
) -> Seq<StepView> {
    if items.len() == 0 {
        Seq::empty()
    } else {
        rows_steps(items, ids) + items_steps(items, ids, now_ms, outbound) + steps::when(
            any_vector(items),
            StepView::UpdateMemoryStats,
        )
    }
}

/// The dimension of an item's vector.
fn dim_of(item: &BatchItem) -> (r: usize)
    ensures
        r == item_dim(*item),
{
    match item.embedding {
        Some(d) => d,
        None => 0,
    }
}

/// The identifiers that the documents are written under.
fn resolve_ids(items: &[BatchItem]) -> (r: Vec<String>)
    ensures
        resolves_all(items@, names_view(r@)),
{
    let mut ids: Vec<String> = Vec::new();
    let mut i: usize = 0;
    while i < items.len()
        invariant
            i <= items@.len(),
            resolves_all(items@.take(i as int), names_view(ids@)),
        decreases items@.len() - i,
    {
        let ghost before = names_view(ids@);
        let id = plan::resolve_doc_id(items[i].doc_id);
        ids.push(id);
        proof {
            let ghost after = names_view(ids@);
            assert(after =~= before.push(id@));
            assert forall|k: int| 0 <= k < i + 1 implies resolves(
                (#[trigger] items@.take(i as int + 1)[k]).doc_id@,
                after[k],
            ) by {
                if k < i {
                    assert(resolves(items@.take(i as int)[k].doc_id@, before[k]));
                }
            }
        }
        i = i + 1;
    }
    proof {
        assert(items@.take(i as int) =~= items@);
    }
    ids
}

/// The rows of several items, and the places of those that stay local.
fn rows_of(items: &[BatchItem], ids: &[String]) -> (r: (Vec<CrdtRow>, Vec<usize>))
    requires
        ids@.len() == items@.len(),
    ensures
        steps::crdt_rows_view(r.0@) == batch_rows(items@, names_view(ids@)),
        r.1@ == local_rows(items@, names_view(ids@)),
{
    let ghost named = names_view(ids@);
    let mut rows: Vec<CrdtRow> = Vec::new();
    let mut local: Vec<usize> = Vec::new();
    let mut i: usize = 0;
    proof {
        assert(steps::crdt_rows_view(rows@) =~= batch_rows(items@.take(0), named.take(0)));
        assert(local@ =~= local_rows(items@.take(0), named.take(0)));
    }
    while i < items.len()
        invariant
            i <= items@.len(),
            ids@.len() == items@.len(),
            named == names_view(ids@),
            steps::crdt_rows_view(rows@) == batch_rows(items@.take(i as int), named.take(i as int)),
            local@ == local_rows(items@.take(i as int), named.take(i as int)),
        decreases items@.len() - i,
    {
        proof {
            assert(items@.take(i as int + 1).drop_last() =~= items@.take(i as int));
            assert(named.take(i as int + 1).drop_last() =~= named.take(i as int));
        }
        let item = &items[i];
        let ghost first = steps::crdt_rows_view(rows@);
        if !item.sync {
            local.push(rows.len());
        }
        let row = plan::row_of_document(item.doc_collection, ids[i].as_str(), item.fields);
        rows.push(row);
        proof {
            assert(steps::crdt_rows_view(rows@) =~= first.push(row@));
        }
        let dim = dim_of(item);
        if dim > 0 {
            let ghost second = steps::crdt_rows_view(rows@);
            if !item.sync {
                local.push(rows.len());
            }
            let meta = plan::row_of_dimension(item.vector_collection, item.id, dim);
            rows.push(meta);
            proof {
                assert(steps::crdt_rows_view(rows@) =~= second.push(meta@));
            }
        }
        i = i + 1;
    }
    proof {
        assert(items@.take(i as int) =~= items@);
        assert(named.take(i as int) =~= named);
    }
    (rows, local)
}

/// Appends the steps of one item.
fn push_item(out: &mut Vec<Step>, item: &BatchItem, doc_id: &str, now_ms: i64, outbound: bool)
    ensures
        steps::steps_view(final(out)@) == steps::steps_view(old(out)@) + item_steps(
            *item,
            doc_id@,
            now_ms,
            outbound,
        ),
{
    let dim = dim_of(item);
    if item.bitemporal {
        steps::push_step(
            out,
            Step::AppendVersion {
                collection: item.doc_collection.to_owned(),
                id: doc_id.to_owned(),
                fields: plan::copy_fields(item.fields),
                system_ms: now_ms,
                valid_from_ms: None,
                valid_until_ms: None,
            },
        );
    }
    if dim > 0 {
        steps::push_step(
            out,
            Step::PutVector {
                index: item.vector_collection.to_owned(),
                id: item.id.to_owned(),
            },
        );
    }
    steps::push_step(
        out,
        Step::IndexText {
            collection: item.doc_collection.to_owned(),
            id: doc_id.to_owned(),
            fields: plan::copy_fields(item.fields),
            sync: item.sync,
        },
    );
    if dim > 0 {
        steps::push_step(
            out,
            Step::InsertNode {
                index: item.vector_collection.to_owned(),
                id: item.id.to_owned(),
                dim,
            },
        );
        if item.sync && outbound {
            steps::push_step(
                out,
                Step::EnqueueInsert {
                    collection: item.vector_collection.to_owned(),
                    id: item.id.to_owned(),
                    dim,
                    field: "".to_owned(),
                },
            );
        }
    }
    proof {
        assert(steps::steps_view(out@) =~= steps::steps_view(old(out)@) + item_steps(
            *item,
            doc_id@,
            now_ms,
            outbound,
        ));
    }
}

/// Plans a batch. It is refused as a whole under critical memory pressure, and
/// an empty batch does nothing. A document without an identifier gets a fresh
/// one. The answer names the documents in the order of the items. An item that
/// stays local is stored and indexed like the others, and leaves nothing for
/// synchronisation.
pub fn document_put_with_vector_batch_impl(
    items: &[BatchItem],
    pressure: PressureLevel,
    now_ms: i64,
    outbound: bool,
) -> (r: Result<(Vec<Step>, Vec<String>), LiteError>)
    ensures
        match r {
            Err(e) => items@.len() > 0 && pressure == PressureLevel::Critical && e@
                == ErrorView::Backpressure(
                "batch ingest rejected: memory governor is at Critical pressure"@,
            ),
            Ok((s, ids)) => !(items@.len() > 0 && pressure == PressureLevel::Critical)
                && resolves_all(items@, names_view(ids@)) && steps::steps_view(s@) == batch_steps(
                items@,
                names_view(ids@),
                now_ms,
                outbound,
            ),
        },
{
    let mut out = steps::no_steps();
    if items.len() == 0 {
        return Ok((out, Vec::new()));
    }
    if pressure == PressureLevel::Critical {
        return Err(
            LiteError::Backpressure {
                detail: "batch ingest rejected: memory governor is at Critical pressure".to_owned(),
            },
        );
    }
    let ids = resolve_ids(items);
    let ghost named = names_view(ids@);
    let (rows, local) = rows_of(items, &ids);
    steps::push_step(&mut out, Step::UpsertRows { rows });
    if local.len() > 0 {
        steps::push_step(&mut out, Step::DropPendingRows { places: local });
    }
    let ghost start = rows_steps(items@, named);
    let mut vectors: bool = false;
    let mut i: usize = 0;
    proof {
        assert(steps::steps_view(out@) =~= start);
        assert(start + items_steps(items@.take(0), named.take(0), now_ms, outbound) =~= start);
    }
    while i < items.len()
        invariant
            i <= items@.len(),
            ids@.len() == items@.len(),
            named == names_view(ids@),
            start == rows_steps(items@, named),
            steps::steps_view(out@) == start + items_steps(
                items@.take(i as int),
                named.take(i as int),
                now_ms,
                outbound,
            ),
            vectors == any_vector(items@.take(i as int)),
        decreases items@.len() - i,
    {
        let ghost before = items@.take(i as int);
        let ghost after = items@.take(i as int + 1);
        proof {
            assert(after.drop_last() =~= before);
            assert(named.take(i as int + 1).drop_last() =~= named.take(i as int));
            assert(start + items_steps(after, named.take(i as int + 1), now_ms, outbound) =~= (start
                + items_steps(before, named.take(i as int), now_ms, outbound)) + item_steps(
                items@[i as int],
                named[i as int],
                now_ms,
                outbound,
            ));
        }
        push_item(&mut out, &items[i], ids[i].as_str(), now_ms, outbound);
        if dim_of(&items[i]) > 0 {
            vectors = true;
            proof {
                assert(item_dim(after[i as int]) > 0);
            }
        } else {
            proof {
                if any_vector(before) {
                    let k = choose|k: int|
                        0 <= k < before.len() && item_dim(#[trigger] before[k]) > 0;
                    assert(item_dim(after[k]) > 0);
                }
                if any_vector(after) {
                    let k = choose|k: int|
                        0 <= k < after.len() && item_dim(#[trigger] after[k]) > 0;
                    assert(item_dim(before[k]) > 0);
                }
            }
        }
        i = i + 1;
    }
    proof {
        assert(items@.take(i as int) =~= items@);
        assert(named.take(i as int) =~= named);
    }
    if vectors {
        steps::push_step(&mut out, Step::UpdateMemoryStats);
    }
    proof {
        assert(steps::steps_view(out@) =~= batch_steps(items@, named, now_ms, outbound));
    }
    Ok((out, ids))
}

} // verus!
