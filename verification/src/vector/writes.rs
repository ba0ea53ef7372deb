//! Vectors with their payload rows, and taking indexes down.
use crate::document::plan;
use crate::document::plan::steps_outcome;
use crate::error::{ErrorView, LiteError};
use crate::health::PressureLevel;
use crate::native;
use crate::result;
use crate::result::{QueryResult, ResultView};
use crate::steps;
use crate::steps::{CrdtRow, RowView, Step, StepView};
use crate::text;
use crate::value::{names_view, Datum, DatumView};
use crate::vector::nodes;
use crate::vector::plan::{VectorPlan, VectorPlanView};
use crate::vector::search;
use crate::vector::state;
use crate::vector::state::{BucketView, VectorState, VectorView};
use vstd::prelude::*;

verus! {

/// A vector to be written.
#[derive(Debug)]
pub struct VectorPut<'a> {
    /// The collection.
    pub collection: &'a str,
    /// The document.
    pub id: &'a str,
    /// The dimension of the vector.
    pub dim: usize,
    /// Further fields of the row.
    pub metadata: &'a [(String, nodedb_types::Value)],
    /// The memory pressure.
    pub pressure: PressureLevel,
    /// Whether inserted vectors are queued for synchronisation.
    pub outbound: bool,
}

/// The row of a vector: its dimension, then its field where it is a named one,
/// then the further fields.
pub open spec fn vector_row(p: VectorPut, field: Seq<char>) -> RowView {
    let dim = seq![("embedding_dim"@, native::native_of(DatumView::Integer(p.dim as i64)))];
    let named = if field.len() == 0 {
        dim
    } else {
        dim.push(("__field"@, native::native_of(DatumView::String(field))))
    };
    RowView {
        collection: p.collection@,
        id: p.id@,
        fields: named + steps::named_view(p.metadata@),
    }
}

/// The steps of a vector insert. The vector is durable before it is indexed,
/// and it takes the place of the one before.
pub open spec fn insert_vector_steps(p: VectorPut) -> Seq<StepView> {
    steps::when(p.dim > 0, StepView::PutVector { index: p.collection@, id: p.id@ }) + seq![
        StepView::ReplaceNode { index: p.collection@, id: p.id@, dim: p.dim },
        StepView::UpsertRows { rows: seq![vector_row(p, Seq::empty())] },
    ] + steps::when(
        p.outbound,
        StepView::EnqueueInsert {
            collection: p.collection@,
            id: p.id@,
            dim: p.dim,
            field: ""@,
        },
    ) + seq![StepView::UpdateMemoryStats]
}

/// The row of a vector.
fn row_of_vector(p: &VectorPut, field: &str) -> (r: CrdtRow)
    ensures
        r@ == vector_row(*p, field@),
{
    let mut fields: Vec<(String, nodedb_types::Value)> = Vec::new();
    fields.push(("embedding_dim".to_owned(), native::native(Datum::Integer(p.dim as i64))));
    if field.unicode_len() > 0 {
        fields.push(("__field".to_owned(), native::native(Datum::String(field.to_owned()))));
    }
    let ghost head = steps::named_view(fields@);
    let mut rest = plan::copy_fields(p.metadata);
    let ghost tail = rest@;
    fields.append(&mut rest);
    let r = CrdtRow { collection: p.collection.to_owned(), id: p.id.to_owned(), fields };
    proof {
        assert(steps::named_view(fields@) =~= head + steps::named_view(tail));
        assert(r@.fields =~= vector_row(*p, field@).fields);
    }
    r
}

/// What a vector insert answers.
pub open spec fn insert_vector_spec(p: VectorPut) -> Result<Seq<StepView>, ErrorView> {
    if p.pressure == PressureLevel::Critical {
        Err(
            ErrorView::Backpressure(
                "vector insert rejected: memory governor is at Critical pressure"@,
            ),
        )
    } else {
        Ok(insert_vector_steps(p))
    }
}

/// Plans the insert of a vector into the index of its collection. Under
/// critical memory pressure it is refused.
pub fn insert_vector(p: &VectorPut) -> (r: Result<Vec<Step>, LiteError>)
    ensures
        steps_outcome(r) == insert_vector_spec(*p),
{
    if p.pressure == PressureLevel::Critical {
        return Err(
            LiteError::Backpressure {
                detail: "vector insert rejected: memory governor is at Critical pressure".to_owned(),
            },
        );
    }
    let mut out = steps::no_steps();
    if p.dim > 0 {
        steps::push_step(
            &mut out,
            Step::PutVector { index: p.collection.to_owned(), id: p.id.to_owned() },
        );
    }
    steps::push_step(
        &mut out,
        Step::ReplaceNode {
            index: p.collection.to_owned(),
            id: p.id.to_owned(),
            dim: p.dim,
        },
    );
    let row = row_of_vector(p, "");
    proof {
        reveal_strlit("");
        assert(""@ =~= Seq::<char>::empty());
    }
    let rows = plan::one_row(row);
    steps::push_step(&mut out, Step::UpsertRows { rows });
    if p.outbound {
        steps::push_step(
            &mut out,
            Step::EnqueueInsert {
                collection: p.collection.to_owned(),
                id: p.id.to_owned(),
                dim: p.dim,
                field: "".to_owned(),
            },
        );
    }
    steps::push_step(&mut out, Step::UpdateMemoryStats);
    proof {
        assert(steps::steps_view(out@) =~= insert_vector_steps(*p));
    }
    Ok(out)
}

/// The steps of an insert of a named vector.
pub open spec fn insert_field_steps(p: VectorPut, field: Seq<char>) -> Seq<StepView> {
    let index = state::index_key_of(p.collection@, field);
    steps::when(p.dim > 0, StepView::PutVector { index, id: p.id@ }) + seq![
        StepView::InsertNode { index, id: p.id@, dim: p.dim },
        StepView::UpsertRows { rows: seq![vector_row(p, field)] },
    ] + steps::when(
        p.outbound,
        StepView::EnqueueInsert { collection: p.collection@, id: p.id@, dim: p.dim, field },
    ) + seq![StepView::UpdateMemoryStats]
}

/// Plans the insert of a named vector. Each name has an index of its own, so
/// that a document can carry several vectors. Without a name this is the insert
/// into the index of the collection.
pub fn insert_vector_field(p: &VectorPut, field: &str) -> (r: Result<Vec<Step>, LiteError>)
    ensures
        steps_outcome(r) == if field@.len() == 0 {
            insert_vector_spec(*p)
        } else {
            Ok(insert_field_steps(*p, field@))
        },
{
    if field.unicode_len() == 0 {
        return insert_vector(p);
    }
    let index = state::index_key(p.collection, field);
    let mut out = steps::no_steps();
    if p.dim > 0 {
        steps::push_step(
            &mut out,
            Step::PutVector { index: index.as_str().to_owned(), id: p.id.to_owned() },
        );
    }
    steps::push_step(
        &mut out,
        Step::InsertNode { index, id: p.id.to_owned(), dim: p.dim },
    );
    let rows = plan::one_row(row_of_vector(p, field));
    steps::push_step(&mut out, Step::UpsertRows { rows });
    if p.outbound {
        steps::push_step(
            &mut out,
            Step::EnqueueInsert {
                collection: p.collection.to_owned(),
                id: p.id.to_owned(),
                dim: p.dim,
                field: field.to_owned(),
            },
        );
    }
    steps::push_step(&mut out, Step::UpdateMemoryStats);
    proof {
        assert(steps::steps_view(out@) =~= insert_field_steps(*p, field@));
    }
    Ok(out)
}

/// The steps of a vector delete. The stored vector goes first: the index is
/// rebuilt from what is stored.
pub open spec fn delete_vector_steps(
    collection: Seq<char>,
    id: Seq<char>,
    slot: Option<u32>,
    outbound: bool,
) -> Seq<StepView> {
    seq![StepView::RemoveVector { index: collection, id }] + (match slot {
        Some(slot) => seq![
            StepView::DeleteNode { index: collection, slot },
            StepView::DropCode { index: collection, slot },
        ],
        None => Seq::empty(),
    }) + seq![StepView::DeleteRow { collection, id }] + steps::when(
        outbound,
        StepView::EnqueueDelete { collection, id },
    )
}

/// Plans the delete of a vector: the slot that the index of the collection
/// binds to the document goes, and no other index is touched.
pub fn delete_vector(s: &VectorState, collection: &str, id: &str, outbound: bool) -> (r: Vec<Step>)
    ensures
        steps::steps_view(r@) == delete_vector_steps(
            collection@,
            id@,
            nodes::slot_of(s@.ids, collection@, id@),
            outbound,
        ),
{
    let mut out = steps::no_steps();
    steps::push_step(
        &mut out,
        Step::RemoveVector { index: collection.to_owned(), id: id.to_owned() },
    );
    let found = s.slot_of(collection, id);
    match found {
        Some(slot) => {
            steps::push_step(&mut out, Step::DeleteNode { index: collection.to_owned(), slot });
            steps::push_step(&mut out, Step::DropCode { index: collection.to_owned(), slot });
        },
        None => {},
    }
    steps::push_step(
        &mut out,
        Step::DeleteRow { collection: collection.to_owned(), id: id.to_owned() },
    );
    if outbound {
        steps::push_step(
            &mut out,
            Step::EnqueueDelete { collection: collection.to_owned(), id: id.to_owned() },
        );
    }
    proof {
        assert(steps::steps_view(out@) =~= delete_vector_steps(
            collection@,
            id@,
            found,
            outbound,
        ));
    }
    out
}

/// The fields other than the recorded dimension.
pub open spec fn without_dimension(fields: Seq<(Seq<char>, nodedb_types::Value)>) -> Seq<
    (Seq<char>, nodedb_types::Value),
>
    decreases fields.len(),
{
    if fields.len() == 0 {
        Seq::empty()
    } else if fields.last().0 == "embedding_dim"@ {
        without_dimension(fields.drop_last())
    } else {
        without_dimension(fields.drop_last()).push(fields.last())
    }
}

/// The steps that make fields and a dimension the whole row of a document.
pub open spec fn write_row_steps(
    exists: bool,
    collection: Seq<char>,
    doc_id: Seq<char>,
    dim: usize,
    fields: Seq<(Seq<char>, nodedb_types::Value)>,
) -> Seq<StepView> {
    steps::when(exists, StepView::DeleteRow { collection, id: doc_id }) + seq![
        StepView::UpsertRows {
            rows: seq![
                RowView {
                    collection,
                    id: doc_id,
                    fields: without_dimension(fields).push(
                        ("embedding_dim"@, native::native_of(DatumView::Integer(dim as i64))),
                    ),
                },
            ],
        },
    ]
}

/// Plans the write of fields and a dimension as the whole row of a document. A
/// stored row is replaced.
pub fn write_row(
    exists: bool,
    collection: &str,
    doc_id: &str,
    dim: usize,
    fields: &[(String, nodedb_types::Value)],
) -> (r: Vec<Step>)
    ensures
        steps::steps_view(r@) == write_row_steps(
            exists,
            collection@,
            doc_id@,
            dim,
            steps::named_view(fields@),
        ),
{
    let mut kept: Vec<(String, nodedb_types::Value)> = Vec::new();
    let ghost all = steps::named_view(fields@);
    let mut i: usize = 0;
    proof {
        assert(steps::named_view(kept@) =~= without_dimension(all.take(0)));
    }
    while i < fields.len()
        invariant
            i <= fields@.len(),
            all == steps::named_view(fields@),
            steps::named_view(kept@) == without_dimension(all.take(i as int)),
        decreases fields@.len() - i,
    {
        proof {
            assert(all[i as int] == (fields@[i as int].0@, fields@[i as int].1));
            assert(all.take(i as int + 1).drop_last() =~= all.take(i as int));
        }
        if !text::str_eq(fields[i].0.as_str(), "embedding_dim") {
            let ghost before = steps::named_view(kept@);
            let pair = (fields[i].0.as_str().to_owned(), native::copy_native(&fields[i].1));
            kept.push(pair);
            proof {
                assert(steps::named_view(kept@) =~= before.push((pair.0@, pair.1)));
            }
        }
        i = i + 1;
    }
    let ghost before = steps::named_view(kept@);
    let dimension = ("embedding_dim".to_owned(), native::native(Datum::Integer(dim as i64)));
    kept.push(dimension);
    proof {
        assert(all.take(i as int) =~= all);
        assert(steps::named_view(kept@) =~= before.push((dimension.0@, dimension.1)));
    }
    let mut out = steps::no_steps();
    if exists {
        steps::push_step(
            &mut out,
            Step::DeleteRow { collection: collection.to_owned(), id: doc_id.to_owned() },
        );
    }
    let row = CrdtRow { collection: collection.to_owned(), id: doc_id.to_owned(), fields: kept };
    let rows = plan::one_row(row);
    steps::push_step(&mut out, Step::UpsertRows { rows });
    proof {
        assert(steps::steps_view(out@) =~= write_row_steps(
            exists,
            collection@,
            doc_id@,
            dim,
            all,
        ));
    }
    out
}

/// Plans the removal of the row of a document and reports whether there was
/// one. A row that is not there needs no step.
pub fn delete_row(exists: bool, collection: &str, doc_id: &str) -> (r: (Vec<Step>, bool))
    ensures
        r.1 == exists,
        steps::steps_view(r.0@) == steps::when(
            exists,
            StepView::DeleteRow { collection: collection@, id: doc_id@ },
        ),
{
    let mut out = steps::no_steps();
    if exists {
        steps::push_step(
            &mut out,
            Step::DeleteRow { collection: collection.to_owned(), id: doc_id.to_owned() },
        );
    }
    proof {
        assert(steps::steps_view(out@) =~= steps::when(
            exists,
            StepView::DeleteRow { collection: collection@, id: doc_id@ },
        ));
    }
    (out, exists)
}

/// The statistics of an index: one row where the index is there.
pub open spec fn stats_view(
    s: VectorView,
    index: Seq<char>,
    dtype: Seq<char>,
    metric: Seq<char>,
) -> ResultView {
    ResultView {
        columns: seq!["node_count"@, "dim"@, "dtype"@, "metric"@],
        rows: match state::bucket_at(s.buckets, index) {
            Some(b) => seq![
                seq![
                    DatumView::Integer(s.buckets[b].deleted.len() as i64),
                    DatumView::Integer(s.buckets[b].dim as i64),
                    DatumView::String(dtype),
                    DatumView::String(metric),
                ],
            ],
            None => Seq::empty(),
        },
        rows_affected: 0,
        command: None,
    }
}

/// Reports the statistics of an index, given the names of its value type and
/// its distance.
pub fn vector_query_stats(s: &VectorState, index: &str, dtype: &str, metric: &str) -> (r:
    QueryResult)
    ensures
        r@ == stats_view(s@, index@, dtype@, metric@),
{
    let mut columns: Vec<String> = Vec::new();
    columns.push("node_count".to_owned());
    columns.push("dim".to_owned());
    columns.push("dtype".to_owned());
    columns.push("metric".to_owned());
    let mut rows: Vec<Vec<Datum>> = Vec::new();
    let found = s.bucket_position(index);
    match found {
        Some(b) => {
            let mut row: Vec<Datum> = Vec::new();
            row.push(Datum::Integer(s.buckets[b].deleted.len() as i64));
            row.push(Datum::Integer(s.buckets[b].dim as i64));
            row.push(Datum::String(dtype.to_owned()));
            row.push(Datum::String(metric.to_owned()));
            proof {
                assert(crate::value::row_view(row@) =~= seq![
                    DatumView::Integer(s@.buckets[b as int].deleted.len() as i64),
                    DatumView::Integer(s@.buckets[b as int].dim as i64),
                    DatumView::String(dtype@),
                    DatumView::String(metric@),
                ]);
            }
            rows.push(row);
        },
        None => {},
    }
    let r = QueryResult { columns, rows, rows_affected: 0, command: None };
    proof {
        assert(r@.columns =~= stats_view(s@, index@, dtype@, metric@).columns);
        assert(r@.rows =~= stats_view(s@, index@, dtype@, metric@).rows);
    }
    r
}

/// The steps that remove several stored vectors of an index.
pub open spec fn removals(index: Seq<char>, ids: Seq<Seq<char>>) -> Seq<StepView> {
    ids.map_values(|id: Seq<char>| StepView::RemoveVector { index, id })
}

/// Appends the steps that remove several stored vectors of an index.
fn push_removals(out: &mut Vec<Step>, index: &str, ids: &[String])
    ensures
        steps::steps_view(final(out)@) == steps::steps_view(old(out)@) + removals(
            index@,
            names_view(ids@),
        ),
{
    let ghost start = steps::steps_view(out@);
    let ghost all = removals(index@, names_view(ids@));
    let mut i: usize = 0;
    proof {
        assert(start + all.take(0) =~= start);
    }
    while i < ids.len()
        invariant
            i <= ids@.len(),
            all == removals(index@, names_view(ids@)),
            steps::steps_view(out@) == start + all.take(i as int),
        decreases ids@.len() - i,
    {
        steps::push_step(
            out,
            Step::RemoveVector { index: index.to_owned(), id: ids[i].as_str().to_owned() },
        );
        proof {
            assert(all.take(i as int + 1) =~= all.take(i as int).push(all[i as int]));
            assert((start + all.take(i as int)).push(all[i as int]) =~= start + all.take(
                i as int + 1,
            ));
        }
        i = i + 1;
    }
    proof {
        assert(all.take(i as int) =~= all);
    }
}

/// The steps that drop an index.
pub open spec fn drop_index_steps(index: Seq<char>, durable: Seq<Seq<char>>) -> Seq<StepView> {
    seq![
        StepView::UnregisterIndex { index },
        StepView::DropCheckpoint { index },
    ] + removals(index, durable)
}

/// Drops an index: its graph, its bindings, its build parameters, its codes, its
/// saved image and the stored vectors that it would be rebuilt from. The answer counts the index if
/// it was there.
pub fn vector_drop_index(s: &mut VectorState, index: &str, durable: &[String]) -> (r: VectorPlan)
    ensures
        final(s)@ == nodes::without_index(old(s)@, index@),
        r@ == (VectorPlanView {
            steps: drop_index_steps(index@, names_view(durable@)),
            result: result::affected_view(
                if state::bucket_at(old(s)@.buckets, index@) is Some {
                    1
                } else {
                    0
                },
            ),
        }),
{
    let existed = s.drop_index(index);
    let mut out = steps::no_steps();
    steps::push_step(&mut out, Step::UnregisterIndex { index: index.to_owned() });
    steps::push_step(&mut out, Step::DropCheckpoint { index: index.to_owned() });
    proof {
        assert(steps::steps_view(out@) =~= seq![
            StepView::UnregisterIndex { index: index@ },
            StepView::DropCheckpoint { index: index@ },
        ]);
    }
    push_removals(&mut out, index, durable);
    let n: u64 = if existed {
        1
    } else {
        0
    };
    VectorPlan { steps: out, result: QueryResult::affected(n) }
}

/// The steps that remove rows with their vectors.
pub open spec fn row_removals(
    collection: Seq<char>,
    index: Seq<char>,
    ids: Seq<Seq<char>>,
) -> Seq<StepView>
    decreases ids.len(),
{
    if ids.len() == 0 {
        Seq::empty()
    } else {
        row_removals(collection, index, ids.drop_last()).push(
            StepView::RemoveVector { index, id: ids.last() },
        ).push(StepView::DeleteRow { collection, id: ids.last() })
    }
}

/// The steps that empty a collection of vectors.
pub open spec fn truncate_steps(
    collection: Seq<char>,
    index: Seq<char>,
    rows: Seq<Seq<char>>,
    durable: Seq<Seq<char>>,
) -> Seq<StepView> {
    row_removals(collection, index, rows) + removals(index, durable) + seq![
        StepView::ClearUnloadable { index },
        StepView::DropCheckpoint { index },
    ]
}

/// Empties a collection of vectors: its rows, its stored vectors (also those
/// without a row) and its index, which stays registered with its dimension and
/// counts as loaded.
pub fn vector_direct_truncate(
    s: &mut VectorState,
    collection: &str,
    field: &str,
    rows: &[String],
    durable: &[String],
) -> (r: VectorPlan)
    ensures
        final(s)@ == nodes::with_index_reset(
            old(s)@,
            state::index_key_of(collection@, field@),
        ),
        r@ == ({
            let index = state::index_key_of(collection@, field@);
            VectorPlanView {
                steps: truncate_steps(
                    collection@,
                    index,
                    names_view(rows@),
                    names_view(durable@),
                ),
                result: result::tagged_view(0, "TRUNCATE"@),
            }
        }),
{
    let index = state::index_key(collection, field);
    s.reset_index(index.as_str());
    let mut out = steps::no_steps();
    let ghost all = names_view(rows@);
    let mut i: usize = 0;
    while i < rows.len()
        invariant
            i <= rows@.len(),
            all == names_view(rows@),
            steps::steps_view(out@) == row_removals(collection@, index@, all.take(i as int)),
        decreases rows@.len() - i,
    {
        proof {
            assert(all.take(i as int + 1).drop_last() =~= all.take(i as int));
        }
        steps::push_step(
            &mut out,
            Step::RemoveVector {
                index: index.as_str().to_owned(),
                id: rows[i].as_str().to_owned(),
            },
        );
        steps::push_step(
            &mut out,
            Step::DeleteRow {
                collection: collection.to_owned(),
                id: rows[i].as_str().to_owned(),
            },
        );
        i = i + 1;
    }
    proof {
        assert(all.take(i as int) =~= all);
    }
    push_removals(&mut out, index.as_str(), durable);
    let ghost before = steps::steps_view(out@);
    steps::push_step(&mut out, Step::ClearUnloadable { index: index.as_str().to_owned() });
    steps::push_step(&mut out, Step::DropCheckpoint { index });
    proof {
        assert(steps::steps_view(out@) =~= before + seq![
            StepView::ClearUnloadable { index: index@ },
            StepView::DropCheckpoint { index: index@ },
        ]);
    }
    VectorPlan { steps: out, result: QueryResult::tagged(0, "TRUNCATE") }
}

/// The keys of the indexes in memory.
pub open spec fn bucket_keys(buckets: Seq<BucketView>) -> Seq<Seq<char>> {
    buckets.map_values(|b: BucketView| b.key)
}

/// Whether these are the keys of the indexes of a collection, in order.
pub open spec fn index_list(
    keys: Seq<Seq<char>>,
    collection: Seq<char>,
    live: Seq<Seq<char>>,
    configured: Seq<Seq<char>>,
) -> bool {
    search::in_order(keys) && forall|k: Seq<char>| #[trigger]
        keys.contains(k) == search::collection_index(collection, live, configured, k)
}

/// The state after several indexes are emptied.
pub open spec fn all_reset(s: VectorView, keys: Seq<Seq<char>>) -> VectorView
    decreases keys.len(),
{
    if keys.len() == 0 {
        s
    } else {
        nodes::with_index_reset(all_reset(s, keys.drop_last()), keys.last())
    }
}

/// The steps that make several indexes count as loaded and drop their saved
/// images.
pub open spec fn checkpoint_drops(keys: Seq<Seq<char>>) -> Seq<StepView>
    decreases keys.len(),
{
    if keys.len() == 0 {
        Seq::empty()
    } else {
        checkpoint_drops(keys.drop_last()).push(
            StepView::ClearUnloadable { index: keys.last() },
        ).push(StepView::DropCheckpoint { index: keys.last() })
    }
}

/// Whether the indexes of a collection were emptied, with the stored vectors
/// under its key.
pub open spec fn indexes_cleared(
    before: VectorView,
    after: VectorView,
    collection: Seq<char>,
    configured: Seq<Seq<char>>,
    durable: Seq<Seq<char>>,
    plan: Seq<StepView>,
) -> bool {
    exists|keys: Seq<Seq<char>>|
        {
            &&& #[trigger] index_list(keys, collection, bucket_keys(before.buckets), configured)
            &&& after == all_reset(before, keys)
            &&& plan == removals(collection, durable) + checkpoint_drops(keys)
        }
}

/// The keys of the indexes in memory.
fn live_keys(s: &VectorState) -> (r: Vec<String>)
    ensures
        names_view(r@) == bucket_keys(s@.buckets),
{
    let mut keys: Vec<String> = Vec::new();
    let ghost all = bucket_keys(s@.buckets);
    let mut i: usize = 0;
    while i < s.buckets.len()
        invariant
            i <= s.buckets@.len(),
            all == bucket_keys(s@.buckets),
            names_view(keys@) == all.take(i as int),
        decreases s.buckets@.len() - i,
    {
        let ghost before = names_view(keys@);
        let key = s.buckets[i].key.as_str().to_owned();
        keys.push(key);
        proof {
            assert(names_view(keys@) =~= before.push(key@));
            assert(all.take(i as int + 1) =~= all.take(i as int).push(all[i as int]));
        }
        i = i + 1;
    }
    proof {
        assert(all.take(i as int) =~= all);
    }
    keys
}

/// Empties every index of a collection: its own and its named ones. The stored
/// vectors under the key of the collection are those of the named indexes too,
/// so that none of them is left.
pub fn clear_collection_indexes(
    s: &mut VectorState,
    collection: &str,
    configured: &[String],
    durable: &[String],
) -> (r: Vec<Step>)
    ensures
        indexes_cleared(
            old(s)@,
            final(s)@,
            collection@,
            names_view(configured@),
            names_view(durable@),
            steps::steps_view(r@),
        ),
{
    let ghost before = s@;
    let live = live_keys(s);
    let keys = search::collection_indexes(collection, live.as_slice(), configured);
    let ghost all = names_view(keys@);
    let mut out = steps::no_steps();
    push_removals(&mut out, collection, durable);
    let ghost start = steps::steps_view(out@);
    let mut i: usize = 0;
    proof {
        assert(start =~= removals(collection@, names_view(durable@)));
        assert(start + checkpoint_drops(all.take(0)) =~= start);
    }
    while i < keys.len()
        invariant
            i <= keys@.len(),
            all == names_view(keys@),
            s@ == all_reset(before, all.take(i as int)),
            steps::steps_view(out@) == start + checkpoint_drops(all.take(i as int)),
        decreases keys@.len() - i,
    {
        proof {
            assert(all.take(i as int + 1).drop_last() =~= all.take(i as int));
        }
        s.reset_index(keys[i].as_str());
        steps::push_step(&mut out, Step::ClearUnloadable { index: keys[i].as_str().to_owned() });
        steps::push_step(&mut out, Step::DropCheckpoint { index: keys[i].as_str().to_owned() });
        proof {
            assert(steps::steps_view(out@) =~= start + checkpoint_drops(all.take(i as int + 1)));
        }
        i = i + 1;
    }
    proof {
        assert(all.take(i as int) =~= all);
        assert(index_list(
            all,
            collection@,
            bucket_keys(before.buckets),
            names_view(configured@),
        ));
    }
    out
}

proof fn lemma_all_reset(s: VectorView, keys: Seq<Seq<char>>, i: int, doc_id: Seq<char>)
    requires
        0 <= i < keys.len(),
    ensures
        state::live_slot(all_reset(s, keys), keys[i], doc_id) is None,
    decreases keys.len(),
{
    let before = all_reset(s, keys.drop_last());
    if i == keys.len() - 1 {
        nodes::emptied_index_answers_nothing(before, keys.last(), keys.last(), doc_id);
    } else {
        lemma_all_reset(s, keys.drop_last(), i, doc_id);
        nodes::lemma_reset_keeps_none(before, keys.last(), keys[i], doc_id);
    }
}

proof fn lemma_others_kept(
    s: VectorView,
    keys: Seq<Seq<char>>,
    other: Seq<char>,
    doc_id: Seq<char>,
)
    requires
        forall|i: int| 0 <= i < keys.len() ==> nodes::apart(#[trigger] keys[i], other),
    ensures
        state::live_slot(all_reset(s, keys), other, doc_id) == state::live_slot(s, other, doc_id),
    decreases keys.len(),
{
    if keys.len() > 0 {
        let rest = keys.drop_last();
        assert forall|i: int| 0 <= i < rest.len() implies nodes::apart(
            #[trigger] rest[i],
            other,
        ) by {
            assert(rest[i] == keys[i]);
        }
        lemma_others_kept(s, rest, other, doc_id);
        assert(keys[keys.len() - 1] == keys.last());
        nodes::emptied_index_answers_nothing(
            all_reset(s, rest),
            keys.last(),
            other,
            doc_id,
        );
    }
}

proof fn lemma_named_apart(collection: Seq<char>, key: Seq<char>, other: Seq<char>)
    requires
        nodes::apart(collection, other),
        key == collection || search::owned(collection, key),
    ensures
        nodes::apart(key, other),
{
    let c = state::key_prefix(collection);
    let k = state::key_prefix(key);
    let o = state::key_prefix(other);
    assert(k.len() >= c.len());
    assert(k.take(c.len() as int) =~= c);
    if text::has_prefix(k, o) {
        if o.len() <= c.len() {
            assert(c.take(o.len() as int) =~= o);
        } else {
            assert(o.take(c.len() as int) =~= c);
        }
    }
    if text::has_prefix(o, k) {
        assert(o.take(c.len() as int) =~= c);
    }
}

/// After the indexes of a collection are emptied, none of them answers for a
/// document. A collection whose name merely begins the same answers as before.
pub proof fn cleared_collection_answers_nothing(
    before: VectorView,
    after: VectorView,
    collection: Seq<char>,
    configured: Seq<Seq<char>>,
    durable: Seq<Seq<char>>,
    plan: Seq<StepView>,
    key: Seq<char>,
    doc_id: Seq<char>,
)
    requires
        indexes_cleared(before, after, collection, configured, durable, plan),
    ensures
        search::collection_index(collection, bucket_keys(before.buckets), configured, key)
            ==> state::live_slot(after, key, doc_id) is None,
        nodes::apart(collection, key) ==> state::live_slot(after, key, doc_id)
            == state::live_slot(before, key, doc_id),
{
    let live = bucket_keys(before.buckets);
    let keys = choose|keys: Seq<Seq<char>>|
        {
            &&& #[trigger] index_list(keys, collection, live, configured)
            &&& after == all_reset(before, keys)
            &&& plan == removals(collection, durable) + checkpoint_drops(keys)
        };
    if search::collection_index(collection, live, configured, key) {
        assert(keys.contains(key));
        let i = choose|i: int| 0 <= i < keys.len() && keys[i] == key;
        lemma_all_reset(before, keys, i, doc_id);
    }
    if nodes::apart(collection, key) {
        assert forall|i: int| 0 <= i < keys.len() implies nodes::apart(
            #[trigger] keys[i],
            key,
        ) by {
            assert(keys.contains(keys[i]));
            lemma_named_apart(collection, keys[i], key);
        }
        lemma_others_kept(before, keys, key, doc_id);
    }
}

} // verus!
