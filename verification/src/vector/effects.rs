//! What the steps of vector writes leave behind.
use crate::document::effects;
use crate::document::effects::{Change, Fields, Kept, Place};
use crate::error::LiteError;
use crate::health::PressureLevel;
use crate::native;
use crate::result::QueryResult;
use crate::steps;
use crate::steps::{RowView, Step, StepView};
use crate::text;
use crate::value::{names_view, DatumView};
use crate::vector::nodes;
use crate::vector::plan;
use crate::vector::plan::{DistanceMetric, IndexParams, VectorPlan};
use crate::vector::search;
use crate::vector::state;
use crate::vector::state::{IdEntry, IdView, VectorState};
use crate::vector::writes;
use crate::vector::writes::VectorPut;
use vstd::prelude::*;

verus! {

/// The key of the index of a field: the collection alone where the field has no
/// name, otherwise both with a colon between them.
pub open spec fn index_named(collection: Seq<char>, field: Seq<char>, index: Seq<char>) -> bool {
    if field.len() == 0 {
        index == collection
    } else {
        index == collection + seq![':'] + field
    }
}

proof fn lemma_index_named(collection: Seq<char>, field: Seq<char>)
    ensures
        index_named(collection, field, state::index_key_of(collection, field)),
{
    reveal_strlit(":");
    assert(":"@ =~= seq![':']);
}

/// The value that a dimension is recorded as.
pub open spec fn recorded(dim: usize) -> nodedb_types::Value {
    native::native_of(DatumView::Integer(dim as i64))
}

/// What is kept after a vector is stored, where it has a dimension, and indexed.
pub open spec fn with_vector(k: Kept, at: Place, dim: usize) -> Kept {
    Kept {
        vectors: if dim > 0 {
            k.vectors.insert(at)
        } else {
            k.vectors
        },
        nodes: k.nodes.insert(at, dim),
        ..k
    }
}

/// What is kept after a row is written and its delta waits.
pub open spec fn with_row(
    k: Kept,
    place: Place,
    named: Seq<(Seq<char>, nodedb_types::Value)>,
) -> Kept {
    Kept {
        rows: k.rows.insert(place, effects::set_fields(effects::fields_at(k.rows, place), named)),
        unsent: k.unsent.push(RowView { collection: place.0, id: place.1, fields: named }),
        ..k
    }
}

/// What is kept after an inserted vector is queued, where vectors are sent.
pub open spec fn with_queued(
    k: Kept,
    outbound: bool,
    place: Place,
    dim: usize,
    field: Seq<char>,
) -> Kept {
    Kept {
        queue: if outbound {
            k.queue.push(Change::Vector { place, dim, field })
        } else {
            k.queue
        },
        ..k
    }
}

/// An inserted vector is stored, indexed under its collection and recorded in
/// the row of its document, with its dimension before the further fields. It is
/// queued where vectors are sent. Under critical memory pressure it is refused.
pub proof fn inserted_vector_is_kept(k: Kept, p: &VectorPut, r: Result<Vec<Step>, LiteError>)
    requires
        call_ensures(writes::insert_vector, (p,), r),
    ensures
        r is Ok <==> p.pressure != PressureLevel::Critical,
        r is Ok ==> effects::same(
            effects::after(k, steps::steps_view(r->Ok_0@)),
            with_queued(
                with_row(
                    with_vector(k, (p.collection@, p.id@), p.dim),
                    (p.collection@, p.id@),
                    seq![("embedding_dim"@, recorded(p.dim))] + steps::named_view(p.metadata@),
                ),
                p.outbound,
                (p.collection@, p.id@),
                p.dim,
                ""@,
            ),
        ),
{
    let named = seq![("embedding_dim"@, recorded(p.dim))] + steps::named_view(p.metadata@);
    let row = RowView { collection: p.collection@, id: p.id@, fields: named };
    let a = StepView::PutVector { index: p.collection@, id: p.id@ };
    let b = StepView::ReplaceNode { index: p.collection@, id: p.id@, dim: p.dim };
    let c = StepView::UpsertRows { rows: seq![row] };
    let d = StepView::EnqueueInsert {
        collection: p.collection@,
        id: p.id@,
        dim: p.dim,
        field: ""@,
    };
    let s1 = steps::when(p.dim > 0, a);
    let s2 = s1 + seq![b, c];
    let s3 = s2 + steps::when(p.outbound, d);
    let s4 = s3 + seq![StepView::UpdateMemoryStats];
    assert(writes::vector_row(*p, Seq::empty()) == row);
    assert(writes::insert_vector_steps(*p) == s4);
    effects::lemma_after_when(k, p.dim > 0, a);
    lemma_two(k, s1, b, c);
    effects::lemma_one_row(effects::after(k, s1).rows, row);
    effects::lemma_after_parts(k, s2, steps::when(p.outbound, d));
    effects::lemma_after_when(effects::after(k, s2), p.outbound, d);
    effects::lemma_after_parts(k, s3, seq![StepView::UpdateMemoryStats]);
    effects::lemma_after_one(effects::after(k, s3), StepView::UpdateMemoryStats);
    assert(k.unsent + seq![row] =~= k.unsent.push(row));
}

proof fn lemma_two(k: Kept, before: Seq<StepView>, a: StepView, b: StepView)
    ensures
        effects::after(k, before + seq![a, b]) == effects::step_taken(
            effects::step_taken(effects::after(k, before), a),
            b,
        ),
{
    assert(before + seq![a, b] =~= (before + seq![a]) + seq![b]);
    effects::lemma_after_parts(k, before + seq![a], seq![b]);
    effects::lemma_after_parts(k, before, seq![a]);
    effects::lemma_after_one(effects::after(k, before), a);
    effects::lemma_after_one(effects::after(k, before + seq![a]), b);
}

/// A vector of a named field is kept like any other, under an index of its own,
/// and its row names the field.
pub proof fn inserted_field_vector_is_kept(
    k: Kept,
    p: &VectorPut,
    field: &str,
    index: Seq<char>,
    r: Result<Vec<Step>, LiteError>,
)
    requires
        field@.len() > 0,
        index_named(p.collection@, field@, index),
        call_ensures(writes::insert_vector_field, (p, field), r),
    ensures
        r is Ok,
        effects::same(
            effects::after(k, steps::steps_view(r->Ok_0@)),
            with_queued(
                with_row(
                    with_vector(k, (index, p.id@), p.dim),
                    (p.collection@, p.id@),
                    seq![
                        ("embedding_dim"@, recorded(p.dim)),
                        ("__field"@, native::native_of(DatumView::String(field@))),
                    ] + steps::named_view(p.metadata@),
                ),
                p.outbound,
                (p.collection@, p.id@),
                p.dim,
                field@,
            ),
        ),
{
    lemma_index_named(p.collection@, field@);
    let head = seq![
        ("embedding_dim"@, recorded(p.dim)),
        ("__field"@, native::native_of(DatumView::String(field@))),
    ];
    let named = head + steps::named_view(p.metadata@);
    let row = RowView { collection: p.collection@, id: p.id@, fields: named };
    let a = StepView::PutVector { index, id: p.id@ };
    let b = StepView::InsertNode { index, id: p.id@, dim: p.dim };
    let c = StepView::UpsertRows { rows: seq![row] };
    let d = StepView::EnqueueInsert {
        collection: p.collection@,
        id: p.id@,
        dim: p.dim,
        field: field@,
    };
    let s1 = steps::when(p.dim > 0, a);
    let s2 = s1 + seq![b, c];
    let s3 = s2 + steps::when(p.outbound, d);
    let s4 = s3 + seq![StepView::UpdateMemoryStats];
    assert(writes::vector_row(*p, field@).fields =~= row.fields);
    assert(writes::insert_field_steps(*p, field@) == s4);
    effects::lemma_after_when(k, p.dim > 0, a);
    lemma_two(k, s1, b, c);
    effects::lemma_one_row(effects::after(k, s1).rows, row);
    effects::lemma_after_parts(k, s2, steps::when(p.outbound, d));
    effects::lemma_after_when(effects::after(k, s2), p.outbound, d);
    effects::lemma_after_parts(k, s3, seq![StepView::UpdateMemoryStats]);
    effects::lemma_after_one(effects::after(k, s3), StepView::UpdateMemoryStats);
    assert(k.unsent + seq![row] =~= k.unsent.push(row));
}

/// A vector without a field name goes where one of the collection goes.
pub proof fn nameless_field_is_the_collection(
    p: &VectorPut,
    field: &str,
    named: Result<Vec<Step>, LiteError>,
    plain: Result<Vec<Step>, LiteError>,
)
    requires
        field@.len() == 0,
        call_ensures(writes::insert_vector_field, (p, field), named),
        call_ensures(writes::insert_vector, (p,), plain),
    ensures
        named is Ok <==> plain is Ok,
        named is Ok ==> steps::steps_view(named->Ok_0@) == steps::steps_view(plain->Ok_0@),
{
}

/// An inserted or upserted vector is stored and indexed under its field, its
/// dimension is recorded, and the answer counts one row. The upsert registers an
/// index that has no shape yet.
pub proof fn planned_vector_is_kept(
    k: Kept,
    collection: &str,
    field: &str,
    doc_id: &str,
    dim: usize,
    configured: bool,
    quantization: nodedb_types::VectorQuantization,
    storage_dtype: nodedb_types::vector_dtype::VectorStorageDtype,
    index: Seq<char>,
    inserted: VectorPlan,
    upserted: VectorPlan,
)
    requires
        index_named(collection@, field@, index),
        call_ensures(plan::vector_insert, (collection, field, doc_id, dim), inserted),
        call_ensures(
            plan::vector_direct_upsert,
            (collection, field, doc_id, dim, configured, quantization, storage_dtype),
            upserted,
        ),
    ensures
        inserted@.result.rows_affected == 1,
        upserted@.result.rows_affected == 1,
        effects::same(
            effects::after(k, inserted@.steps),
            with_row(
                with_vector(k, (index, doc_id@), dim),
                (collection@, doc_id@),
                seq![("embedding_dim"@, recorded(dim))],
            ),
        ),
        effects::same(
            effects::after(k, upserted@.steps),
            effects::after(k, inserted@.steps),
        ),
        configured ==> upserted@.steps == inserted@.steps,
        !configured ==> upserted@.steps.len() == inserted@.steps.len() + 1
            && upserted@.steps.skip(1) == inserted@.steps && (
        upserted@.steps[0] matches StepView::RegisterIndex { index: i, field: f, dim: d, .. } && i
            == index && f == field@ && (dim <= u32::MAX ==> d == dim)),
{
    lemma_index_named(collection@, field@);
    let named = seq![("embedding_dim"@, recorded(dim))];
    let row = RowView { collection: collection@, id: doc_id@, fields: named };
    let a = StepView::PutVector { index, id: doc_id@ };
    let b = StepView::InsertNode { index, id: doc_id@, dim };
    let c = StepView::UpsertRows { rows: seq![row] };
    let s1 = steps::when(dim > 0, a);
    let s2 = s1 + seq![b, c];
    assert(inserted@.steps == s2);
    effects::lemma_after_when(k, dim > 0, a);
    lemma_two(k, s1, b, c);
    effects::lemma_one_row(effects::after(k, s1).rows, row);
    assert(k.unsent + seq![row] =~= k.unsent.push(row));
    let first = StepView::RegisterIndex {
        index,
        field: field@,
        dim: dim as u32,
        quantization,
        storage_dtype,
    };
    let head = steps::when(!configured, first);
    assert(upserted@.steps == head + s2);
    effects::lemma_after_when(k, !configured, first);
    effects::lemma_after_parts(k, head, s2);
    if configured {
        assert(head + s2 =~= s2);
    } else {
        assert((head + s2).skip(1) =~= s2);
    }
}

proof fn lemma_slot_from(ids: Seq<IdView>, index: Seq<char>, doc_id: Seq<char>, i: int)
    requires
        0 <= i,
    ensures
        match nodes::slot_from(ids, index, doc_id, i) {
            Some(slot) => exists|j: int|
                i <= j < ids.len() && bound(#[trigger] ids[j], index) && ids[j].doc_id == doc_id
                    && ids[j].slot == slot,
            None => forall|j: int|
                i <= j < ids.len() && bound(#[trigger] ids[j], index) ==> ids[j].doc_id != doc_id,
        },
    decreases ids.len() - i,
{
    lemma_bound();
    if i < ids.len() && !(nodes::belongs(ids[i], index) && ids[i].doc_id == doc_id) {
        lemma_slot_from(ids, index, doc_id, i + 1);
    }
}

/// Whether an index made a binding: its key is the index, a colon and the slot.
pub open spec fn bound(e: IdView, index: Seq<char>) -> bool {
    e.key == index + seq![':'] + text::decimal(e.slot as nat)
}

proof fn lemma_bound()
    ensures
        forall|e: IdView, index: Seq<char>|
            #![trigger bound(e, index)]
            #![trigger nodes::belongs(e, index)]
            bound(e, index) == nodes::belongs(e, index),
{
    reveal_strlit(":");
    assert(":"@ =~= seq![':']);
}

/// A deleted vector leaves neither its stored vector nor its row, and every other
/// one as it was. The slot that the index of the collection binds to the document
/// goes with its code, and no other slot. The delete is queued where vectors are
/// sent.
pub proof fn deleted_vector_is_gone(
    k: Kept,
    s: &VectorState,
    collection: &str,
    id: &str,
    outbound: bool,
    r: Vec<Step>,
)
    requires
        call_ensures(writes::delete_vector, (s, collection, id, outbound), r),
    ensures
        effects::same(
            effects::after(k, steps::steps_view(r@)),
            Kept {
                vectors: k.vectors.remove((collection@, id@)),
                rows: k.rows.remove((collection@, id@)),
                queue: if outbound {
                    k.queue.push(Change::VectorGone((collection@, id@)))
                } else {
                    k.queue
                },
                ..k
            },
        ),
        forall|i: int|
            0 <= i < r@.len() ==> (#[trigger] steps::steps_view(
                r@,
            )[i] matches StepView::DeleteNode { index, slot } ==> index == collection@ && exists|
                j: int,
            |
                0 <= j < s@.ids.len() && bound(#[trigger] s@.ids[j], collection@)
                    && s@.ids[j].doc_id == id@ && s@.ids[j].slot == slot),
        (exists|j: int|
            0 <= j < s@.ids.len() && bound(#[trigger] s@.ids[j], collection@) && s@.ids[j].doc_id
                == id@) ==> exists|i: int|
            0 <= i < r@.len() && (#[trigger] steps::steps_view(r@)[i]) is DeleteNode,
{
    let slot = nodes::slot_of(s@.ids, collection@, id@);
    lemma_slot_from(s@.ids, collection@, id@, 0);
    let a = StepView::RemoveVector { index: collection@, id: id@ };
    let c = StepView::DeleteRow { collection: collection@, id: id@ };
    let d = StepView::EnqueueDelete { collection: collection@, id: id@ };
    let all = steps::steps_view(r@);
    let s1 = seq![a];
    let mid: Seq<StepView> = match slot {
        Some(slot) => seq![
            StepView::DeleteNode { index: collection@, slot },
            StepView::DropCode { index: collection@, slot },
        ],
        None => Seq::empty(),
    };
    let s2 = s1 + mid;
    let s3 = s2 + seq![c];
    let s4 = s3 + steps::when(outbound, d);
    assert(all == s4);
    effects::lemma_after_one(k, a);
    match slot {
        Some(slot) => {
            lemma_two(
                k,
                s1,
                StepView::DeleteNode { index: collection@, slot },
                StepView::DropCode { index: collection@, slot },
            );
            assert(all[1] is DeleteNode);
        },
        None => {
            assert(s2 =~= s1);
        },
    }
    effects::lemma_after_parts(k, s2, seq![c]);
    effects::lemma_after_one(effects::after(k, s2), c);
    effects::lemma_after_parts(k, s3, steps::when(outbound, d));
    effects::lemma_after_when(effects::after(k, s3), outbound, d);
    assert(r@.len() == all.len());
}

proof fn lemma_without_dimension(
    row: Fields,
    named: Seq<(Seq<char>, nodedb_types::Value)>,
    v: nodedb_types::Value,
)
    ensures
        effects::set_fields(row, writes::without_dimension(named)).insert("embedding_dim"@, v)
            == effects::set_fields(row, named).insert("embedding_dim"@, v),
    decreases named.len(),
{
    if named.len() > 0 {
        lemma_without_dimension(row, named.drop_last(), v);
        let rest = writes::without_dimension(named.drop_last());
        let last = named.last();
        if last.0 == "embedding_dim"@ {
            assert(effects::set_fields(row, named).insert("embedding_dim"@, v)
                =~= effects::set_fields(row, named.drop_last()).insert("embedding_dim"@, v));
        } else {
            assert(rest.push(last).drop_last() =~= rest);
            assert(effects::set_fields(row, rest.push(last)) == effects::set_fields(
                row,
                rest,
            ).insert(last.0, last.1));
            assert(effects::set_fields(row, rest.push(last)).insert("embedding_dim"@, v)
                =~= effects::set_fields(row, rest).insert("embedding_dim"@, v).insert(
                last.0,
                last.1,
            ));
            assert(effects::set_fields(row, named).insert("embedding_dim"@, v)
                =~= effects::set_fields(row, named.drop_last()).insert("embedding_dim"@, v).insert(
                last.0,
                last.1,
            ));
        }
    }
}

/// A written row consists of the given fields and the dimension, whatever was
/// there before. A removed row is gone, and the answer says whether it was there.
pub proof fn written_row_is_the_whole_row(
    k: Kept,
    collection: &str,
    doc_id: &str,
    dim: usize,
    fields: &[(String, nodedb_types::Value)],
    exists: bool,
    written: Vec<Step>,
    removed: (Vec<Step>, bool),
)
    requires
        exists == k.rows.dom().contains((collection@, doc_id@)),
        call_ensures(writes::write_row, (exists, collection, doc_id, dim, fields), written),
        call_ensures(writes::delete_row, (exists, collection, doc_id), removed),
    ensures
        effects::after(k, steps::steps_view(written@)).rows == k.rows.insert(
            (collection@, doc_id@),
            effects::set_fields(Map::empty(), steps::named_view(fields@)).insert(
                "embedding_dim"@,
                recorded(dim),
            ),
        ),
        effects::after(k, steps::steps_view(removed.0@)).rows == k.rows.remove(
            (collection@, doc_id@),
        ),
        removed.1 == exists,
{
    let place = (collection@, doc_id@);
    let named = steps::named_view(fields@);
    let kept = writes::without_dimension(named);
    let all = kept.push(("embedding_dim"@, recorded(dim)));
    let row = RowView { collection: collection@, id: doc_id@, fields: all };
    let a = StepView::DeleteRow { collection: collection@, id: doc_id@ };
    let b = StepView::UpsertRows { rows: seq![row] };
    let s1 = steps::when(exists, a);
    assert(steps::steps_view(written@) == s1 + seq![b]);
    effects::lemma_after_when(k, exists, a);
    effects::lemma_after_parts(k, s1, seq![b]);
    effects::lemma_after_one(effects::after(k, s1), b);
    effects::lemma_one_row(effects::after(k, s1).rows, row);
    let mid = effects::after(k, s1).rows;
    assert(mid =~= k.rows.remove(place));
    assert(effects::fields_at(mid, place) == Map::<Seq<char>, nodedb_types::Value>::empty());
    assert(all.drop_last() =~= kept);
    lemma_without_dimension(Map::empty(), named, recorded(dim));
    assert(effects::after(k, steps::steps_view(written@)).rows =~= k.rows.insert(
        place,
        effects::set_fields(Map::empty(), named).insert("embedding_dim"@, recorded(dim)),
    ));
    if !exists {
        assert(k.rows.remove(place) =~= k.rows);
    }
}

proof fn lemma_doc_of_slot(ids: Seq<IdView>, index: Seq<char>, slot: u32, i: int)
    requires
        0 <= i,
    ensures
        match plan::doc_of_slot(ids, index, slot, i) {
            Some(d) => exists|j: int|
                i <= j < ids.len() && bound(#[trigger] ids[j], index) && ids[j].slot == slot
                    && ids[j].doc_id == d,
            None => forall|j: int|
                i <= j < ids.len() && bound(#[trigger] ids[j], index) ==> ids[j].slot != slot,
        },
    decreases ids.len() - i,
{
    lemma_bound();
    if i < ids.len() && !(nodes::belongs(ids[i], index) && ids[i].slot == slot) {
        lemma_doc_of_slot(ids, index, slot, i + 1);
    }
}

proof fn lemma_any_doc(ids: Seq<IdView>, slot: u32, i: int)
    requires
        0 <= i,
    ensures
        match plan::any_doc_of_slot(ids, slot, i) {
            Some(d) => exists|j: int|
                i <= j < ids.len() && (#[trigger] ids[j]).slot == slot && ids[j].doc_id == d,
            None => forall|j: int| i <= j < ids.len() ==> (#[trigger] ids[j]).slot != slot,
        },
    decreases ids.len() - i,
{
    if i < ids.len() && ids[i].slot != slot {
        lemma_any_doc(ids, slot, i + 1);
    }
}

/// A delete by a slot is refused just where no document is bound to the slot.
/// Otherwise the slot of the index and the row of such a document go, a document
/// that this index binds coming first.
pub proof fn deleted_slot_takes_its_row(
    k: Kept,
    s: &VectorState,
    collection: &str,
    slot: u32,
    r: Result<VectorPlan, LiteError>,
)
    requires
        call_ensures(plan::vector_delete_by_id, (s, collection, slot), r),
    ensures
        r is Ok <==> exists|j: int|
            0 <= j < s@.ids.len() && (#[trigger] s@.ids[j]).slot == slot,
        r is Ok ==> r->Ok_0@.result.rows_affected == 1 && r->Ok_0@.steps.contains(
            StepView::DeleteNode { index: collection@, slot },
        ),
        r is Ok ==> exists|j: int|
            0 <= j < s@.ids.len() && (#[trigger] s@.ids[j]).slot == slot && (bound(
                s@.ids[j],
                collection@,
            ) || forall|i: int|
                0 <= i < s@.ids.len() && bound(#[trigger] s@.ids[i], collection@)
                    ==> s@.ids[i].slot != slot) && effects::same(
                effects::after(k, r->Ok_0@.steps),
                Kept { rows: k.rows.remove((collection@, s@.ids[j].doc_id)), ..k },
            ),
{
    let ids = s@.ids;
    lemma_doc_of_slot(ids, collection@, slot, 0);
    lemma_any_doc(ids, slot, 0);
    if let Some(doc) = plan::slot_doc(ids, collection@, slot) {
        let a = StepView::DeleteNode { index: collection@, slot };
        let b = StepView::DeleteRow { collection: collection@, id: doc };
        assert(r->Ok_0@.steps =~= seq![a, b]);
        assert(r->Ok_0@.steps[0] == a);
        lemma_two(k, Seq::empty(), a, b);
        assert(Seq::<StepView>::empty() + seq![a, b] =~= seq![a, b]);
        let end = Kept { rows: k.rows.remove((collection@, doc)), ..k };
        assert(effects::same(effects::after(k, r->Ok_0@.steps), end));
        if plan::doc_of_slot(ids, collection@, slot, 0) is Some {
            let j = choose|j: int|
                0 <= j < ids.len() && bound(#[trigger] ids[j], collection@) && ids[j].slot == slot
                    && ids[j].doc_id == doc;
            assert(ids[j].doc_id == doc);
        } else {
            let j = choose|j: int|
                0 <= j < ids.len() && (#[trigger] ids[j]).slot == slot && ids[j].doc_id == doc;
            assert(ids[j].doc_id == doc);
        }
    }
}

/// A delete by a number takes the row of the document that is named by it, and
/// the answer counts one row.
pub proof fn deleted_surrogate_takes_its_row(
    k: Kept,
    s: &VectorState,
    collection: &str,
    surrogate: u32,
    field: &str,
    r: VectorPlan,
)
    requires
        call_ensures(plan::vector_delete_by_surrogate, (s, collection, surrogate, field), r),
    ensures
        r@.result.rows_affected == 1,
        effects::same(
            effects::after(k, r@.steps),
            Kept {
                rows: k.rows.remove(
                    (collection@, seq!['s', 'u', 'r', ':'] + text::decimal(surrogate as nat)),
                ),
                ..k
            },
        ),
{
    reveal_strlit("sur:");
    assert("sur:"@ =~= seq!['s', 'u', 'r', ':']);
    let doc = "sur:"@ + text::decimal(surrogate as nat);
    let index = state::index_key_of(collection@, field@);
    let b = StepView::DeleteRow { collection: collection@, id: doc };
    match plan::doc_slot(s@.ids, index, doc) {
        Some(slot) => {
            let a = StepView::DeleteNode { index, slot };
            assert(r@.steps =~= seq![a, b]);
            lemma_two(k, Seq::empty(), a, b);
            assert(Seq::<StepView>::empty() + seq![a, b] =~= seq![a, b]);
        },
        None => {
            assert(r@.steps =~= seq![b]);
            effects::lemma_after_one(k, b);
        },
    }
}

proof fn lemma_removals(k: Kept, index: Seq<char>, ids: Seq<Seq<char>>)
    ensures
        ({
            let end = effects::after(k, writes::removals(index, ids));
            &&& end.rows == k.rows
            &&& forall|at: Place| #[trigger]
                end.vectors.contains(at) <==> k.vectors.contains(at) && !(at.0 == index
                    && ids.contains(at.1))
        }),
    decreases ids.len(),
{
    let all = writes::removals(index, ids);
    if ids.len() > 0 {
        let rest = ids.drop_last();
        lemma_removals(k, index, rest);
        assert(all.drop_last() =~= writes::removals(index, rest));
        let before = effects::after(k, writes::removals(index, rest));
        let end = effects::after(k, all);
        assert(all.last() == (StepView::RemoveVector { index, id: ids.last() }));
        assert(end.vectors == before.vectors.remove((index, ids.last())));
        assert forall|at: Place| #[trigger] end.vectors.contains(at) <==> k.vectors.contains(at)
            && !(at.0 == index && ids.contains(at.1)) by {
            if ids.contains(at.1) && at.1 != ids.last() {
                let i = choose|i: int| 0 <= i < ids.len() && ids[i] == at.1;
                assert(rest[i] == at.1);
            }
            if rest.contains(at.1) {
                let i = choose|i: int| 0 <= i < rest.len() && rest[i] == at.1;
                assert(ids[i] == at.1);
            }
            if at.1 == ids.last() {
                assert(ids[ids.len() - 1] == at.1);
            }
        }
    } else {
        assert(all =~= Seq::<StepView>::empty());
    }
}

proof fn lemma_row_removals(
    k: Kept,
    collection: Seq<char>,
    index: Seq<char>,
    ids: Seq<Seq<char>>,
)
    ensures
        ({
            let end = effects::after(k, writes::row_removals(collection, index, ids));
            &&& forall|at: Place| #[trigger]
                end.rows.dom().contains(at) <==> k.rows.dom().contains(at) && !(at.0 == collection
                    && ids.contains(at.1))
            &&& forall|at: Place| #[trigger]
                end.vectors.contains(at) <==> k.vectors.contains(at) && !(at.0 == index
                    && ids.contains(at.1))
        }),
    decreases ids.len(),
{
    let all = writes::row_removals(collection, index, ids);
    if ids.len() > 0 {
        let rest = ids.drop_last();
        let last = ids.last();
        lemma_row_removals(k, collection, index, rest);
        let part = writes::row_removals(collection, index, rest);
        let a = StepView::RemoveVector { index, id: last };
        let b = StepView::DeleteRow { collection, id: last };
        assert(all =~= part + seq![a, b]);
        lemma_two(k, part, a, b);
        let before = effects::after(k, part);
        let end = effects::after(k, all);
        assert(end.vectors == before.vectors.remove((index, last)));
        assert(end.rows == before.rows.remove((collection, last)));
        assert forall|id: Seq<char>| #[trigger] ids.contains(id) <==> rest.contains(id) || id
            == last by {
            if ids.contains(id) {
                let i = choose|i: int| 0 <= i < ids.len() && ids[i] == id;
                if i < rest.len() {
                    assert(rest[i] == id);
                }
            }
            if rest.contains(id) {
                let i = choose|i: int| 0 <= i < rest.len() && rest[i] == id;
                assert(ids[i] == id);
            }
            assert(ids[ids.len() - 1] == last);
        }
    } else {
        assert(all =~= Seq::<StepView>::empty());
    }
}

/// A dropped index leaves none of the stored vectors it would be rebuilt from,
/// and every other vector and all rows as they were.
pub proof fn dropped_index_leaves_no_vector(k: Kept, index: Seq<char>, durable: Seq<Seq<char>>)
    ensures
        ({
            let end = effects::after(k, writes::drop_index_steps(index, durable));
            &&& end.rows == k.rows
            &&& forall|at: Place| #[trigger]
                end.vectors.contains(at) <==> k.vectors.contains(at) && !(at.0 == index
                    && durable.contains(at.1))
        }),
{
    let a = StepView::UnregisterIndex { index };
    let b = StepView::DropCheckpoint { index };
    lemma_two(k, Seq::empty(), a, b);
    assert(Seq::<StepView>::empty() + seq![a, b] =~= seq![a, b]);
    effects::lemma_after_parts(k, seq![a, b], writes::removals(index, durable));
    lemma_removals(k, index, durable);
}

/// A truncated collection of vectors leaves none of the listed rows, and none of
/// their vectors or of the stored ones under its index. Everything else stays.
pub proof fn truncated_collection_is_empty(
    k: Kept,
    collection: Seq<char>,
    index: Seq<char>,
    rows: Seq<Seq<char>>,
    durable: Seq<Seq<char>>,
)
    ensures
        ({
            let end = effects::after(
                k,
                writes::truncate_steps(collection, index, rows, durable),
            );
            &&& forall|at: Place| #[trigger]
                end.rows.dom().contains(at) <==> k.rows.dom().contains(at) && !(at.0 == collection
                    && rows.contains(at.1))
            &&& forall|at: Place| #[trigger]
                end.vectors.contains(at) <==> k.vectors.contains(at) && !(at.0 == index && (
                rows.contains(at.1) || durable.contains(at.1)))
        }),
{
    let s1 = writes::row_removals(collection, index, rows);
    let s2 = s1 + writes::removals(index, durable);
    lemma_row_removals(k, collection, index, rows);
    effects::lemma_after_parts(k, s1, writes::removals(index, durable));
    lemma_removals(effects::after(k, s1), index, durable);
    lemma_two(
        k,
        s2,
        StepView::ClearUnloadable { index },
        StepView::DropCheckpoint { index },
    );
}

/// A search may answer with a slot just where the index binds it to one of the
/// allowed documents. Where every document is allowed there is no restriction.
pub proof fn search_is_restricted_to_the_allowed(
    ids: &[IdEntry],
    index: &str,
    allowed: Option<&[String]>,
    r: Option<roaring::RoaringBitmap>,
)
    requires
        call_ensures(search::search_prefilter, (ids, index, allowed), r),
    ensures
        r is Some <==> allowed is Some,
        r is Some ==> forall|slot: u32| #[trigger]
            search::bitmap_slots(r->Some_0).contains(slot) <==> exists|i: int|
                0 <= i < ids@.len() && (#[trigger] ids@[i])@.slot == slot && bound(
                    ids@[i]@,
                    index@,
                ) && names_view(allowed->Some_0@).contains(ids@[i]@.doc_id),
{
    lemma_bound();
    if r is Some {
        let all = state::ids_view(ids@);
        let docs = names_view(allowed->Some_0@);
        let n = ids@.len() as int;
        assert forall|slot: u32| #[trigger]
            search::bitmap_slots(r->Some_0).contains(slot) <==> exists|i: int|
                0 <= i < ids@.len() && (#[trigger] ids@[i])@.slot == slot && bound(
                    ids@[i]@,
                    index@,
                ) && docs.contains(ids@[i]@.doc_id) by {
            if search::allowed_slots(all, index@, docs, n).contains(slot) {
                let i = choose|i: int|
                    0 <= i < n && (#[trigger] all[i]).slot == slot && search::allowed_entry(
                        all[i],
                        index@,
                        docs,
                    );
                assert(all[i] == ids@[i]@);
                assert(ids@[i]@.slot == slot);
            }
            if exists|i: int|
                0 <= i < ids@.len() && (#[trigger] ids@[i])@.slot == slot && bound(
                    ids@[i]@,
                    index@,
                ) && docs.contains(ids@[i]@.doc_id) {
                let i = choose|i: int|
                    0 <= i < ids@.len() && (#[trigger] ids@[i])@.slot == slot && bound(
                        ids@[i]@,
                        index@,
                    ) && docs.contains(ids@[i]@.doc_id);
                assert(all[i] == ids@[i]@);
                assert(search::allowed_entry(all[i], index@, docs));
            }
        }
    }
}

/// The build parameters of an index are those that were given, and only an index
/// that is not there yet takes them.
pub proof fn parameters_are_taken_once(
    s: &VectorState,
    index: &str,
    m: usize,
    ef_construction: usize,
    metric: &str,
    r: Result<(IndexParams, QueryResult), LiteError>,
)
    requires
        call_ensures(plan::vector_set_params, (s, index, m, ef_construction, metric), r),
    ensures
        (exists|i: int| 0 <= i < s@.buckets.len() && (#[trigger] s@.buckets[i]).key == index@)
            ==> r is Err,
        r is Ok && m <= 255 ==> (r->Ok_0).0.m == m,
        r is Ok && ef_construction <= 65535 ==> (r->Ok_0).0.ef_construction == ef_construction,
        plan::lowercased(metric@) == "cosine"@ && (forall|i: int|
            0 <= i < s@.buckets.len() ==> (#[trigger] s@.buckets[i]).key != index@) ==> r is Ok
            && (r->Ok_0).0.metric == DistanceMetric::Cosine,
{
    lemma_bucket(s@.buckets, index@, 0);
    reveal_strlit("l2");
    reveal_strlit("euclidean");
    reveal_strlit("cosine");
    assert("l2"@[0] == 'l' && "euclidean"@[0] == 'e' && "cosine"@[0] == 'c');
}

proof fn lemma_bucket(buckets: Seq<crate::vector::state::BucketView>, index: Seq<char>, i: int)
    requires
        0 <= i,
    ensures
        state::bucket_from(buckets, index, i) is Some <==> exists|j: int|
            i <= j < buckets.len() && (#[trigger] buckets[j]).key == index,
    decreases buckets.len() - i,
{
    if i < buckets.len() && buckets[i].key != index {
        lemma_bucket(buckets, index, i + 1);
    }
}

/// The indexes of a collection are its own and those under its name and a colon
/// that are in memory or configured, each once and in the order of their bytes.
pub proof fn collection_has_its_own_indexes(
    collection: &str,
    live: &[String],
    configured: &[String],
    r: Vec<String>,
    key: Seq<char>,
)
    requires
        call_ensures(search::collection_indexes, (collection, live, configured), r),
    ensures
        names_view(r@).contains(key) <==> key == collection@ || ((exists|name: Seq<char>|
            #![trigger collection@ + seq![':'] + name]
            key == collection@ + seq![':'] + name) && (names_view(live@).contains(key)
            || names_view(configured@).contains(key))),
{
    reveal_strlit(":");
    assert(":"@ =~= seq![':']);
    let prefix = collection@ + ":"@;
    if search::owned(collection@, key) {
        let name = key.skip(prefix.len() as int);
        assert(key =~= key.take(prefix.len() as int) + name);
        assert(key == collection@ + seq![':'] + name);
    }
    if exists|name: Seq<char>|
        #![trigger collection@ + seq![':'] + name]
        key == collection@ + seq![':'] + name {
        let name = choose|name: Seq<char>|
            #![trigger collection@ + seq![':'] + name]
            key == collection@ + seq![':'] + name;
        assert(key.take(prefix.len() as int) =~= prefix);
    }
}

} // verus!
