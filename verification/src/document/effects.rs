//! What the steps of document writes leave behind, in the store, the history,
//! the text index and the queues.
use crate::document::batch;
use crate::document::batch::BatchItem;
use crate::document::body;
use crate::document::plan;
use crate::document::plan::{DocumentPut, ReadDocument, ReadFrom, VectorPart, VersionAsOf};
use crate::error::LiteError;
use crate::health::PressureLevel;
use crate::native;
use crate::steps;
use crate::steps::{RowView, Step, StepView};
use crate::value::{names_view, DatumView};
use crate::wire;
use vstd::prelude::*;

verus! {

/// A collection, or an index, and a document of it.
pub type Place = (Seq<char>, Seq<char>);

/// The fields of a row by their names.
pub type Fields = Map<Seq<char>, nodedb_types::Value>;

/// One version in a history. A tombstone has no fields.
pub struct Version {
    pub place: Place,
    pub fields: Option<Seq<(Seq<char>, nodedb_types::Value)>>,
    pub system_ms: i64,
    pub valid_from_ms: Option<i64>,
    pub valid_until_ms: Option<i64>,
}

/// A change that waits for synchronisation.
pub enum Change {
    Row(RowView),
    Text(Place),
    Vector { place: Place, dim: usize, field: Seq<char> },
    VectorGone(Place),
}

/// What is kept of documents and vectors.
pub struct Kept {
    /// The rows of the replicated store.
    pub rows: Map<Place, Fields>,
    /// The versions of documents, oldest first.
    pub history: Seq<Version>,
    /// The documents whose text is indexed, with the fields it was taken from.
    pub texts: Map<Place, Seq<(Seq<char>, nodedb_types::Value)>>,
    /// The vectors that are stored.
    pub vectors: Set<Place>,
    /// The vectors that are indexed in memory, with their dimensions.
    pub nodes: Map<Place, usize>,
    /// The rows whose deltas wait for synchronisation.
    pub unsent: Seq<RowView>,
    /// The rows of the latest write.
    pub latest: Seq<RowView>,
    /// The other changes that wait for synchronisation.
    pub queue: Seq<Change>,
}

/// The fields of a row after named values are set in order.
pub open spec fn set_fields(
    row: Fields,
    named: Seq<(Seq<char>, nodedb_types::Value)>,
) -> Fields
    decreases named.len(),
{
    if named.len() == 0 {
        row
    } else {
        set_fields(row, named.drop_last()).insert(named.last().0, named.last().1)
    }
}

/// The fields at a place, none where there is no row.
pub open spec fn fields_at(rows: Map<Place, Fields>, place: Place) -> Fields {
    if rows.dom().contains(place) {
        rows[place]
    } else {
        Map::empty()
    }
}

/// The rows after one more is written.
pub open spec fn with_row(rows: Map<Place, Fields>, row: RowView) -> Map<Place, Fields> {
    let place = (row.collection, row.id);
    rows.insert(place, set_fields(fields_at(rows, place), row.fields))
}

/// The rows after several more are written in order.
pub open spec fn with_rows(rows: Map<Place, Fields>, more: Seq<RowView>) -> Map<Place, Fields>
    decreases more.len(),
{
    if more.len() == 0 {
        rows
    } else {
        with_row(with_rows(rows, more.drop_last()), more.last())
    }
}

/// The rows other than those at the given places.
pub open spec fn spared(rows: Seq<RowView>, places: Seq<usize>) -> Seq<RowView>
    decreases rows.len(),
{
    if rows.len() == 0 {
        Seq::empty()
    } else {
        let before = spared(rows.drop_last(), places);
        if places.contains((rows.len() - 1) as usize) {
            before
        } else {
            before.push(rows.last())
        }
    }
}

/// What is kept after one step.
pub open spec fn step_taken(k: Kept, step: StepView) -> Kept {
    match step {
        StepView::UpsertRows { rows } => Kept {
            rows: with_rows(k.rows, rows),
            unsent: k.unsent + rows,
            latest: rows,
            ..k
        },
        StepView::DropPending => Kept {
            unsent: k.unsent.take(k.unsent.len() - k.latest.len()),
            ..k
        },
        StepView::DropPendingRows { places } => Kept {
            unsent: k.unsent.take(k.unsent.len() - k.latest.len()) + spared(k.latest, places),
            ..k
        },
        StepView::DeleteRow { collection, id } => Kept {
            rows: k.rows.remove((collection, id)),
            ..k
        },
        StepView::AppendVersion {
            collection,
            id,
            fields,
            system_ms,
            valid_from_ms,
            valid_until_ms,
        } => Kept {
            history: k.history.push(
                Version {
                    place: (collection, id),
                    fields: Some(fields),
                    system_ms,
                    valid_from_ms,
                    valid_until_ms,
                },
            ),
            ..k
        },
        StepView::AppendTombstone { collection, id, system_ms, valid_from_ms } => Kept {
            history: k.history.push(
                Version {
                    place: (collection, id),
                    fields: None,
                    system_ms,
                    valid_from_ms,
                    valid_until_ms: None,
                },
            ),
            ..k
        },
        StepView::PutVector { index, id } => Kept {
            vectors: k.vectors.insert((index, id)),
            ..k
        },
        StepView::RemoveVector { index, id } => Kept {
            vectors: k.vectors.remove((index, id)),
            ..k
        },
        StepView::IndexText { collection, id, fields, sync } => Kept {
            texts: k.texts.insert((collection, id), fields),
            queue: if sync {
                k.queue.push(Change::Text((collection, id)))
            } else {
                k.queue
            },
            ..k
        },
        StepView::RemoveText { collection, id } => Kept {
            texts: k.texts.remove((collection, id)),
            ..k
        },
        StepView::InsertNode { index, id, dim } => Kept {
            nodes: k.nodes.insert((index, id), dim),
            ..k
        },
        StepView::ReplaceNode { index, id, dim } => Kept {
            nodes: k.nodes.insert((index, id), dim),
            ..k
        },
        StepView::EnqueueInsert { collection, id, dim, field } => Kept {
            queue: k.queue.push(Change::Vector { place: (collection, id), dim, field }),
            ..k
        },
        StepView::EnqueueDelete { collection, id } => Kept {
            queue: k.queue.push(Change::VectorGone((collection, id))),
            ..k
        },
        _ => k,
    }
}

/// What is kept after steps are taken in order.
pub open spec fn after(k: Kept, all: Seq<StepView>) -> Kept
    decreases all.len(),
{
    if all.len() == 0 {
        k
    } else {
        step_taken(after(k, all.drop_last()), all.last())
    }
}

pub(crate) proof fn lemma_after_parts(k: Kept, a: Seq<StepView>, b: Seq<StepView>)
    ensures
        after(k, a + b) == after(after(k, a), b),
    decreases b.len(),
{
    if b.len() == 0 {
        assert(a + b =~= a);
    } else {
        assert((a + b).drop_last() =~= a + b.drop_last());
        assert((a + b).last() == b.last());
        lemma_after_parts(k, a, b.drop_last());
    }
}

pub(crate) proof fn lemma_after_one(k: Kept, step: StepView)
    ensures
        after(k, seq![step]) == step_taken(k, step),
{
    assert(seq![step].drop_last() =~= Seq::<StepView>::empty());
    reveal_with_fuel(after, 2);
}

pub(crate) proof fn lemma_after_when(k: Kept, c: bool, step: StepView)
    ensures
        after(k, steps::when(c, step)) == if c {
            step_taken(k, step)
        } else {
            k
        },
{
    lemma_after_one(k, step);
}

/// Whether two states agree on the documents and differ at most in which rows
/// were written last.
pub open spec fn same(a: Kept, b: Kept) -> bool {
    &&& a.rows =~= b.rows
    &&& a.history =~= b.history
    &&& a.texts =~= b.texts
    &&& a.vectors =~= b.vectors
    &&& a.nodes =~= b.nodes
    &&& a.unsent =~= b.unsent
    &&& a.queue =~= b.queue
}

/// A delete in a collection that keeps no history leaves no row and no text of
/// the document, and everything else as it was.
pub proof fn deleted_document_is_gone(
    k: Kept,
    collection: &str,
    id: &str,
    system_ms: i64,
    wall_ms: i64,
)
    ensures
        forall|r: Vec<Step>|
            #![trigger call_ensures(
                plan::document_delete,
                (collection, id, false, system_ms, wall_ms),
                r,
            )]
            call_ensures(plan::document_delete, (collection, id, false, system_ms, wall_ms), r)
                ==> same(
                after(k, steps::steps_view(r@)),
                Kept {
                    rows: k.rows.remove((collection@, id@)),
                    texts: k.texts.remove((collection@, id@)),
                    ..k
                },
            ),
{
    let all = plan::delete_steps(collection@, id@, false, system_ms, wall_ms);
    assert(all =~= seq![all[0]] + seq![all[1]]);
    lemma_after_parts(k, seq![all[0]], seq![all[1]]);
    lemma_after_one(k, all[0]);
    lemma_after_one(step_taken(k, all[0]), all[1]);
}

/// A delete in a collection with a history keeps the document in the store: its
/// history ends in a tombstone from now on, and its text is no longer indexed.
pub proof fn deleted_version_is_a_tombstone(
    k: Kept,
    collection: &str,
    id: &str,
    system_ms: i64,
    wall_ms: i64,
)
    ensures
        forall|r: Vec<Step>|
            #![trigger call_ensures(
                plan::document_delete,
                (collection, id, true, system_ms, wall_ms),
                r,
            )]
            call_ensures(plan::document_delete, (collection, id, true, system_ms, wall_ms), r)
                ==> same(
                after(k, steps::steps_view(r@)),
                Kept {
                    history: k.history.push(
                        Version {
                            place: (collection@, id@),
                            fields: None,
                            system_ms,
                            valid_from_ms: Some(wall_ms),
                            valid_until_ms: None,
                        },
                    ),
                    texts: k.texts.remove((collection@, id@)),
                    ..k
                },
            ),
{
    let all = plan::delete_steps(collection@, id@, true, system_ms, wall_ms);
    assert(all =~= seq![all[0]] + seq![all[1]]);
    lemma_after_parts(k, seq![all[0]], seq![all[1]]);
    lemma_after_one(k, all[0]);
    lemma_after_one(step_taken(k, all[0]), all[1]);
}

/// What is kept after a document is written at a place: a row with its fields
/// and its indexed text. Where it is synchronised, both changes wait for it.
pub open spec fn with_document(
    k: Kept,
    place: Place,
    fields: Seq<(Seq<char>, nodedb_types::Value)>,
    sync: bool,
) -> Kept {
    let row = RowView { collection: place.0, id: place.1, fields };
    Kept {
        rows: k.rows.insert(place, set_fields(fields_at(k.rows, place), fields)),
        texts: k.texts.insert(place, fields),
        unsent: if sync {
            k.unsent.push(row)
        } else {
            k.unsent
        },
        queue: if sync {
            k.queue.push(Change::Text(place))
        } else {
            k.queue
        },
        ..k
    }
}

/// What is kept after a live version is appended.
pub open spec fn with_version(
    k: Kept,
    place: Place,
    fields: Seq<(Seq<char>, nodedb_types::Value)>,
    system_ms: i64,
    from: Option<i64>,
    until: Option<i64>,
) -> Kept {
    Kept {
        history: k.history.push(
            Version {
                place,
                fields: Some(fields),
                system_ms,
                valid_from_ms: from,
                valid_until_ms: until,
            },
        ),
        ..k
    }
}

pub(crate) proof fn lemma_one_row(rows: Map<Place, Fields>, row: RowView)
    ensures
        with_rows(rows, seq![row]) == with_row(rows, row),
{
    assert(seq![row].drop_last() =~= Seq::<RowView>::empty());
    reveal_with_fuel(with_rows, 2);
}

/// A field that is set has its last value, and no other field is touched.
pub proof fn fields_take_the_last_value(
    row: Fields,
    named: Seq<(Seq<char>, nodedb_types::Value)>,
    name: Seq<char>,
)
    ensures
        (forall|i: int| 0 <= i < named.len() ==> (#[trigger] named[i]).0 != name) ==> (set_fields(
            row,
            named,
        ).dom().contains(name) == row.dom().contains(name) && set_fields(row, named)[name]
            == row[name]),
        forall|i: int|
            0 <= i < named.len() && (#[trigger] named[i]).0 == name && (forall|j: int|
                i < j < named.len() ==> (#[trigger] named[j]).0 != name) ==> set_fields(
                row,
                named,
            ).dom().contains(name) && set_fields(row, named)[name] == named[i].1,
    decreases named.len(),
{
    if named.len() > 0 {
        let rest = named.drop_last();
        fields_take_the_last_value(row, rest, name);
        if named.last().0 != name {
            assert forall|i: int|
                0 <= i < named.len() && (#[trigger] named[i]).0 == name && (forall|j: int|
                    i < j < named.len() ==> (#[trigger] named[j]).0 != name) implies set_fields(
                row,
                named,
            ).dom().contains(name) && set_fields(row, named)[name] == named[i].1 by {
                assert(rest[i] == named[i]);
                assert forall|j: int| i < j < rest.len() implies (#[trigger] rest[j]).0
                    != name by {
                    assert(rest[j] == named[j]);
                }
            }
            if forall|i: int| 0 <= i < named.len() ==> (#[trigger] named[i]).0 != name {
                assert forall|i: int| 0 <= i < rest.len() implies (#[trigger] rest[i]).0
                    != name by {
                    assert(rest[i] == named[i]);
                }
            }
        } else {
            assert(named[named.len() - 1].0 == name);
            assert forall|i: int|
                0 <= i < named.len() && (#[trigger] named[i]).0 == name && (forall|j: int|
                    i < j < named.len() ==> (#[trigger] named[j]).0 != name) implies set_fields(
                row,
                named,
            ).dom().contains(name) && set_fields(row, named)[name] == named[i].1 by {
                assert(i == named.len() - 1);
            }
        }
    }
}

/// A put writes the row and indexes the text of the document, both with the
/// fields that were given, and in a collection with a history it appends them as
/// the version that is valid from now on. Only a document that is synchronised
/// leaves something to send. Nothing else changes. Under critical memory
/// pressure nothing is planned.
pub proof fn put_document_is_kept(k: Kept, p: &DocumentPut)
    ensures
        forall|r: Result<Vec<Step>, LiteError>|
            #![trigger call_ensures(plan::document_put, (p,), r)]
            call_ensures(plan::document_put, (p,), r) ==> {
                &&& r is Ok <==> p.pressure != PressureLevel::Critical
                &&& r is Ok ==> same(
                    after(k, steps::steps_view(r->Ok_0@)),
                    with_document(
                        if p.bitemporal {
                            with_version(
                                k,
                                (p.collection@, p.id@),
                                steps::named_view(p.fields@),
                                p.system_ms,
                                Some(p.wall_ms),
                                None,
                            )
                        } else {
                            k
                        },
                        (p.collection@, p.id@),
                        steps::named_view(p.fields@),
                        p.sync,
                    ),
                )
            },
{
    let fields = steps::named_view(p.fields@);
    let row = RowView { collection: p.collection@, id: p.id@, fields };
    let a = StepView::UpsertRows { rows: seq![row] };
    let b = StepView::AppendVersion {
        collection: p.collection@,
        id: p.id@,
        fields,
        system_ms: p.system_ms,
        valid_from_ms: Some(p.wall_ms),
        valid_until_ms: None,
    };
    let c = StepView::IndexText { collection: p.collection@, id: p.id@, fields, sync: p.sync };
    let s1 = seq![a];
    let s2 = s1 + steps::when(!p.sync, StepView::DropPending);
    let s3 = s2 + steps::when(p.bitemporal, b);
    assert(plan::put_steps(*p) == s3 + seq![c]);
    lemma_after_one(k, a);
    lemma_one_row(k.rows, row);
    lemma_after_parts(k, s1, steps::when(!p.sync, StepView::DropPending));
    lemma_after_when(after(k, s1), !p.sync, StepView::DropPending);
    lemma_after_parts(k, s2, steps::when(p.bitemporal, b));
    lemma_after_when(after(k, s2), p.bitemporal, b);
    lemma_after_parts(k, s3, seq![c]);
    lemma_after_one(after(k, s3), c);
    assert((k.unsent + seq![row]).take(k.unsent.len() as int) =~= k.unsent);
    assert(k.unsent + seq![row] =~= k.unsent.push(row));
}

/// A put with valid times appends a version with just these times, from now on
/// where no beginning is given; otherwise it is a put. A collection without a
/// history refuses it.
pub proof fn put_with_valid_time_is_kept(
    k: Kept,
    p: &DocumentPut,
    from: Option<i64>,
    until: Option<i64>,
)
    ensures
        forall|r: Result<Vec<Step>, LiteError>|
            #![trigger call_ensures(plan::document_put_with_valid_time, (p, from, until), r)]
            call_ensures(plan::document_put_with_valid_time, (p, from, until), r) ==> {
                &&& r is Ok <==> p.bitemporal
                &&& r is Ok ==> same(
                    after(k, steps::steps_view(r->Ok_0@)),
                    with_document(
                        with_version(
                            k,
                            (p.collection@, p.id@),
                            steps::named_view(p.fields@),
                            p.system_ms,
                            if from is Some {
                                from
                            } else {
                                Some(p.wall_ms)
                            },
                            until,
                        ),
                        (p.collection@, p.id@),
                        steps::named_view(p.fields@),
                        p.sync,
                    ),
                )
            },
{
    let fields = steps::named_view(p.fields@);
    let row = RowView { collection: p.collection@, id: p.id@, fields };
    let a = StepView::UpsertRows { rows: seq![row] };
    let b = StepView::AppendVersion {
        collection: p.collection@,
        id: p.id@,
        fields,
        system_ms: p.system_ms,
        valid_from_ms: if from is Some {
            from
        } else {
            Some(p.wall_ms)
        },
        valid_until_ms: until,
    };
    let c = StepView::IndexText { collection: p.collection@, id: p.id@, fields, sync: p.sync };
    let s1 = seq![a];
    let s2 = s1 + steps::when(!p.sync, StepView::DropPending);
    let s3 = s2 + seq![b];
    assert(plan::put_valid_steps(*p, from, until) =~= s3 + seq![c]);
    lemma_after_one(k, a);
    lemma_one_row(k.rows, row);
    lemma_after_parts(k, s1, steps::when(!p.sync, StepView::DropPending));
    lemma_after_when(after(k, s1), !p.sync, StepView::DropPending);
    lemma_after_parts(k, s2, seq![b]);
    lemma_after_one(after(k, s2), b);
    lemma_after_parts(k, s3, seq![c]);
    lemma_after_one(after(k, s3), c);
    assert((k.unsent + seq![row]).take(k.unsent.len() as int) =~= k.unsent);
    assert(k.unsent + seq![row] =~= k.unsent.push(row));
}

/// A put followed by a delete in a collection without a history leaves no row
/// and no text at the place, whatever was there before.
pub proof fn put_and_deleted_document_is_absent(
    k: Kept,
    p: &DocumentPut,
    system_ms: i64,
    wall_ms: i64,
    put: Result<Vec<Step>, LiteError>,
    deleted: Vec<Step>,
)
    requires
        !p.bitemporal,
        p.pressure != PressureLevel::Critical,
        call_ensures(plan::document_put, (p,), put),
        call_ensures(
            plan::document_delete,
            (p.collection, p.id, false, system_ms, wall_ms),
            deleted,
        ),
    ensures
        put is Ok,
        after(after(k, steps::steps_view(put->Ok_0@)), steps::steps_view(deleted@)).rows
            == k.rows.remove((p.collection@, p.id@)),
        after(after(k, steps::steps_view(put->Ok_0@)), steps::steps_view(deleted@)).texts
            == k.texts.remove((p.collection@, p.id@)),
{
    put_document_is_kept(k, p);
    deleted_document_is_gone(
        after(k, steps::steps_view(put->Ok_0@)),
        p.collection,
        p.id,
        system_ms,
        wall_ms,
    );
    let place = (p.collection@, p.id@);
    let fields = steps::named_view(p.fields@);
    assert(k.rows.insert(place, set_fields(fields_at(k.rows, place), fields)).remove(place)
        =~= k.rows.remove(place));
    assert(k.texts.insert(place, fields).remove(place) =~= k.texts.remove(place));
}

/// A put with a vector keeps the document as a put does. Where there is a vector
/// it is stored, indexed and, in its own row, recorded with its dimension. It
/// waits for synchronisation where the document does and vectors are sent.
pub proof fn put_vector_is_kept(k: Kept, p: &DocumentPut, v: &VectorPart)
    ensures
        forall|r: Vec<Step>|
            #![trigger call_ensures(plan::document_put_with_vector, (p, v), r)]
            call_ensures(plan::document_put_with_vector, (p, v), r) ==> {
                let end = after(k, steps::steps_view(r@));
                let place = (p.collection@, p.id@);
                let at = (v.collection@, v.id@);
                let fields = steps::named_view(p.fields@);
                let row = RowView { collection: p.collection@, id: p.id@, fields };
                let dimension = plan::dimension_row(v.collection@, v.id@, v.dim);
                &&& end.texts == k.texts.insert(place, fields)
                &&& end.history == if p.bitemporal {
                    k.history.push(
                        Version {
                            place,
                            fields: Some(fields),
                            system_ms: p.system_ms,
                            valid_from_ms: Some(p.wall_ms),
                            valid_until_ms: None,
                        },
                    )
                } else {
                    k.history
                }
                &&& v.dim == 0 ==> {
                    &&& end.rows == with_row(k.rows, row)
                    &&& end.vectors == k.vectors
                    &&& end.nodes == k.nodes
                    &&& end.unsent == if p.sync {
                        k.unsent.push(row)
                    } else {
                        k.unsent
                    }
                    &&& end.queue == if p.sync {
                        k.queue.push(Change::Text(place))
                    } else {
                        k.queue
                    }
                }
                &&& v.dim > 0 ==> {
                    &&& end.rows == with_row(with_row(k.rows, row), dimension)
                    &&& end.vectors == k.vectors.insert(at)
                    &&& end.nodes == k.nodes.insert(at, v.dim)
                    &&& end.unsent == if p.sync {
                        k.unsent.push(row).push(dimension)
                    } else {
                        k.unsent
                    }
                    &&& end.queue == if p.sync && v.outbound {
                        k.queue.push(Change::Text(place)).push(
                            Change::Vector { place: at, dim: v.dim, field: ""@ },
                        )
                    } else if p.sync {
                        k.queue.push(Change::Text(place))
                    } else {
                        k.queue
                    }
                }
            },
{
    let fields = steps::named_view(p.fields@);
    let row = RowView { collection: p.collection@, id: p.id@, fields };
    let dimension = plan::dimension_row(v.collection@, v.id@, v.dim);
    let rows = if v.dim > 0 {
        seq![row, dimension]
    } else {
        seq![row]
    };
    let some = v.dim > 0;
    let a = StepView::UpsertRows { rows };
    let b = StepView::AppendVersion {
        collection: p.collection@,
        id: p.id@,
        fields,
        system_ms: p.system_ms,
        valid_from_ms: Some(p.wall_ms),
        valid_until_ms: None,
    };
    let c = StepView::PutVector { index: v.collection@, id: v.id@ };
    let d = StepView::IndexText { collection: p.collection@, id: p.id@, fields, sync: p.sync };
    let e = StepView::InsertNode { index: v.collection@, id: v.id@, dim: v.dim };
    let f = StepView::EnqueueInsert {
        collection: v.collection@,
        id: v.id@,
        dim: v.dim,
        field: ""@,
    };
    let send = v.dim > 0 && p.sync && v.outbound;
    let s1 = seq![a];
    let s2 = s1 + steps::when(!p.sync, StepView::DropPending);
    let s3 = s2 + steps::when(p.bitemporal, b);
    let s4 = s3 + steps::when(some, c);
    let s5 = s4 + seq![d];
    let s6 = s5 + steps::when(some, e);
    let s7 = s6 + steps::when(send, f);
    let s8 = s7 + steps::when(some, StepView::UpdateMemoryStats);
    assert(plan::put_with_vector_steps(*p, *v) == s8);
    lemma_after_one(k, a);
    lemma_one_row(k.rows, row);
    if some {
        assert(rows.drop_last() =~= seq![row]);
        assert(with_rows(k.rows, rows) == with_row(with_row(k.rows, row), dimension));
        assert(k.unsent + rows =~= k.unsent.push(row).push(dimension));
    } else {
        assert(k.unsent + rows =~= k.unsent.push(row));
    }
    assert((k.unsent + rows).take(k.unsent.len() as int) =~= k.unsent);
    lemma_after_parts(k, s1, steps::when(!p.sync, StepView::DropPending));
    lemma_after_when(after(k, s1), !p.sync, StepView::DropPending);
    lemma_after_parts(k, s2, steps::when(p.bitemporal, b));
    lemma_after_when(after(k, s2), p.bitemporal, b);
    lemma_after_parts(k, s3, steps::when(some, c));
    lemma_after_when(after(k, s3), some, c);
    lemma_after_parts(k, s4, seq![d]);
    lemma_after_one(after(k, s4), d);
    lemma_after_parts(k, s5, steps::when(some, e));
    lemma_after_when(after(k, s5), some, e);
    lemma_after_parts(k, s6, steps::when(send, f));
    lemma_after_when(after(k, s6), send, f);
    lemma_after_parts(k, s7, steps::when(some, StepView::UpdateMemoryStats));
    lemma_after_when(after(k, s7), some, StepView::UpdateMemoryStats);
}

/// The row that records a dimension holds it under its name.
pub proof fn dimension_is_recorded(row: Fields, collection: Seq<char>, id: Seq<char>, dim: usize)
    ensures
        plan::dimension_row(collection, id, dim).collection == collection,
        plan::dimension_row(collection, id, dim).id == id,
        set_fields(row, plan::dimension_row(collection, id, dim).fields) == row.insert(
            "embedding_dim"@,
            native::native_of(DatumView::Integer(dim as i64)),
        ),
{
    let fields = plan::dimension_row(collection, id, dim).fields;
    assert(fields.drop_last() =~= Seq::<(Seq<char>, nodedb_types::Value)>::empty());
    reveal_with_fuel(set_fields, 2);
}

/// A document of a collection with a history is read from its current version,
/// any other from the store. A read at a time is one of a collection with a
/// history, keeps the valid time it was given, and without a time of its own
/// sees every version.
pub proof fn reads_go_where_the_document_is(
    bitemporal: bool,
    as_of: Option<i64>,
    valid: Option<i64>,
    system_ms: i64,
)
    ensures
        forall|r: ReadFrom| #[trigger]
            call_ensures(plan::document_get, (bitemporal,), r) ==> (r == ReadFrom::CurrentVersion
                <==> bitemporal),
        forall|r: Result<VersionAsOf, LiteError>| #[trigger]
            call_ensures(plan::document_get_as_of, (bitemporal, as_of, valid), r) ==> {
                &&& r is Ok <==> bitemporal
                &&& r is Ok ==> r->Ok_0.valid_ms == valid
                &&& r is Ok && as_of is Some ==> r->Ok_0.system_ms == as_of->0
                &&& r is Ok && as_of is None ==> system_ms <= r->Ok_0.system_ms
            },
{
}

/// The row that records the dimension of a vector.
pub open spec fn dimension_of(at: Place, dim: usize) -> RowView {
    RowView {
        collection: at.0,
        id: at.1,
        fields: seq![("embedding_dim"@, native::native_of(DatumView::Integer(dim as i64)))],
    }
}

/// What is kept after one item of a batch is written under an identifier: the
/// document and, where it has a vector, the vector with its dimension.
pub open spec fn with_item(
    k: Kept,
    item: BatchItem,
    id: Seq<char>,
    now_ms: i64,
    outbound: bool,
) -> Kept {
    let place = (item.doc_collection@, id);
    let fields = steps::named_view(item.fields@);
    let a = if item.bitemporal {
        with_version(k, place, fields, now_ms, None, None)
    } else {
        k
    };
    let b = with_document(a, place, fields, item.sync);
    if item.embedding is Some && item.embedding->0 > 0 {
        let at = (item.vector_collection@, item.id@);
        let dim = item.embedding->0;
        Kept {
            rows: with_row(b.rows, dimension_of(at, dim)),
            unsent: if item.sync {
                b.unsent.push(dimension_of(at, dim))
            } else {
                b.unsent
            },
            vectors: b.vectors.insert(at),
            nodes: b.nodes.insert(at, dim),
            queue: if item.sync && outbound {
                b.queue.push(Change::Vector { place: at, dim, field: ""@ })
            } else {
                b.queue
            },
            ..b
        }
    } else {
        b
    }
}

/// What is kept after items are written one after the other.
pub open spec fn with_items(
    k: Kept,
    items: Seq<BatchItem>,
    ids: Seq<Seq<char>>,
    now_ms: i64,
    outbound: bool,
) -> Kept
    decreases items.len(),
{
    if items.len() == 0 {
        k
    } else {
        with_item(
            with_items(k, items.drop_last(), ids.drop_last(), now_ms, outbound),
            items.last(),
            ids.last(),
            now_ms,
            outbound,
        )
    }
}

/// The rows of the items that are synchronised.
spec fn sent_rows(items: Seq<BatchItem>, ids: Seq<Seq<char>>) -> Seq<RowView>
    decreases items.len(),
{
    if items.len() == 0 {
        Seq::empty()
    } else {
        let item = items.last();
        let before = sent_rows(items.drop_last(), ids.drop_last());
        let row = RowView {
            collection: item.doc_collection@,
            id: ids.last(),
            fields: steps::named_view(item.fields@),
        };
        if !item.sync {
            before
        } else if item.embedding is Some && item.embedding->0 > 0 {
            before.push(row).push(
                dimension_of((item.vector_collection@, item.id@), item.embedding->0),
            )
        } else {
            before.push(row)
        }
    }
}

proof fn lemma_spared_by(rows: Seq<RowView>, a: Seq<usize>, b: Seq<usize>)
    requires
        forall|i: int|
            0 <= i < rows.len() ==> a.contains(#[trigger] (i as usize)) == b.contains(i as usize),
    ensures
        spared(rows, a) == spared(rows, b),
    decreases rows.len(),
{
    if rows.len() > 0 {
        lemma_spared_by(rows.drop_last(), a, b);
        let i = rows.len() - 1;
        assert(a.contains(i as usize) == b.contains(i as usize));
    }
}

proof fn lemma_spared_rows(items: Seq<BatchItem>, ids: Seq<Seq<char>>)
    requires
        ids.len() == items.len(),
        2 * items.len() <= usize::MAX,
    ensures
        batch::batch_rows(items, ids).len() <= 2 * items.len(),
        forall|j: usize| #[trigger]
            batch::local_rows(items, ids).contains(j) ==> j < batch::batch_rows(items, ids).len(),
        spared(batch::batch_rows(items, ids), batch::local_rows(items, ids)) == sent_rows(
            items,
            ids,
        ),
    decreases items.len(),
{
    if items.len() > 0 {
        let item = items.last();
        let rest = items.drop_last();
        let rest_ids = ids.drop_last();
        lemma_spared_rows(rest, rest_ids);
        let rows = batch::batch_rows(rest, rest_ids);
        let places = batch::local_rows(rest, rest_ids);
        let all = batch::batch_rows(items, ids);
        let local = batch::local_rows(items, ids);
        let n = rows.len();
        let row = plan::document_row(item.doc_collection@, ids.last(), item.fields@);
        let one = rows.push(row);
        assert(one.drop_last() =~= rows);
        assert forall|j: usize| #[trigger] local.contains(j) implies (places.contains(j) || (
        !item.sync && (j == n || (batch::item_dim(item) > 0 && j == n + 1)))) by {
            let i = choose|i: int| 0 <= i < local.len() && local[i] == j;
            if i < places.len() {
                assert(places[i] == j);
            }
        }
        assert forall|j: usize| #[trigger] places.contains(j) implies local.contains(j) by {
            let i = choose|i: int| 0 <= i < places.len() && places[i] == j;
            assert(local[i] == j);
        }
        if !item.sync {
            assert(local[places.len() as int] == n as usize);
            if batch::item_dim(item) > 0 {
                assert(local[places.len() as int + 1] == (n + 1) as usize);
                assert(local.contains((n + 1) as usize));
            }
            assert(local.contains(n as usize));
        }
        assert forall|i: int| 0 <= i < rows.len() implies places.contains(#[trigger] (i as usize))
            == local.contains(i as usize) by {
            assert(local.contains(i as usize) ==> places.contains(i as usize));
        }
        lemma_spared_by(rows, places, local);
        assert(spared(one, local) == if item.sync {
            spared(rows, local).push(row)
        } else {
            spared(rows, local)
        });
        if batch::item_dim(item) > 0 {
            let dim = plan::dimension_row(item.vector_collection@, item.id@, batch::item_dim(item));
            assert(all =~= one.push(dim));
            assert(all.drop_last() =~= one);
            assert((all.len() - 1) as usize == (n + 1) as usize);
        } else {
            assert(all =~= one);
        }
    }
}

proof fn lemma_rows_of_items(
    k: Kept,
    items: Seq<BatchItem>,
    ids: Seq<Seq<char>>,
    now_ms: i64,
    outbound: bool,
)
    requires
        ids.len() == items.len(),
    ensures
        with_items(k, items, ids, now_ms, outbound).rows == with_rows(
            k.rows,
            batch::batch_rows(items, ids),
        ),
        with_items(k, items, ids, now_ms, outbound).unsent =~= k.unsent + sent_rows(items, ids),
    decreases items.len(),
{
    if items.len() > 0 {
        let item = items.last();
        let rest = items.drop_last();
        let rest_ids = ids.drop_last();
        lemma_rows_of_items(k, rest, rest_ids, now_ms, outbound);
        let rows = batch::batch_rows(rest, rest_ids);
        let row = plan::document_row(item.doc_collection@, ids.last(), item.fields@);
        assert(rows.push(row).drop_last() =~= rows);
        assert(with_rows(k.rows, rows.push(row)) == with_row(with_rows(k.rows, rows), row));
        if batch::item_dim(item) > 0 {
            let dim = plan::dimension_row(item.vector_collection@, item.id@, batch::item_dim(item));
            let both = rows.push(row).push(dim);
            assert(both.drop_last() =~= rows.push(row));
            assert(with_rows(k.rows, both) == with_row(with_rows(k.rows, rows.push(row)), dim));
            assert(batch::batch_rows(items, ids) == both);
        } else {
            assert(batch::batch_rows(items, ids) == rows.push(row));
        }
    }
}

/// Whether two states agree on all but the rows and their deltas.
spec fn same_besides_rows(a: Kept, b: Kept) -> bool {
    &&& a.history =~= b.history
    &&& a.texts =~= b.texts
    &&& a.vectors =~= b.vectors
    &&& a.nodes =~= b.nodes
    &&& a.queue =~= b.queue
}

proof fn lemma_item_steps(
    k: Kept,
    l: Kept,
    item: BatchItem,
    id: Seq<char>,
    now_ms: i64,
    outbound: bool,
)
    requires
        same_besides_rows(k, l),
    ensures
        same_besides_rows(
            after(k, batch::item_steps(item, id, now_ms, outbound)),
            with_item(l, item, id, now_ms, outbound),
        ),
        after(k, batch::item_steps(item, id, now_ms, outbound)).rows == k.rows,
        after(k, batch::item_steps(item, id, now_ms, outbound)).unsent == k.unsent,
{
    let dim = batch::item_dim(item);
    let fields = steps::named_view(item.fields@);
    let a = StepView::AppendVersion {
        collection: item.doc_collection@,
        id,
        fields,
        system_ms: now_ms,
        valid_from_ms: None,
        valid_until_ms: None,
    };
    let b = StepView::PutVector { index: item.vector_collection@, id: item.id@ };
    let c = StepView::IndexText {
        collection: item.doc_collection@,
        id,
        fields,
        sync: item.sync,
    };
    let d = StepView::InsertNode { index: item.vector_collection@, id: item.id@, dim };
    let e = StepView::EnqueueInsert {
        collection: item.vector_collection@,
        id: item.id@,
        dim,
        field: ""@,
    };
    let send = dim > 0 && item.sync && outbound;
    let s1 = steps::when(item.bitemporal, a);
    let s2 = s1 + steps::when(dim > 0, b);
    let s3 = s2 + seq![c];
    let s4 = s3 + steps::when(dim > 0, d);
    let s5 = s4 + steps::when(send, e);
    assert(batch::item_steps(item, id, now_ms, outbound) == s5);
    lemma_after_when(k, item.bitemporal, a);
    lemma_after_parts(k, s1, steps::when(dim > 0, b));
    lemma_after_when(after(k, s1), dim > 0, b);
    lemma_after_parts(k, s2, seq![c]);
    lemma_after_one(after(k, s2), c);
    lemma_after_parts(k, s3, steps::when(dim > 0, d));
    lemma_after_when(after(k, s3), dim > 0, d);
    lemma_after_parts(k, s4, steps::when(send, e));
    lemma_after_when(after(k, s4), send, e);
}

proof fn lemma_items_steps(
    k: Kept,
    l: Kept,
    items: Seq<BatchItem>,
    ids: Seq<Seq<char>>,
    now_ms: i64,
    outbound: bool,
)
    requires
        same_besides_rows(k, l),
    ensures
        same_besides_rows(
            after(k, batch::items_steps(items, ids, now_ms, outbound)),
            with_items(l, items, ids, now_ms, outbound),
        ),
        after(k, batch::items_steps(items, ids, now_ms, outbound)).rows == k.rows,
        after(k, batch::items_steps(items, ids, now_ms, outbound)).unsent == k.unsent,
    decreases items.len(),
{
    if items.len() > 0 {
        let rest = batch::items_steps(items.drop_last(), ids.drop_last(), now_ms, outbound);
        let last = batch::item_steps(items.last(), ids.last(), now_ms, outbound);
        lemma_items_steps(k, l, items.drop_last(), ids.drop_last(), now_ms, outbound);
        lemma_after_parts(k, rest, last);
        lemma_item_steps(
            after(k, rest),
            with_items(l, items.drop_last(), ids.drop_last(), now_ms, outbound),
            items.last(),
            ids.last(),
            now_ms,
            outbound,
        );
    }
}

/// A batch leaves what its items would leave if they were written one after the
/// other, each under its own identifier or a fresh one where it has none. Under
/// critical memory pressure a batch that is not empty is refused.
pub proof fn batch_is_one_put_each(
    k: Kept,
    items: &[BatchItem],
    pressure: PressureLevel,
    now_ms: i64,
    outbound: bool,
)
    requires
        2 * items@.len() <= usize::MAX,
    ensures
        forall|r: Result<(Vec<Step>, Vec<String>), LiteError>|
            #![trigger call_ensures(
                batch::document_put_with_vector_batch_impl,
                (items, pressure, now_ms, outbound),
                r,
            )]
            call_ensures(
                batch::document_put_with_vector_batch_impl,
                (items, pressure, now_ms, outbound),
                r,
            ) ==> {
                &&& r is Ok <==> items@.len() == 0 || pressure != PressureLevel::Critical
                &&& r is Ok ==> r->Ok_0.1@.len() == items@.len()
                &&& r is Ok ==> forall|i: int|
                    0 <= i < items@.len() ==> (#[trigger] r->Ok_0.1@[i])@.len() > 0 && (
                    items@[i].doc_id@.len() > 0 ==> r->Ok_0.1@[i]@ == items@[i].doc_id@)
                &&& r is Ok ==> same(
                    after(k, steps::steps_view(r->Ok_0.0@)),
                    with_items(k, items@, names_view(r->Ok_0.1@), now_ms, outbound),
                )
            },
{
    assert forall|r: Result<(Vec<Step>, Vec<String>), LiteError>|
        #![trigger call_ensures(
            batch::document_put_with_vector_batch_impl,
            (items, pressure, now_ms, outbound),
            r,
        )]
        call_ensures(
            batch::document_put_with_vector_batch_impl,
            (items, pressure, now_ms, outbound),
            r,
        ) implies {
        &&& r is Ok <==> items@.len() == 0 || pressure != PressureLevel::Critical
        &&& r is Ok ==> r->Ok_0.1@.len() == items@.len()
        &&& r is Ok ==> forall|i: int|
            0 <= i < items@.len() ==> (#[trigger] r->Ok_0.1@[i])@.len() > 0 && (
            items@[i].doc_id@.len() > 0 ==> r->Ok_0.1@[i]@ == items@[i].doc_id@)
        &&& r is Ok ==> same(
            after(k, steps::steps_view(r->Ok_0.0@)),
            with_items(k, items@, names_view(r->Ok_0.1@), now_ms, outbound),
        )
    } by {
        if r is Ok && items@.len() > 0 {
            let ids = names_view(r->Ok_0.1@);
            assert forall|i: int| 0 <= i < items@.len() implies (#[trigger] r->Ok_0.1@[i])@.len()
                > 0 && (items@[i].doc_id@.len() > 0 ==> r->Ok_0.1@[i]@ == items@[i].doc_id@) by {
                assert(ids[i] == r->Ok_0.1@[i]@);
                assert(batch::resolves(items@[i].doc_id@, ids[i]));
            }
            let rows = batch::batch_rows(items@, ids);
            let local = batch::local_rows(items@, ids);
            let a = StepView::UpsertRows { rows };
            let b = StepView::DropPendingRows { places: local };
            let some = local.len() > 0;
            let head = seq![a] + steps::when(some, b);
            let body = batch::items_steps(items@, ids, now_ms, outbound);
            let last = steps::when(batch::any_vector(items@), StepView::UpdateMemoryStats);
            assert(steps::steps_view(r->Ok_0.0@) == head + body + last);
            lemma_spared_rows(items@, ids);
            lemma_rows_of_items(k, items@, ids, now_ms, outbound);
            lemma_after_one(k, a);
            lemma_after_parts(k, seq![a], steps::when(some, b));
            lemma_after_when(after(k, seq![a]), some, b);
            assert((k.unsent + rows).take(k.unsent.len() as int) =~= k.unsent);
            let start = after(k, head);
            if !some {
                lemma_nothing_spared(rows, local);
            }
            assert(start.unsent =~= k.unsent + sent_rows(items@, ids));
            lemma_after_parts(k, head, body);
            lemma_items_steps(start, k, items@, ids, now_ms, outbound);
            lemma_after_parts(k, head + body, last);
            lemma_after_when(
                after(k, head + body),
                batch::any_vector(items@),
                StepView::UpdateMemoryStats,
            );
        } else if r is Ok {
            assert(after(k, Seq::<StepView>::empty()) == k);
        }
    }
}

proof fn lemma_nothing_spared(rows: Seq<RowView>, places: Seq<usize>)
    requires
        places.len() == 0,
    ensures
        spared(rows, places) == rows,
    decreases rows.len(),
{
    if rows.len() > 0 {
        lemma_nothing_spared(rows.drop_last(), places);
        assert(rows.drop_last().push(rows.last()) =~= rows);
    }
}

/// A stored version is read as the document of its identifier with the fields
/// that its body holds, none where it is empty.
pub proof fn version_is_read_as_its_document(id: &str, stored: &[u8], r: ReadDocument)
    requires
        call_ensures(plan::decoded_version_to_document, (id, stored), r),
    ensures
        r.id@ == id@,
        stored@.len() == 0 ==> r.fields@.len() == 0,
        stored@.len() > 0 && body::text_keyed(stored@) ==> wire::fields_map(r.fields@) == (
        match plan::decoded_body(stored@) {
            Some(m) => m,
            None => Map::<Seq<char>, nodedb_types::Value>::empty(),
        }),
{
}

} // verus!
