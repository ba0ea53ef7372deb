//! The steps that a write of documents and vectors is made of.
//!
//! A planner returns the steps in the order in which they are to be made; a
//! step that fails ends the write. The vectors themselves stay with the host.
use vstd::prelude::*;

verus! {

/// How the vectors of an index are compressed.
#[verifier::external_type_specification]
#[verifier::external_body]
pub struct ExVectorQuantization(nodedb_types::VectorQuantization);

/// The number type in which an index holds its vectors.
#[verifier::external_type_specification]
#[verifier::external_body]
pub struct ExVectorStorageDtype(nodedb_types::vector_dtype::VectorStorageDtype);

/// A row of the replicated store.
#[derive(Debug)]
pub struct CrdtRow {
    /// The collection.
    pub collection: String,
    /// The row.
    pub id: String,
    /// The fields to set.
    pub fields: Vec<(String, nodedb_types::Value)>,
}

/// What a [`CrdtRow`] is.
pub struct RowView {
    pub collection: Seq<char>,
    pub id: Seq<char>,
    pub fields: Seq<(Seq<char>, nodedb_types::Value)>,
}

/// What named values are, in order.
pub open spec fn named_view(fields: Seq<(String, nodedb_types::Value)>) -> Seq<
    (Seq<char>, nodedb_types::Value),
> {
    fields.map_values(|f: (String, nodedb_types::Value)| (f.0@, f.1))
}

impl View for CrdtRow {
    type V = RowView;

    open spec fn view(&self) -> RowView {
        RowView { collection: self.collection@, id: self.id@, fields: named_view(self.fields@) }
    }
}

/// What rows are, in order.
pub open spec fn crdt_rows_view(rows: Seq<CrdtRow>) -> Seq<RowView> {
    rows.map_values(|r: CrdtRow| r@)
}

/// One step of a write.
#[derive(Debug)]
pub enum Step {
    /// Write rows to the replicated store under one lock, each with a delta of
    /// its own.
    UpsertRows { rows: Vec<CrdtRow> },
    /// Keep the deltas of the rows just written from being synchronised.
    DropPending,
    /// Keep the deltas of some of the rows just written, by their places, from
    /// being synchronised.
    DropPendingRows { places: Vec<usize> },
    /// Delete a row of the replicated store.
    DeleteRow { collection: String, id: String },
    /// Append a live version, with the fields of the document, to its history.
    AppendVersion {
        collection: String,
        id: String,
        fields: Vec<(String, nodedb_types::Value)>,
        system_ms: i64,
        valid_from_ms: Option<i64>,
        valid_until_ms: Option<i64>,
    },
    /// Append a tombstone to the history of a document.
    AppendTombstone {
        collection: String,
        id: String,
        system_ms: i64,
        valid_from_ms: Option<i64>,
    },
    /// Write the vector of a document to the store.
    PutVector { index: String, id: String },
    /// Remove the vector of a document from the store.
    RemoveVector { index: String, id: String },
    /// Index the text and the sparse terms of a document, and queue the change of
    /// the index where the document is synchronised.
    IndexText {
        collection: String,
        id: String,
        fields: Vec<(String, nodedb_types::Value)>,
        sync: bool,
    },
    /// Remove the text and the sparse terms of a document from their indexes.
    RemoveText { collection: String, id: String },
    /// Register the shape of an index that has none.
    RegisterIndex {
        index: String,
        field: String,
        dim: u32,
        quantization: nodedb_types::VectorQuantization,
        storage_dtype: nodedb_types::vector_dtype::VectorStorageDtype,
    },
    /// Forget the shape and the build parameters of an index.
    UnregisterIndex { index: String },
    /// Forget that an index could not be loaded.
    ClearUnloadable { index: String },
    /// Put the vector of a document into an index in memory.
    InsertNode { index: String, id: String, dim: usize },
    /// Put the vector of a document into an index in memory, in the place of
    /// the one before.
    ReplaceNode { index: String, id: String, dim: usize },
    /// Delete a slot of an index in memory.
    DeleteNode { index: String, slot: u32 },
    /// Drop the code of a slot and save the sidecar of its index.
    DropCode { index: String, slot: u32 },
    /// Remove the saved image of an index.
    DropCheckpoint { index: String },
    /// Queue an inserted vector for synchronisation.
    EnqueueInsert { collection: String, id: String, dim: usize, field: String },
    /// Queue a deleted vector for synchronisation.
    EnqueueDelete { collection: String, id: String },
    /// Bring the memory statistics up to date.
    UpdateMemoryStats,
}

/// What a [`Step`] does.
pub enum StepView {
    UpsertRows { rows: Seq<RowView> },
    DropPending,
    DropPendingRows { places: Seq<usize> },
    DeleteRow { collection: Seq<char>, id: Seq<char> },
    AppendVersion {
        collection: Seq<char>,
        id: Seq<char>,
        fields: Seq<(Seq<char>, nodedb_types::Value)>,
        system_ms: i64,
        valid_from_ms: Option<i64>,
        valid_until_ms: Option<i64>,
    },
    AppendTombstone {
        collection: Seq<char>,
        id: Seq<char>,
        system_ms: i64,
        valid_from_ms: Option<i64>,
    },
    PutVector { index: Seq<char>, id: Seq<char> },
    RemoveVector { index: Seq<char>, id: Seq<char> },
    IndexText {
        collection: Seq<char>,
        id: Seq<char>,
        fields: Seq<(Seq<char>, nodedb_types::Value)>,
        sync: bool,
    },
    RemoveText { collection: Seq<char>, id: Seq<char> },
    RegisterIndex {
        index: Seq<char>,
        field: Seq<char>,
        dim: u32,
        quantization: nodedb_types::VectorQuantization,
        storage_dtype: nodedb_types::vector_dtype::VectorStorageDtype,
    },
    UnregisterIndex { index: Seq<char> },
    ClearUnloadable { index: Seq<char> },
    InsertNode { index: Seq<char>, id: Seq<char>, dim: usize },
    ReplaceNode { index: Seq<char>, id: Seq<char>, dim: usize },
    DeleteNode { index: Seq<char>, slot: u32 },
    DropCode { index: Seq<char>, slot: u32 },
    DropCheckpoint { index: Seq<char> },
    EnqueueInsert { collection: Seq<char>, id: Seq<char>, dim: usize, field: Seq<char> },
    EnqueueDelete { collection: Seq<char>, id: Seq<char> },
    UpdateMemoryStats,
}

impl View for Step {
    type V = StepView;

    open spec fn view(&self) -> StepView {
        match *self {
            Step::UpsertRows { rows } => StepView::UpsertRows { rows: crdt_rows_view(rows@) },
            Step::DropPending => StepView::DropPending,
            Step::DropPendingRows { places } => StepView::DropPendingRows { places: places@ },
            Step::DeleteRow { collection, id } => StepView::DeleteRow {
                collection: collection@,
                id: id@,
            },
            Step::AppendVersion {
                collection,
                id,
                fields,
                system_ms,
                valid_from_ms,
                valid_until_ms,
            } => {
                StepView::AppendVersion {
                    collection: collection@,
                    id: id@,
                    fields: named_view(fields@),
                    system_ms,
                    valid_from_ms,
                    valid_until_ms,
                }
            },
            Step::AppendTombstone { collection, id, system_ms, valid_from_ms } => {
                StepView::AppendTombstone {
                    collection: collection@,
                    id: id@,
                    system_ms,
                    valid_from_ms,
                }
            },
            Step::PutVector { index, id } => StepView::PutVector { index: index@, id: id@ },
            Step::RemoveVector { index, id } => StepView::RemoveVector { index: index@, id: id@ },
            Step::IndexText { collection, id, fields, sync } => StepView::IndexText {
                collection: collection@,
                id: id@,
                fields: named_view(fields@),
                sync,
            },
            Step::RemoveText { collection, id } => StepView::RemoveText {
                collection: collection@,
                id: id@,
            },
            Step::RegisterIndex { index, field, dim, quantization, storage_dtype } => {
                StepView::RegisterIndex {
                    index: index@,
                    field: field@,
                    dim,
                    quantization,
                    storage_dtype,
                }
            },
            Step::UnregisterIndex { index } => StepView::UnregisterIndex { index: index@ },
            Step::ClearUnloadable { index } => StepView::ClearUnloadable { index: index@ },
            Step::InsertNode { index, id, dim } => StepView::InsertNode {
                index: index@,
                id: id@,
                dim,
            },
            Step::ReplaceNode { index, id, dim } => StepView::ReplaceNode {
                index: index@,
                id: id@,
                dim,
            },
            Step::DeleteNode { index, slot } => StepView::DeleteNode { index: index@, slot },
            Step::DropCode { index, slot } => StepView::DropCode { index: index@, slot },
            Step::DropCheckpoint { index } => StepView::DropCheckpoint { index: index@ },
            Step::EnqueueInsert { collection, id, dim, field } => StepView::EnqueueInsert {
                collection: collection@,
                id: id@,
                dim,
                field: field@,
            },
            Step::EnqueueDelete { collection, id } => StepView::EnqueueDelete {
                collection: collection@,
                id: id@,
            },
            Step::UpdateMemoryStats => StepView::UpdateMemoryStats,
        }
    }
}

/// What steps do, in order.
pub open spec fn steps_view(steps: Seq<Step>) -> Seq<StepView> {
    steps.map_values(|s: Step| s@)
}

/// Appends a step.
pub fn push_step(steps: &mut Vec<Step>, step: Step)
    ensures
        steps_view(final(steps)@) == steps_view(old(steps)@).push(step@),
{
    steps.push(step);
    proof {
        assert(steps_view(steps@) =~= steps_view(old(steps)@).push(step@));
    }
}

/// No steps yet.
pub fn no_steps() -> (r: Vec<Step>)
    ensures
        steps_view(r@) == Seq::<StepView>::empty(),
{
    let r: Vec<Step> = Vec::new();
    proof {
        assert(steps_view(r@) =~= Seq::<StepView>::empty());
    }
    r
}

/// `step` alone where the condition holds, else nothing.
pub open spec fn when(condition: bool, step: StepView) -> Seq<StepView> {
    if condition {
        seq![step]
    } else {
        Seq::empty()
    }
}

} // verus!
