//! Routing of document operations.
//!
//! A handler is given what it needs of the operation. What only the handlers read
//! is in its encoded form.
use crate::error;
use crate::error::{ErrorView, LiteError};
use crate::kv::fields::UpdateValue;
use crate::text;
use vstd::prelude::*;

verus! {

/// A document operation of a physical plan.
#[derive(Debug)]
pub enum DocumentOp {
    /// Reads a document.
    PointGet { collection: String, document_id: String },
    /// Scans a collection.
    Scan { collection: String, limit: usize, offset: usize },
    /// Scans a range of a collection.
    RangeScan { collection: String, lower: Option<Vec<u8>>, upper: Option<Vec<u8>>, limit: usize },
    /// Reads documents through an index.
    IndexedFetch { collection: String, path: String, value: String, limit: usize, offset: usize },
    /// Looks an index up.
    IndexLookup { collection: String, path: String, value: String },
    /// Estimates the size of a collection.
    EstimateCount { collection: String },
    /// Writes a document.
    PointPut { collection: String, document_id: String, value: Vec<u8> },
    /// Inserts a document.
    PointInsert { collection: String, document_id: String, value: Vec<u8>, if_absent: bool },
    /// Updates a document.
    PointUpdate { collection: String, document_id: String, updates: Vec<(String, UpdateValue)> },
    /// Deletes a document.
    PointDelete { collection: String, document_id: String },
    /// Inserts several documents.
    BatchInsert { collection: String, documents: Vec<(String, Vec<u8>)> },
    /// Inserts or updates a document.
    Upsert {
        collection: String,
        document_id: String,
        value: Vec<u8>,
        on_conflict_updates: Vec<(String, UpdateValue)>,
    },
    /// Deletes a whole collection.
    Truncate { collection: String },
    /// Updates several documents.
    BulkUpdate { collection: String, updates: Vec<(String, UpdateValue)> },
    /// Deletes several documents.
    BulkDelete { collection: String },
    /// Registers a collection.
    Register { collection: String, storage_mode: Vec<u8> },
    /// Drops an index.
    DropIndex { collection: String, field: String },
    /// Fills an index.
    BackfillIndex { collection: String, path: String },
    /// Inserts the rows of a query.
    InsertSelect { target_collection: String, source_collection: String, source_limit: usize },
    /// Updates rows from a join.
    UpdateFromJoin {
        target_collection: String,
        source_collection: String,
        source_alias: String,
        target_join_col: String,
        source_join_col: String,
        updates: Vec<(String, UpdateValue)>,
    },
    /// Merges one collection into another.
    Merge {
        target_collection: String,
        source_collection: String,
        source_alias: String,
        target_join_col: String,
        source_join_col: String,
        clauses: Vec<Vec<u8>>,
    },
    /// Scans a collection for materialisation.
    MaterializeScan { collection: String, cursor: Vec<u8>, count: usize },
    /// Maintains a materialised sum.
    ApplyBalanceDelta { collection: String, column: String },
    /// Resolves a governed write.
    ResolveWrite,
    /// Replays a resolved governed write.
    ResolvedWrite,
}

/// The handler of a document operation, with what it is given.
#[derive(Debug, Clone, Copy)]
pub enum DocumentHandler<'a> {
    PointGet { collection: &'a String, document_id: &'a String },
    Scan { collection: &'a String, limit: usize, offset: usize },
    RangeScan {
        collection: &'a String,
        lower: &'a Option<Vec<u8>>,
        upper: &'a Option<Vec<u8>>,
        limit: usize,
    },
    IndexedFetch {
        collection: &'a String,
        path: &'a String,
        value: &'a String,
        limit: usize,
        offset: usize,
    },
    IndexLookup { collection: &'a String, path: &'a String, value: &'a String },
    EstimateCount { collection: &'a String },
    PointPut { collection: &'a String, document_id: &'a String, value: &'a Vec<u8> },
    PointInsert {
        collection: &'a String,
        document_id: &'a String,
        value: &'a Vec<u8>,
        if_absent: bool,
    },
    PointUpdate {
        collection: &'a String,
        document_id: &'a String,
        updates: &'a Vec<(String, UpdateValue)>,
    },
    PointDelete { collection: &'a String, document_id: &'a String },
    BatchInsert { collection: &'a String, documents: &'a Vec<(String, Vec<u8>)> },
    Upsert {
        collection: &'a String,
        document_id: &'a String,
        value: &'a Vec<u8>,
        on_conflict_updates: &'a Vec<(String, UpdateValue)>,
    },
    Truncate { collection: &'a String },
    BulkUpdate { collection: &'a String, updates: &'a Vec<(String, UpdateValue)> },
    BulkDelete { collection: &'a String },
    Register { collection: &'a String, storage_mode: &'a Vec<u8> },
    DropIndex { collection: &'a String, field: &'a String },
    BackfillIndex { collection: &'a String, path: &'a String },
    InsertSelect {
        target_collection: &'a String,
        source_collection: &'a String,
        source_limit: usize,
    },
    UpdateFromJoin {
        target_collection: &'a String,
        source_collection: &'a String,
        source_alias: &'a String,
        target_join_col: &'a String,
        source_join_col: &'a String,
        updates: &'a Vec<(String, UpdateValue)>,
    },
    Merge {
        target_collection: &'a String,
        source_collection: &'a String,
        source_alias: &'a String,
        target_join_col: &'a String,
        source_join_col: &'a String,
        clauses: &'a Vec<Vec<u8>>,
    },
    MaterializeScan { collection: &'a String, cursor: &'a Vec<u8>, count: usize },
}

/// Where an operation goes.
pub open spec fn route<'a>(op: &'a DocumentOp) -> Result<DocumentHandler<'a>, ErrorView> {
    match op {
        DocumentOp::PointGet { collection, document_id } => Ok(
            DocumentHandler::PointGet { collection, document_id },
        ),
        DocumentOp::Scan { collection, limit, offset } => Ok(
            DocumentHandler::Scan { collection, limit: *limit, offset: *offset },
        ),
        DocumentOp::RangeScan { collection, lower, upper, limit } => Ok(
            DocumentHandler::RangeScan { collection, lower, upper, limit: *limit },
        ),
        DocumentOp::IndexedFetch { collection, path, value, limit, offset } => Ok(
            DocumentHandler::IndexedFetch {
                collection,
                path,
                value,
                limit: *limit,
                offset: *offset,
            },
        ),
        DocumentOp::IndexLookup { collection, path, value } => Ok(
            DocumentHandler::IndexLookup { collection, path, value },
        ),
        DocumentOp::EstimateCount { collection } => Ok(
            DocumentHandler::EstimateCount { collection },
        ),
        DocumentOp::PointPut { collection, document_id, value } => Ok(
            DocumentHandler::PointPut { collection, document_id, value },
        ),
        DocumentOp::PointInsert { collection, document_id, value, if_absent } => Ok(
            DocumentHandler::PointInsert {
                collection,
                document_id,
                value,
                if_absent: *if_absent,
            },
        ),
        DocumentOp::PointUpdate { collection, document_id, updates } => Ok(
            DocumentHandler::PointUpdate { collection, document_id, updates },
        ),
        DocumentOp::PointDelete { collection, document_id } => Ok(
            DocumentHandler::PointDelete { collection, document_id },
        ),
        DocumentOp::BatchInsert { collection, documents } => Ok(
            DocumentHandler::BatchInsert { collection, documents },
        ),
        DocumentOp::Upsert { collection, document_id, value, on_conflict_updates } => Ok(
            DocumentHandler::Upsert { collection, document_id, value, on_conflict_updates },
        ),
        DocumentOp::Truncate { collection } => Ok(DocumentHandler::Truncate { collection }),
        DocumentOp::BulkUpdate { collection, updates } => Ok(
            DocumentHandler::BulkUpdate { collection, updates },
        ),
        DocumentOp::BulkDelete { collection } => Ok(DocumentHandler::BulkDelete { collection }),
        DocumentOp::Register { collection, storage_mode } => Ok(
            DocumentHandler::Register { collection, storage_mode },
        ),
        DocumentOp::DropIndex { collection, field } => Ok(
            DocumentHandler::DropIndex { collection, field },
        ),
        DocumentOp::BackfillIndex { collection, path } => Ok(
            DocumentHandler::BackfillIndex { collection, path },
        ),
        DocumentOp::InsertSelect { target_collection, source_collection, source_limit } => Ok(
            DocumentHandler::InsertSelect {
                target_collection,
                source_collection,
                source_limit: *source_limit,
            },
        ),
        DocumentOp::UpdateFromJoin {
            target_collection,
            source_collection,
            source_alias,
            target_join_col,
            source_join_col,
            updates,
        } => Ok(
            DocumentHandler::UpdateFromJoin {
                target_collection,
                source_collection,
                source_alias,
                target_join_col,
                source_join_col,
                updates,
            },
        ),
        DocumentOp::Merge {
            target_collection,
            source_collection,
            source_alias,
            target_join_col,
            source_join_col,
            clauses,
        } => Ok(
            DocumentHandler::Merge {
                target_collection,
                source_collection,
                source_alias,
                target_join_col,
                source_join_col,
                clauses,
            },
        ),
        DocumentOp::MaterializeScan { collection, cursor, count } => Ok(
            DocumentHandler::MaterializeScan { collection, cursor, count: *count },
        ),
        DocumentOp::ApplyBalanceDelta { collection, column } => Err(
            ErrorView::Unsupported(
                "ApplyBalanceDelta on "@ + collection@ + "."@ + column@
                    + ": materialized-sum bindings are maintained by the Origin data plane and are unsupported on the Lite engine"@,
            ),
        ),
        DocumentOp::ResolveWrite => {
            Err(
                ErrorView::Unsupported(
                    "DocumentOp::ResolveWrite: the governed resolve/apply write path belongs to the Origin Control Plane and has no equivalent on the single-node Lite engine"@,
                ),
            )
        },
        DocumentOp::ResolvedWrite => {
            Err(
                ErrorView::Unsupported(
                    "DocumentOp::ResolvedWrite: the governed resolve/apply write path belongs to the Origin Control Plane and has no equivalent on the single-node Lite engine"@,
                ),
            )
        },
    }
}

/// What dispatching yields.
pub open spec fn outcome<'a>(r: Result<DocumentHandler<'a>, LiteError>) -> Result<
    DocumentHandler<'a>,
    ErrorView,
> {
    match r {
        Ok(h) => Ok(h),
        Err(e) => Err(e@),
    }
}

/// Chooses the handler of a document operation, or refuses it.
pub fn dispatch<'a>(op: &'a DocumentOp) -> (r: Result<DocumentHandler<'a>, LiteError>)
    ensures
        outcome(r) == route(op),
{
    match op {
        DocumentOp::PointGet { collection, document_id } => Ok(
            DocumentHandler::PointGet { collection, document_id },
        ),
        DocumentOp::Scan { collection, limit, offset } => Ok(
            DocumentHandler::Scan { collection, limit: *limit, offset: *offset },
        ),
        DocumentOp::RangeScan { collection, lower, upper, limit } => Ok(
            DocumentHandler::RangeScan { collection, lower, upper, limit: *limit },
        ),
        DocumentOp::IndexedFetch { collection, path, value, limit, offset } => Ok(
            DocumentHandler::IndexedFetch {
                collection,
                path,
                value,
                limit: *limit,
                offset: *offset,
            },
        ),
        DocumentOp::IndexLookup { collection, path, value } => Ok(
            DocumentHandler::IndexLookup { collection, path, value },
        ),
        DocumentOp::EstimateCount { collection } => Ok(
            DocumentHandler::EstimateCount { collection },
        ),
        DocumentOp::PointPut { collection, document_id, value } => Ok(
            DocumentHandler::PointPut { collection, document_id, value },
        ),
        DocumentOp::PointInsert { collection, document_id, value, if_absent } => Ok(
            DocumentHandler::PointInsert {
                collection,
                document_id,
                value,
                if_absent: *if_absent,
            },
        ),
        DocumentOp::PointUpdate { collection, document_id, updates } => Ok(
            DocumentHandler::PointUpdate { collection, document_id, updates },
        ),
        DocumentOp::PointDelete { collection, document_id } => Ok(
            DocumentHandler::PointDelete { collection, document_id },
        ),
        DocumentOp::BatchInsert { collection, documents } => Ok(
            DocumentHandler::BatchInsert { collection, documents },
        ),
        DocumentOp::Upsert { collection, document_id, value, on_conflict_updates } => Ok(
            DocumentHandler::Upsert { collection, document_id, value, on_conflict_updates },
        ),
        DocumentOp::Truncate { collection } => Ok(DocumentHandler::Truncate { collection }),
        DocumentOp::BulkUpdate { collection, updates } => Ok(
            DocumentHandler::BulkUpdate { collection, updates },
        ),
        DocumentOp::BulkDelete { collection } => Ok(DocumentHandler::BulkDelete { collection }),
        DocumentOp::Register { collection, storage_mode } => Ok(
            DocumentHandler::Register { collection, storage_mode },
        ),
        DocumentOp::DropIndex { collection, field } => Ok(
            DocumentHandler::DropIndex { collection, field },
        ),
        DocumentOp::BackfillIndex { collection, path } => Ok(
            DocumentHandler::BackfillIndex { collection, path },
        ),
        DocumentOp::InsertSelect { target_collection, source_collection, source_limit } => Ok(
            DocumentHandler::InsertSelect {
                target_collection,
                source_collection,
                source_limit: *source_limit,
            },
        ),
        DocumentOp::UpdateFromJoin {
            target_collection,
            source_collection,
            source_alias,
            target_join_col,
            source_join_col,
            updates,
        } => Ok(
            DocumentHandler::UpdateFromJoin {
                target_collection,
                source_collection,
                source_alias,
                target_join_col,
                source_join_col,
                updates,
            },
        ),
        DocumentOp::Merge {
            target_collection,
            source_collection,
            source_alias,
            target_join_col,
            source_join_col,
            clauses,
        } => Ok(
            DocumentHandler::Merge {
                target_collection,
                source_collection,
                source_alias,
                target_join_col,
                source_join_col,
                clauses,
            },
        ),
        DocumentOp::MaterializeScan { collection, cursor, count } => Ok(
            DocumentHandler::MaterializeScan { collection, cursor, count: *count },
        ),
        DocumentOp::ApplyBalanceDelta { collection, column } => {
            let detail = text::concat5(
                "ApplyBalanceDelta on ",
                collection,
                ".",
                column,
                ": materialized-sum bindings are maintained by the Origin data plane and are unsupported on the Lite engine",
            );
            Err(LiteError::Unsupported { detail })
        },
        DocumentOp::ResolveWrite => {
            Err(
                error::unsupported(
                    "DocumentOp::ResolveWrite: the governed resolve/apply write path belongs to the Origin Control Plane and has no equivalent on the single-node Lite engine",
                ),
            )
        },
        DocumentOp::ResolvedWrite => {
            Err(
                error::unsupported(
                    "DocumentOp::ResolvedWrite: the governed resolve/apply write path belongs to the Origin Control Plane and has no equivalent on the single-node Lite engine",
                ),
            )
        },
    }
}

} // verus!
