//! Routing of maintenance operations.
//!
//! A handler is given what it needs of the operation. What only the handlers read
//! is in its encoded form.
use crate::error;
use crate::error::{ErrorView, LiteError};
use vstd::prelude::*;

verus! {

/// A maintenance operation of a physical plan.
#[derive(Debug)]
pub enum MetaOp {
    /// Creates a snapshot.
    CreateSnapshot,
    /// Compacts the store.
    Compact,
    /// Writes a checkpoint.
    Checkpoint,
    /// Drops a collection.
    UnregisterCollection { tenant_id: u64, name: String, purge_lsn: u64 },
    /// Drops a materialised view.
    UnregisterMaterializedView { tenant_id: u64, name: String },
    /// Renames a collection.
    RenameCollection { tenant_id: u64, old_collection: String, new_collection: String },
    /// Converts a collection.
    ConvertCollection { collection: String, target_type: String, schema_json: String },
    /// Creates a continuous aggregate.
    RegisterContinuousAggregate { def: Vec<u8> },
    /// Drops a continuous aggregate.
    UnregisterContinuousAggregate { name: String },
    /// Lists continuous aggregates.
    ListContinuousAggregates,
    /// Applies retention to continuous aggregates.
    ApplyContinuousAggRetention,
    /// Reads a watermark.
    QueryAggregateWatermark { aggregate_name: String },
    /// Reads the last values of a collection.
    QueryLastValues { collection: String },
    /// Reads the last value of a series.
    QueryLastValue { collection: String, series_id: u64 },
    /// Purges old edges.
    TemporalPurgeEdgeStore { tenant_id: u64, collection: String, cutoff_system_ms: i64 },
    /// Purges old strict documents.
    TemporalPurgeDocumentStrict { tenant_id: u64, collection: String, cutoff_system_ms: i64 },
    /// Purges old columnar rows.
    TemporalPurgeColumnar { tenant_id: u64, collection: String, cutoff_system_ms: i64 },
    /// Purges old replicated documents.
    TemporalPurgeCrdt { tenant_id: u64, collection: String, cutoff_system_ms: i64 },
    /// Purges old array cells.
    TemporalPurgeArray { tenant_id: u64, array_id: String, cutoff_system_ms: i64 },
    /// Enforces a retention period.
    EnforceTimeseriesRetention { collection: String, max_age_ms: i64 },
    /// Alters an array.
    AlterArray {
        array_id: String,
        audit_retain_ms: Option<Option<i64>>,
        minimum_audit_retain_ms: Option<Option<u64>>,
    },
    /// Writes a synonym group.
    PutSynonymGroup { tenant_id: u64, record_json: String },
    /// Deletes a synonym group.
    DeleteSynonymGroup { tenant_id: u64, name: String },
    /// Rebuilds an index.
    RebuildIndex { collection: String, index_name: Option<String>, concurrent: bool },
    /// Measures a collection.
    QueryCollectionSize { tenant_id: u64, name: String },
    /// Appends to the log.
    WalAppend { payload: Vec<u8> },
    /// Cancels a request.
    Cancel { target_request_id: u64 },
    /// Runs a transaction.
    TransactionBatch { plans: Vec<Vec<u8>> },
    /// Runs a static scheduled transaction.
    CalvinExecuteStatic { plans: Vec<Vec<u8>> },
    /// Takes part in a scheduled transaction passively.
    CalvinExecutePassive,
    /// Takes part in a scheduled transaction actively.
    CalvinExecuteActive { plans: Vec<Vec<u8>> },
    /// Creates a tenant's snapshot.
    CreateTenantSnapshot { tenant_id: u64 },
    /// Restores a tenant's snapshot.
    RestoreTenantSnapshot { tenant_id: u64, snapshot: Vec<u8> },
    /// Purges a tenant.
    PurgeTenant { tenant_id: u64 },
    /// Stages a write.
    StageWrite,
    /// Drops staged writes.
    DropTxnOverlay,
    /// Marks a savepoint.
    MarkSavepoint,
    /// Rolls back to a savepoint.
    RollbackToSavepoint,
    /// Folds staged writes together.
    ResolveTxn,
    /// Flushes the scheduler.
    CalvinFlush,
    /// Resolves a scheduled transaction.
    CalvinResolve,
    /// Drops a scheduled transaction.
    CalvinDrop,
    /// Records write versions.
    RecordCalvinWriteVersions,
}

/// The handler of a maintenance operation, with what it is given.
#[derive(Debug, Clone, Copy)]
pub enum MetaHandler<'a> {
    CreateSnapshot,
    Compact,
    Checkpoint,
    UnregisterCollection { tenant_id: u64, name: &'a String, purge_lsn: u64 },
    UnregisterMaterializedView { tenant_id: u64, name: &'a String },
    RenameCollection { tenant_id: u64, old_collection: &'a String, new_collection: &'a String },
    ConvertCollection { collection: &'a String, target_type: &'a String, schema_json: &'a String },
    RegisterContinuousAggregate { def: &'a Vec<u8> },
    UnregisterContinuousAggregate { name: &'a String },
    ListContinuousAggregates,
    ApplyContinuousAggRetention,
    QueryAggregateWatermark { aggregate_name: &'a String },
    QueryLastValues { collection: &'a String },
    QueryLastValue { collection: &'a String, series_id: u64 },
    TemporalPurgeEdgeStore { tenant_id: u64, collection: &'a String, cutoff_system_ms: i64 },
    TemporalPurgeDocumentStrict { tenant_id: u64, collection: &'a String, cutoff_system_ms: i64 },
    TemporalPurgeColumnar { tenant_id: u64, collection: &'a String, cutoff_system_ms: i64 },
    TemporalPurgeCrdt { tenant_id: u64, collection: &'a String, cutoff_system_ms: i64 },
    TemporalPurgeArray { tenant_id: u64, array_id: &'a String, cutoff_system_ms: i64 },
    EnforceTimeseriesRetention { collection: &'a String, max_age_ms: i64 },
    AlterArray {
        array_id: &'a String,
        audit_retain_ms: Option<Option<i64>>,
        minimum_audit_retain_ms: Option<Option<u64>>,
    },
    PutSynonymGroup { tenant_id: u64, record_json: &'a String },
    DeleteSynonymGroup { tenant_id: u64, name: &'a String },
    RebuildIndex { collection: &'a String, index_name: &'a Option<String>, concurrent: bool },
    QueryCollectionSize { tenant_id: u64, name: &'a String },
    WalAppend { payload: &'a Vec<u8> },
    Cancel { target_request_id: u64 },
    TransactionBatch { plans: &'a Vec<Vec<u8>> },
    CalvinExecuteStatic { plans: &'a Vec<Vec<u8>> },
    CalvinExecutePassive,
    CalvinExecuteActive { plans: &'a Vec<Vec<u8>> },
    CreateTenantSnapshot { tenant_id: u64 },
    RestoreTenantSnapshot { tenant_id: u64, snapshot: &'a Vec<u8> },
    PurgeTenant { tenant_id: u64 },
}

/// Where an operation goes.
pub open spec fn route<'a>(op: &'a MetaOp) -> Result<MetaHandler<'a>, ErrorView> {
    match op {
        MetaOp::CreateSnapshot => Ok(MetaHandler::CreateSnapshot),
        MetaOp::Compact => Ok(MetaHandler::Compact),
        MetaOp::Checkpoint => Ok(MetaHandler::Checkpoint),
        MetaOp::UnregisterCollection { tenant_id, name, purge_lsn } => Ok(
            MetaHandler::UnregisterCollection {
                tenant_id: *tenant_id,
                name,
                purge_lsn: *purge_lsn,
            },
        ),
        MetaOp::UnregisterMaterializedView { tenant_id, name } => Ok(
            MetaHandler::UnregisterMaterializedView { tenant_id: *tenant_id, name },
        ),
        MetaOp::RenameCollection { tenant_id, old_collection, new_collection } => Ok(
            MetaHandler::RenameCollection {
                tenant_id: *tenant_id,
                old_collection,
                new_collection,
            },
        ),
        MetaOp::ConvertCollection { collection, target_type, schema_json } => Ok(
            MetaHandler::ConvertCollection { collection, target_type, schema_json },
        ),
        MetaOp::RegisterContinuousAggregate { def } => Ok(
            MetaHandler::RegisterContinuousAggregate { def },
        ),
        MetaOp::UnregisterContinuousAggregate { name } => Ok(
            MetaHandler::UnregisterContinuousAggregate { name },
        ),
        MetaOp::ListContinuousAggregates => Ok(MetaHandler::ListContinuousAggregates),
        MetaOp::ApplyContinuousAggRetention => Ok(MetaHandler::ApplyContinuousAggRetention),
        MetaOp::QueryAggregateWatermark { aggregate_name } => Ok(
            MetaHandler::QueryAggregateWatermark { aggregate_name },
        ),
        MetaOp::QueryLastValues { collection } => Ok(MetaHandler::QueryLastValues { collection }),
        MetaOp::QueryLastValue { collection, series_id } => Ok(
            MetaHandler::QueryLastValue { collection, series_id: *series_id },
        ),
        MetaOp::TemporalPurgeEdgeStore { tenant_id, collection, cutoff_system_ms } => Ok(
            MetaHandler::TemporalPurgeEdgeStore {
                tenant_id: *tenant_id,
                collection,
                cutoff_system_ms: *cutoff_system_ms,
            },
        ),
        MetaOp::TemporalPurgeDocumentStrict { tenant_id, collection, cutoff_system_ms } => Ok(
            MetaHandler::TemporalPurgeDocumentStrict {
                tenant_id: *tenant_id,
                collection,
                cutoff_system_ms: *cutoff_system_ms,
            },
        ),
        MetaOp::TemporalPurgeColumnar { tenant_id, collection, cutoff_system_ms } => Ok(
            MetaHandler::TemporalPurgeColumnar {
                tenant_id: *tenant_id,
                collection,
                cutoff_system_ms: *cutoff_system_ms,
            },
        ),
        MetaOp::TemporalPurgeCrdt { tenant_id, collection, cutoff_system_ms } => Ok(
            MetaHandler::TemporalPurgeCrdt {
                tenant_id: *tenant_id,
                collection,
                cutoff_system_ms: *cutoff_system_ms,
            },
        ),
        MetaOp::TemporalPurgeArray { tenant_id, array_id, cutoff_system_ms } => Ok(
            MetaHandler::TemporalPurgeArray {
                tenant_id: *tenant_id,
                array_id,
                cutoff_system_ms: *cutoff_system_ms,
            },
        ),
        MetaOp::EnforceTimeseriesRetention { collection, max_age_ms } => Ok(
            MetaHandler::EnforceTimeseriesRetention { collection, max_age_ms: *max_age_ms },
        ),
        MetaOp::AlterArray { array_id, audit_retain_ms, minimum_audit_retain_ms } => Ok(
            MetaHandler::AlterArray {
                array_id,
                audit_retain_ms: *audit_retain_ms,
                minimum_audit_retain_ms: *minimum_audit_retain_ms,
            },
        ),
        MetaOp::PutSynonymGroup { tenant_id, record_json } => Ok(
            MetaHandler::PutSynonymGroup { tenant_id: *tenant_id, record_json },
        ),
        MetaOp::DeleteSynonymGroup { tenant_id, name } => Ok(
            MetaHandler::DeleteSynonymGroup { tenant_id: *tenant_id, name },
        ),
        MetaOp::RebuildIndex { collection, index_name, concurrent } => Ok(
            MetaHandler::RebuildIndex { collection, index_name, concurrent: *concurrent },
        ),
        MetaOp::QueryCollectionSize { tenant_id, name } => Ok(
            MetaHandler::QueryCollectionSize { tenant_id: *tenant_id, name },
        ),
        MetaOp::WalAppend { payload } => Ok(MetaHandler::WalAppend { payload }),
        MetaOp::Cancel { target_request_id } => Ok(
            MetaHandler::Cancel { target_request_id: *target_request_id },
        ),
        MetaOp::TransactionBatch { plans } => Ok(MetaHandler::TransactionBatch { plans }),
        MetaOp::CalvinExecuteStatic { plans } => Ok(MetaHandler::CalvinExecuteStatic { plans }),
        MetaOp::CalvinExecutePassive => Ok(MetaHandler::CalvinExecutePassive),
        MetaOp::CalvinExecuteActive { plans } => Ok(MetaHandler::CalvinExecuteActive { plans }),
        MetaOp::CreateTenantSnapshot { tenant_id } => Ok(
            MetaHandler::CreateTenantSnapshot { tenant_id: *tenant_id },
        ),
        MetaOp::RestoreTenantSnapshot { tenant_id, snapshot } => Ok(
            MetaHandler::RestoreTenantSnapshot { tenant_id: *tenant_id, snapshot },
        ),
        MetaOp::PurgeTenant { tenant_id } => Ok(MetaHandler::PurgeTenant { tenant_id: *tenant_id }),
        MetaOp::StageWrite => {
            Err(
                ErrorView::Unsupported(
                    "StageWrite targets the Data Plane per-core transaction overlay; unsupported on the single-node Lite engine"@,
                ),
            )
        },
        MetaOp::DropTxnOverlay => {
            Err(
                ErrorView::Unsupported(
                    "DropTxnOverlay releases a Data Plane per-core transaction overlay; unsupported on the single-node Lite engine"@,
                ),
            )
        },
        MetaOp::MarkSavepoint => {
            Err(
                ErrorView::Unsupported(
                    "MarkSavepoint marks the Data Plane per-core overlay undo journals; unsupported on the single-node Lite engine"@,
                ),
            )
        },
        MetaOp::RollbackToSavepoint => {
            Err(
                ErrorView::Unsupported(
                    "RollbackToSavepoint replays Data Plane per-core overlay undo journals; unsupported on the single-node Lite engine"@,
                ),
            )
        },
        MetaOp::ResolveTxn => {
            Err(
                ErrorView::Unsupported(
                    "ResolveTxn folds staged Data Plane write plans into one redo record; unsupported on the single-node Lite engine"@,
                ),
            )
        },
        MetaOp::CalvinFlush => {
            Err(
                ErrorView::Unsupported(
                    "CalvinFlush is a deterministic-scheduler op; unsupported on the single-node Lite engine"@,
                ),
            )
        },
        MetaOp::CalvinResolve => {
            Err(
                ErrorView::Unsupported(
                    "CalvinResolve is a deterministic-scheduler op; unsupported on the single-node Lite engine"@,
                ),
            )
        },
        MetaOp::CalvinDrop => {
            Err(
                ErrorView::Unsupported(
                    "CalvinDrop is a deterministic-scheduler op; unsupported on the single-node Lite engine"@,
                ),
            )
        },
        MetaOp::RecordCalvinWriteVersions => {
            Err(
                ErrorView::Unsupported(
                    "RecordCalvinWriteVersions maintains the cluster write-version registry; unsupported on the single-node Lite engine"@,
                ),
            )
        },
    }
}

/// What dispatching yields.
pub open spec fn outcome<'a>(r: Result<MetaHandler<'a>, LiteError>) -> Result<
    MetaHandler<'a>,
    ErrorView,
> {
    match r {
        Ok(h) => Ok(h),
        Err(e) => Err(e@),
    }
}

/// Chooses the handler of a maintenance operation, or refuses it.
pub fn dispatch<'a>(op: &'a MetaOp) -> (r: Result<MetaHandler<'a>, LiteError>)
    ensures
        outcome(r) == route(op),
{
    match op {
        MetaOp::CreateSnapshot => Ok(MetaHandler::CreateSnapshot),
        MetaOp::Compact => Ok(MetaHandler::Compact),
        MetaOp::Checkpoint => Ok(MetaHandler::Checkpoint),
        MetaOp::UnregisterCollection { tenant_id, name, purge_lsn } => Ok(
            MetaHandler::UnregisterCollection {
                tenant_id: *tenant_id,
                name,
                purge_lsn: *purge_lsn,
            },
        ),
        MetaOp::UnregisterMaterializedView { tenant_id, name } => Ok(
            MetaHandler::UnregisterMaterializedView { tenant_id: *tenant_id, name },
        ),
        MetaOp::RenameCollection { tenant_id, old_collection, new_collection } => Ok(
            MetaHandler::RenameCollection {
                tenant_id: *tenant_id,
                old_collection,
                new_collection,
            },
        ),
        MetaOp::ConvertCollection { collection, target_type, schema_json } => Ok(
            MetaHandler::ConvertCollection { collection, target_type, schema_json },
        ),
        MetaOp::RegisterContinuousAggregate { def } => Ok(
            MetaHandler::RegisterContinuousAggregate { def },
        ),
        MetaOp::UnregisterContinuousAggregate { name } => Ok(
            MetaHandler::UnregisterContinuousAggregate { name },
        ),
        MetaOp::ListContinuousAggregates => Ok(MetaHandler::ListContinuousAggregates),
        MetaOp::ApplyContinuousAggRetention => Ok(MetaHandler::ApplyContinuousAggRetention),
        MetaOp::QueryAggregateWatermark { aggregate_name } => Ok(
            MetaHandler::QueryAggregateWatermark { aggregate_name },
        ),
        MetaOp::QueryLastValues { collection } => Ok(MetaHandler::QueryLastValues { collection }),
        MetaOp::QueryLastValue { collection, series_id } => Ok(
            MetaHandler::QueryLastValue { collection, series_id: *series_id },
        ),
        MetaOp::TemporalPurgeEdgeStore { tenant_id, collection, cutoff_system_ms } => Ok(
            MetaHandler::TemporalPurgeEdgeStore {
                tenant_id: *tenant_id,
                collection,
                cutoff_system_ms: *cutoff_system_ms,
            },
        ),
        MetaOp::TemporalPurgeDocumentStrict { tenant_id, collection, cutoff_system_ms } => Ok(
            MetaHandler::TemporalPurgeDocumentStrict {
                tenant_id: *tenant_id,
                collection,
                cutoff_system_ms: *cutoff_system_ms,
            },
        ),
        MetaOp::TemporalPurgeColumnar { tenant_id, collection, cutoff_system_ms } => Ok(
            MetaHandler::TemporalPurgeColumnar {
                tenant_id: *tenant_id,
                collection,
                cutoff_system_ms: *cutoff_system_ms,
            },
        ),
        MetaOp::TemporalPurgeCrdt { tenant_id, collection, cutoff_system_ms } => Ok(
            MetaHandler::TemporalPurgeCrdt {
                tenant_id: *tenant_id,
                collection,
                cutoff_system_ms: *cutoff_system_ms,
            },
        ),
        MetaOp::TemporalPurgeArray { tenant_id, array_id, cutoff_system_ms } => Ok(
            MetaHandler::TemporalPurgeArray {
                tenant_id: *tenant_id,
                array_id,
                cutoff_system_ms: *cutoff_system_ms,
            },
        ),
        MetaOp::EnforceTimeseriesRetention { collection, max_age_ms } => Ok(
            MetaHandler::EnforceTimeseriesRetention { collection, max_age_ms: *max_age_ms },
        ),
        MetaOp::AlterArray { array_id, audit_retain_ms, minimum_audit_retain_ms } => Ok(
            MetaHandler::AlterArray {
                array_id,
                audit_retain_ms: *audit_retain_ms,
                minimum_audit_retain_ms: *minimum_audit_retain_ms,
            },
        ),
        MetaOp::PutSynonymGroup { tenant_id, record_json } => Ok(
            MetaHandler::PutSynonymGroup { tenant_id: *tenant_id, record_json },
        ),
        MetaOp::DeleteSynonymGroup { tenant_id, name } => Ok(
            MetaHandler::DeleteSynonymGroup { tenant_id: *tenant_id, name },
        ),
        MetaOp::RebuildIndex { collection, index_name, concurrent } => Ok(
            MetaHandler::RebuildIndex { collection, index_name, concurrent: *concurrent },
        ),
        MetaOp::QueryCollectionSize { tenant_id, name } => Ok(
            MetaHandler::QueryCollectionSize { tenant_id: *tenant_id, name },
        ),
        MetaOp::WalAppend { payload } => Ok(MetaHandler::WalAppend { payload }),
        MetaOp::Cancel { target_request_id } => Ok(
            MetaHandler::Cancel { target_request_id: *target_request_id },
        ),
        MetaOp::TransactionBatch { plans } => Ok(MetaHandler::TransactionBatch { plans }),
        MetaOp::CalvinExecuteStatic { plans } => Ok(MetaHandler::CalvinExecuteStatic { plans }),
        MetaOp::CalvinExecutePassive => Ok(MetaHandler::CalvinExecutePassive),
        MetaOp::CalvinExecuteActive { plans } => Ok(MetaHandler::CalvinExecuteActive { plans }),
        MetaOp::CreateTenantSnapshot { tenant_id } => Ok(
            MetaHandler::CreateTenantSnapshot { tenant_id: *tenant_id },
        ),
        MetaOp::RestoreTenantSnapshot { tenant_id, snapshot } => Ok(
            MetaHandler::RestoreTenantSnapshot { tenant_id: *tenant_id, snapshot },
        ),
        MetaOp::PurgeTenant { tenant_id } => Ok(MetaHandler::PurgeTenant { tenant_id: *tenant_id }),
        MetaOp::StageWrite => {
            Err(
                error::unsupported(
                    "StageWrite targets the Data Plane per-core transaction overlay; unsupported on the single-node Lite engine",
                ),
            )
        },
        MetaOp::DropTxnOverlay => {
            Err(
                error::unsupported(
                    "DropTxnOverlay releases a Data Plane per-core transaction overlay; unsupported on the single-node Lite engine",
                ),
            )
        },
        MetaOp::MarkSavepoint => {
            Err(
                error::unsupported(
                    "MarkSavepoint marks the Data Plane per-core overlay undo journals; unsupported on the single-node Lite engine",
                ),
            )
        },
        MetaOp::RollbackToSavepoint => {
            Err(
                error::unsupported(
                    "RollbackToSavepoint replays Data Plane per-core overlay undo journals; unsupported on the single-node Lite engine",
                ),
            )
        },
        MetaOp::ResolveTxn => {
            Err(
                error::unsupported(
                    "ResolveTxn folds staged Data Plane write plans into one redo record; unsupported on the single-node Lite engine",
                ),
            )
        },
        MetaOp::CalvinFlush => {
            Err(
                error::unsupported(
                    "CalvinFlush is a deterministic-scheduler op; unsupported on the single-node Lite engine",
                ),
            )
        },
        MetaOp::CalvinResolve => {
            Err(
                error::unsupported(
                    "CalvinResolve is a deterministic-scheduler op; unsupported on the single-node Lite engine",
                ),
            )
        },
        MetaOp::CalvinDrop => {
            Err(
                error::unsupported(
                    "CalvinDrop is a deterministic-scheduler op; unsupported on the single-node Lite engine",
                ),
            )
        },
        MetaOp::RecordCalvinWriteVersions => {
            Err(
                error::unsupported(
                    "RecordCalvinWriteVersions maintains the cluster write-version registry; unsupported on the single-node Lite engine",
                ),
            )
        },
    }
}

} // verus!
