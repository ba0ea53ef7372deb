//! Routing of columnar operations.
//!
//! A handler is given what it needs of the operation. What only the handlers read
//! is in its encoded form.
use crate::columnar::writes::ColumnarInsertIntent;
use crate::dispatch::gate;
use crate::dispatch::gate::SystemTimeScope;
use crate::error;
use crate::error::{ErrorView, LiteError};
use crate::kv::fields::UpdateValue;
use crate::query::sort::SortKey;
use vstd::prelude::*;

verus! {

/// A columnar operation of a physical plan.
#[derive(Debug)]
pub enum ColumnarOp {
    /// Scans a collection.
    Scan {
        collection: String,
        projection: Vec<String>,
        limit: usize,
        filters: Vec<u8>,
        sort_keys: Vec<SortKey>,
        system_time: SystemTimeScope,
        valid_at_ms: Option<i64>,
        prefilter: Option<Vec<u8>>,
        computed_columns: Vec<u8>,
    },
    /// Inserts rows.
    Insert {
        collection: String,
        payload: Vec<u8>,
        format: String,
        intent: ColumnarInsertIntent,
        on_conflict_updates: Vec<(String, UpdateValue)>,
        schema_bytes: Vec<u8>,
        rls_write_check: Vec<u8>,
        returning: bool,
        rls_filters: Vec<u8>,
    },
    /// Updates rows.
    Update {
        collection: String,
        filters: Vec<u8>,
        updates: Vec<(String, Vec<u8>)>,
        rls_write_check: Vec<u8>,
    },
    /// Deletes rows.
    Delete { collection: String, filters: Vec<u8>, rls_write_check: Vec<u8> },
    /// Scans a collection for materialisation.
    MaterializeScan {
        collection: String,
        cursor: Vec<u8>,
        count: usize,
        system_as_of_ms: Option<i64>,
    },
}

/// The handler of a columnar operation, with what it is given. A write is carried out
/// from the operation itself.
#[derive(Debug, Clone, Copy)]
pub enum ColumnarHandler<'a> {
    Scan {
        collection: &'a String,
        projection: &'a Vec<String>,
        limit: usize,
        filters: &'a Vec<u8>,
        sort_keys: &'a Vec<SortKey>,
        valid_at_ms: Option<i64>,
        prefilter: &'a Option<Vec<u8>>,
        computed_columns: &'a Vec<u8>,
        system_as_of_ms: Option<i64>,
    },
    Insert,
    Update,
    Delete,
    MaterializeScan {
        collection: &'a String,
        cursor: &'a Vec<u8>,
        count: usize,
        system_as_of_ms: Option<i64>,
    },
}

/// The handler, unless the operation is refused.
pub open spec fn unless<'a>(
    refusal: Option<ErrorView>,
    handler: ColumnarHandler<'a>,
) -> Result<ColumnarHandler<'a>, ErrorView> {
    match refusal {
        Some(e) => Err(e),
        None => Ok(handler),
    }
}

/// Where an operation goes.
pub open spec fn route<'a>(op: &'a ColumnarOp) -> Result<ColumnarHandler<'a>, ErrorView> {
    match op {
        ColumnarOp::Scan {
            collection,
            projection,
            limit,
            filters,
            sort_keys,
            system_time,
            valid_at_ms,
            prefilter,
            computed_columns,
        } => if *system_time == SystemTimeScope::AllVersions {
            Err(
                ErrorView::Unsupported(
                    "AS OF SYSTEM TIME NULL (all-versions) is not supported on the columnar engine in Lite"@,
                ),
            )
        } else {
            Ok(ColumnarHandler::Scan {
                collection,
                projection,
                limit: *limit,
                filters,
                sort_keys,
                valid_at_ms: *valid_at_ms,
                prefilter,
                computed_columns,
                system_as_of_ms: system_time.as_of(),
            })
        },
        ColumnarOp::Insert { rls_write_check, returning, rls_filters, .. } => {
            unless(
                gate::policy_verdict(
                    "ColumnarOp::Insert"@,
                    *returning,
                    seq![rls_filters@, rls_write_check@],
                ),
                ColumnarHandler::Insert,
            )
        },
        ColumnarOp::Update { rls_write_check, .. } => {
            unless(
                gate::policy_verdict("ColumnarOp::Update"@, false, seq![rls_write_check@]),
                ColumnarHandler::Update,
            )
        },
        ColumnarOp::Delete { rls_write_check, .. } => {
            unless(
                gate::policy_verdict("ColumnarOp::Delete"@, false, seq![rls_write_check@]),
                ColumnarHandler::Delete,
            )
        },
        ColumnarOp::MaterializeScan { collection, cursor, count, system_as_of_ms } => Ok(
            ColumnarHandler::MaterializeScan {
                collection,
                cursor,
                count: *count,
                system_as_of_ms: *system_as_of_ms,
            },
        ),
    }
}

/// What dispatching yields.
pub open spec fn outcome<'a>(r: Result<ColumnarHandler<'a>, LiteError>) -> Result<
    ColumnarHandler<'a>,
    ErrorView,
> {
    match r {
        Ok(h) => Ok(h),
        Err(e) => Err(e@),
    }
}

/// Passes an operation with one read program on to its handler.
fn pass1<'a>(
    op: &str,
    returning: bool,
    rls: &[u8],
    handler: ColumnarHandler<'a>,
) -> (r: Result<ColumnarHandler<'a>, LiteError>)
    ensures
        outcome(r) == unless(gate::policy_verdict(op@, returning, seq![rls@]), handler),
{
    match gate::verdict1(op, returning, rls) {
        Ok(_) => Ok(handler),
        Err(e) => Err(e),
    }
}

/// Passes an operation with two programs on to its handler.
fn pass2<'a>(
    op: &str,
    returning: bool,
    a: &[u8],
    b: &[u8],
    handler: ColumnarHandler<'a>,
) -> (r: Result<ColumnarHandler<'a>, LiteError>)
    ensures
        outcome(r) == unless(gate::policy_verdict(op@, returning, seq![a@, b@]), handler),
{
    match gate::verdict2(op, returning, a, b) {
        Ok(_) => Ok(handler),
        Err(e) => Err(e),
    }
}

/// Chooses the handler of a columnar operation, or refuses it.
pub fn dispatch<'a>(op: &'a ColumnarOp) -> (r: Result<ColumnarHandler<'a>, LiteError>)
    ensures
        outcome(r) == route(op),
{
    match op {
        ColumnarOp::Scan {
            collection,
            projection,
            limit,
            filters,
            sort_keys,
            system_time,
            valid_at_ms,
            prefilter,
            computed_columns,
        } => {
            if system_time.is_all_versions() {
                return Err(
                    error::unsupported(
                        "AS OF SYSTEM TIME NULL (all-versions) is not supported on the columnar engine in Lite",
                    ),
                );
            }
            Ok(ColumnarHandler::Scan {
                collection,
                projection,
                limit: *limit,
                filters,
                sort_keys,
                valid_at_ms: *valid_at_ms,
                prefilter,
                computed_columns,
                system_as_of_ms: system_time.as_of_ms(),
            })
        },
        ColumnarOp::Insert { rls_write_check, returning, rls_filters, .. } => {
            pass2(
                "ColumnarOp::Insert",
                *returning,
                rls_filters,
                rls_write_check,
                ColumnarHandler::Insert,
            )
        },
        ColumnarOp::Update { rls_write_check, .. } => {
            pass1("ColumnarOp::Update", false, rls_write_check, ColumnarHandler::Update)
        },
        ColumnarOp::Delete { rls_write_check, .. } => {
            pass1("ColumnarOp::Delete", false, rls_write_check, ColumnarHandler::Delete)
        },
        ColumnarOp::MaterializeScan { collection, cursor, count, system_as_of_ms } => Ok(
            ColumnarHandler::MaterializeScan {
                collection,
                cursor,
                count: *count,
                system_as_of_ms: *system_as_of_ms,
            },
        ),
    }
}

} // verus!
