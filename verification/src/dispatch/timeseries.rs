//! Routing of timeseries operations.
//!
//! A handler is given what it needs of the operation. What only the handlers read
//! is in its encoded form.
use crate::dispatch::gate;
use crate::dispatch::gate::SystemTimeScope;
use crate::error;
use crate::error::{ErrorView, LiteError};
use crate::query::sort::SortKey;
use vstd::prelude::*;

verus! {

/// A timeseries operation of a physical plan.
#[derive(Debug)]
pub enum TimeseriesOp {
    /// Scans a collection.
    Scan {
        collection: String,
        time_range: (i64, i64),
        projection: Vec<String>,
        limit: usize,
        filters: Vec<u8>,
        bucket_interval_ms: i64,
        group_by: Vec<String>,
        aggregates: Vec<(String, String)>,
        gap_fill: String,
        computed_columns: Vec<u8>,
        rls_filters: Vec<u8>,
        system_time: SystemTimeScope,
        valid_at_ms: Option<i64>,
        sort_keys: Vec<SortKey>,
    },
    /// Ingests samples.
    Ingest {
        collection: String,
        payload: Vec<u8>,
        format: String,
        wal_lsn: Option<u64>,
        surrogates: Vec<u32>,
        rls_write_check: Vec<u8>,
        returning: bool,
        rls_filters: Vec<u8>,
    },
}

/// The handler of a timeseries operation, with what it is given.
#[derive(Debug, Clone, Copy)]
pub enum TimeseriesHandler<'a> {
    Scan {
        collection: &'a String,
        time_range: (i64, i64),
        projection: &'a Vec<String>,
        limit: usize,
        filters: &'a Vec<u8>,
        bucket_interval_ms: i64,
        group_by: &'a Vec<String>,
        aggregates: &'a Vec<(String, String)>,
        gap_fill: &'a String,
        computed_columns: &'a Vec<u8>,
        rls_filters: &'a Vec<u8>,
        valid_at_ms: Option<i64>,
        system_as_of_ms: Option<i64>,
    },
    Ingest {
        collection: &'a String,
        payload: &'a Vec<u8>,
        format: &'a String,
        wal_lsn: Option<u64>,
        surrogates: &'a Vec<u32>,
    },
}

/// The handler, unless the operation is refused.
pub open spec fn unless<'a>(
    refusal: Option<ErrorView>,
    handler: TimeseriesHandler<'a>,
) -> Result<TimeseriesHandler<'a>, ErrorView> {
    match refusal {
        Some(e) => Err(e),
        None => Ok(handler),
    }
}

/// Where an operation goes.
pub open spec fn route<'a>(op: &'a TimeseriesOp) -> Result<TimeseriesHandler<'a>, ErrorView> {
    match op {
        TimeseriesOp::Scan {
            collection,
            time_range,
            projection,
            limit,
            filters,
            bucket_interval_ms,
            group_by,
            aggregates,
            gap_fill,
            computed_columns,
            rls_filters,
            system_time,
            valid_at_ms,
            sort_keys,
        } => if sort_keys@.len() > 0 {
            Err(
                ErrorView::Unsupported(
                    "ORDER BY is not supported on the timeseries engine in Lite"@,
                ),
            )
        } else if *system_time == SystemTimeScope::AllVersions {
            Err(
                ErrorView::Unsupported(
                    "AS OF SYSTEM TIME NULL (all-versions) is not supported on the timeseries engine in Lite"@,
                ),
            )
        } else {
            Ok(TimeseriesHandler::Scan {
                collection,
                time_range: *time_range,
                projection,
                limit: *limit,
                filters,
                bucket_interval_ms: *bucket_interval_ms,
                group_by,
                aggregates,
                gap_fill,
                computed_columns,
                rls_filters,
                valid_at_ms: *valid_at_ms,
                system_as_of_ms: system_time.as_of(),
            })
        },
        TimeseriesOp::Ingest {
            collection,
            payload,
            format,
            wal_lsn,
            surrogates,
            rls_write_check,
            returning,
            rls_filters,
        } => {
            unless(
                gate::policy_verdict(
                    "TimeseriesOp::Ingest"@,
                    *returning,
                    seq![rls_filters@, rls_write_check@],
                ),
                TimeseriesHandler::Ingest {
                    collection,
                    payload,
                    format,
                    wal_lsn: *wal_lsn,
                    surrogates,
                },
            )
        },
    }
}

/// What dispatching yields.
pub open spec fn outcome<'a>(r: Result<TimeseriesHandler<'a>, LiteError>) -> Result<
    TimeseriesHandler<'a>,
    ErrorView,
> {
    match r {
        Ok(h) => Ok(h),
        Err(e) => Err(e@),
    }
}

/// Passes an operation with two programs on to its handler.
fn pass2<'a>(
    op: &str,
    returning: bool,
    a: &[u8],
    b: &[u8],
    handler: TimeseriesHandler<'a>,
) -> (r: Result<TimeseriesHandler<'a>, LiteError>)
    ensures
        outcome(r) == unless(gate::policy_verdict(op@, returning, seq![a@, b@]), handler),
{
    match gate::verdict2(op, returning, a, b) {
        Ok(_) => Ok(handler),
        Err(e) => Err(e),
    }
}

/// Chooses the handler of a timeseries operation, or refuses it.
pub fn dispatch<'a>(op: &'a TimeseriesOp) -> (r: Result<TimeseriesHandler<'a>, LiteError>)
    ensures
        outcome(r) == route(op),
{
    match op {
        TimeseriesOp::Scan {
            collection,
            time_range,
            projection,
            limit,
            filters,
            bucket_interval_ms,
            group_by,
            aggregates,
            gap_fill,
            computed_columns,
            rls_filters,
            system_time,
            valid_at_ms,
            sort_keys,
        } => {
            // Rows come back in the engine's natural order. An ORDER BY that
            // was dropped would return the right rows in the wrong order.
            if sort_keys.len() > 0 {
                return Err(
                    error::unsupported(
                        "ORDER BY is not supported on the timeseries engine in Lite",
                    ),
                );
            }
            if system_time.is_all_versions() {
                return Err(
                    error::unsupported(
                        "AS OF SYSTEM TIME NULL (all-versions) is not supported on the timeseries engine in Lite",
                    ),
                );
            }
            Ok(TimeseriesHandler::Scan {
                collection,
                time_range: *time_range,
                projection,
                limit: *limit,
                filters,
                bucket_interval_ms: *bucket_interval_ms,
                group_by,
                aggregates,
                gap_fill,
                computed_columns,
                rls_filters,
                valid_at_ms: *valid_at_ms,
                system_as_of_ms: system_time.as_of_ms(),
            })
        },
        TimeseriesOp::Ingest {
            collection,
            payload,
            format,
            wal_lsn,
            surrogates,
            rls_write_check,
            returning,
            rls_filters,
        } => {
            pass2(
                "TimeseriesOp::Ingest",
                *returning,
                rls_filters,
                rls_write_check,
                TimeseriesHandler::Ingest {
                    collection,
                    payload,
                    format,
                    wal_lsn: *wal_lsn,
                    surrogates,
                },
            )
        },
    }
}

} // verus!
