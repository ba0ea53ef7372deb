//! Running a relational operation: its policy slots are looked at first, and only
//! then are its rows joined.
use crate::dispatch::query::{QueryHandler, QueryOp};
use crate::error::{ErrorView, LiteError};
use crate::query::joins;
use crate::query::lateral;
use crate::query::lateral::{LateralShape, ShapeView};
use crate::query::record;
use crate::query::record::Record;
use vstd::prelude::*;

verus! {

/// How an operation is run.
#[derive(Debug)]
pub enum QueryRun<'a> {
    /// The rows of a join.
    Rows(Vec<Record>),
    /// Another handler runs it.
    Handler(QueryHandler<'a>),
}

/// What a [`QueryRun`] is.
pub enum QueryRunView<'a> {
    Rows(Seq<Map<Seq<char>, nodedb_types::Value>>),
    Handler(QueryHandler<'a>),
}

impl<'a> View for QueryRun<'a> {
    type V = QueryRunView<'a>;

    open spec fn view(&self) -> QueryRunView<'a> {
        match *self {
            QueryRun::Rows(rows) => QueryRunView::Rows(record::records_view(rows@)),
            QueryRun::Handler(h) => QueryRunView::Handler(h),
        }
    }
}

/// What running yields.
pub open spec fn run_outcome<'a>(r: Result<QueryRun<'a>, LiteError>) -> Result<
    QueryRunView<'a>,
    ErrorView,
> {
    match r {
        Ok(run) => Ok(run@),
        Err(e) => Err(e@),
    }
}

/// The rows of an outcome, or its error.
pub open spec fn rows_of<'a>(r: Result<QueryRunView<'a>, ErrorView>) -> Option<
    Result<Seq<Map<Seq<char>, nodedb_types::Value>>, ErrorView>,
> {
    match r {
        Ok(QueryRunView::Rows(rows)) => Some(Ok(rows)),
        Ok(QueryRunView::Handler(_)) => None,
        Err(e) => Some(Err(e)),
    }
}

/// Whether this is how an operation that is not refused is run. `first` holds the
/// left or outer rows, and `second` the right or inner ones.
pub open spec fn admitted<'a>(
    op: &'a QueryOp,
    handler: QueryHandler<'a>,
    first: Seq<Map<Seq<char>, nodedb_types::Value>>,
    second: Seq<Map<Seq<char>, nodedb_types::Value>>,
    r: Result<QueryRunView<'a>, ErrorView>,
) -> bool {
    match op {
        QueryOp::NestedLoopJoin { condition, join_type, limit, .. } => {
            &&& rows_of(r) is Some
            &&& joins::join_answered(
                first,
                second,
                condition@,
                join_type@,
                *limit,
                rows_of(r)->Some_0,
            )
        },
        QueryOp::LateralTopK {
            outer_alias,
            inner_filters,
            inner_order_by,
            inner_limit,
            correlation_keys,
            lateral_alias,
            left_join,
            ..
        } => {
            &&& rows_of(r) is Some
            &&& lateral::top_k_answered(
                first,
                second,
                inner_filters@,
                lateral::correlation(correlation_keys@),
                inner_order_by@,
                *inner_limit,
                ShapeView {
                    outer_alias: outer_alias@,
                    lateral_alias: lateral_alias@,
                    left_join: *left_join,
                },
                rows_of(r)->Some_0,
            )
        },
        QueryOp::LateralLoop {
            outer_alias,
            inner_filters,
            correlation_predicates,
            lateral_alias,
            left_join,
            outer_row_cap,
            ..
        } => {
            &&& rows_of(r) is Some
            &&& lateral::loop_answered(
                first,
                second,
                inner_filters@,
                lateral::inner_first(correlation_predicates@),
                ShapeView {
                    outer_alias: outer_alias@,
                    lateral_alias: lateral_alias@,
                    left_join: *left_join,
                },
                *outer_row_cap,
                rows_of(r)->Some_0,
            )
        },
        _ => r is Ok && r->Ok_0 == QueryRunView::Handler(handler),
    }
}

/// Whether this is what an operation does: it is refused, or does what it was
/// made for.
pub open spec fn ran<'a>(
    op: &'a QueryOp,
    first: Seq<Map<Seq<char>, nodedb_types::Value>>,
    second: Seq<Map<Seq<char>, nodedb_types::Value>>,
    r: Result<QueryRunView<'a>, ErrorView>,
) -> bool {
    match crate::dispatch::query::route(op) {
        Err(e) => r is Err && r->Err_0 == e,
        Ok(handler) => admitted(op, handler, first, second, r),
    }
}

fn run_of<'a>(r: Result<Vec<Record>, LiteError>) -> (out: Result<QueryRun<'a>, LiteError>)
    ensures
        rows_of(run_outcome(out)) == Some(record::outcome_view(r)),
{
    match r {
        Ok(rows) => Ok(QueryRun::Rows(rows)),
        Err(e) => Err(e),
    }
}

/// Runs a relational operation on the rows of its two sides.
pub fn run<'a>(op: &'a QueryOp, first: &[Record], second: &[Record]) -> (r: Result<
    QueryRun<'a>,
    LiteError,
>)
    ensures
        ran(
            op,
            record::records_view(first@),
            record::records_view(second@),
            run_outcome(r),
        ),
{
    let handler = match crate::dispatch::query::dispatch(op) {
        Ok(h) => h,
        Err(e) => return Err(e),
    };
    match op {
        QueryOp::NestedLoopJoin { condition, join_type, limit, .. } => run_of(
            joins::execute_nested_loop_join(
                first,
                second,
                condition.as_slice(),
                join_type.as_str(),
                *limit,
            ),
        ),
        QueryOp::LateralTopK {
            outer_alias,
            inner_filters,
            inner_order_by,
            inner_limit,
            correlation_keys,
            lateral_alias,
            left_join,
            ..
        } => {
            let shape = LateralShape {
                outer_alias: outer_alias.as_str(),
                lateral_alias: lateral_alias.as_str(),
                left_join: *left_join,
            };
            run_of(
                lateral::execute_lateral_top_k(
                    first,
                    second,
                    inner_filters.as_slice(),
                    correlation_keys.as_slice(),
                    inner_order_by.as_slice(),
                    *inner_limit,
                    &shape,
                ),
            )
        },
        QueryOp::LateralLoop {
            outer_alias,
            inner_filters,
            correlation_predicates,
            lateral_alias,
            left_join,
            outer_row_cap,
            ..
        } => {
            let shape = LateralShape {
                outer_alias: outer_alias.as_str(),
                lateral_alias: lateral_alias.as_str(),
                left_join: *left_join,
            };
            run_of(
                lateral::execute_lateral_loop(
                    first,
                    second,
                    inner_filters.as_slice(),
                    correlation_predicates.as_slice(),
                    &shape,
                    *outer_row_cap,
                ),
            )
        },
        _ => Ok(QueryRun::Handler(handler)),
    }
}

/// A join whose rows a policy narrows yields no row: it is refused.
pub proof fn governed_joins_yield_nothing<'a>(
    op: &'a QueryOp,
    first: Seq<Map<Seq<char>, nodedb_types::Value>>,
    second: Seq<Map<Seq<char>, nodedb_types::Value>>,
    r: Result<QueryRunView<'a>, ErrorView>,
)
    requires
        ran(op, first, second, r),
        op matches QueryOp::NestedLoopJoin { left_rls_filters, right_rls_filters, .. } && (
        left_rls_filters@.len() > 0 || right_rls_filters@.len() > 0),
    ensures
        r is Err,
{
}

} // verus!
