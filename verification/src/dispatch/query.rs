//! Routing of relational operations.
//!
//! A handler is given what it needs of the operation. What only the handlers read
//! is in its encoded form.
use crate::dispatch::gate;
use crate::error;
use crate::error::{ErrorView, LiteError};
use crate::query::sort::SortKey;
use vstd::prelude::*;

verus! {

/// A relational operation of a physical plan.
#[derive(Debug)]
pub enum QueryOp {
    /// Aggregates rows.
    Aggregate {
        collection: String,
        group_by: Vec<Vec<u8>>,
        aggregates: Vec<Vec<u8>>,
        filters: Vec<u8>,
        having: Vec<u8>,
        sort_keys: Vec<SortKey>,
        grouping_sets: Vec<Vec<u32>>,
    },
    /// Aggregates rows of one partition.
    PartialAggregate {
        collection: String,
        group_by: Vec<String>,
        aggregates: Vec<Vec<u8>>,
        filters: Vec<u8>,
    },
    /// Partial aggregates for a shuffle.
    PartialAggregateState,
    /// Joins by hashing.
    HashJoin {
        left_collection: String,
        right_collection: String,
        left_alias: Option<String>,
        right_alias: Option<String>,
        on: Vec<(String, String)>,
        join_type: String,
        limit: usize,
        post_group_by: Vec<String>,
        post_aggregates: Vec<Vec<u8>>,
        projection: Vec<Vec<u8>>,
        post_filters: Vec<u8>,
        left_rls_filters: Vec<u8>,
        right_rls_filters: Vec<u8>,
    },
    /// Moves rows between nodes.
    Exchange,
    /// Scans a catalog that the coordinator materialised.
    ProviderScan,
    /// The relational tail of a gathered subquery.
    PostProcess,
    /// Consumes a shuffled join.
    ShuffleJoinConsume,
    /// Consumes a shuffled aggregate.
    ShuffleAggregateConsume,
    /// Joins by nested loops.
    NestedLoopJoin {
        left_collection: String,
        right_collection: String,
        condition: Vec<u8>,
        join_type: String,
        limit: usize,
        left_rls_filters: Vec<u8>,
        right_rls_filters: Vec<u8>,
    },
    /// Joins by merging sorted rows.
    SortMergeJoin {
        left_collection: String,
        right_collection: String,
        on: Vec<(String, String)>,
        join_type: String,
        limit: usize,
        pre_sorted: bool,
        left_rls_filters: Vec<u8>,
        right_rls_filters: Vec<u8>,
    },
    /// Counts facets.
    FacetCounts {
        collection: String,
        filters: Vec<u8>,
        fields: Vec<String>,
        limit_per_facet: usize,
    },
    /// Walks a recursive table.
    RecursiveScan {
        collection: String,
        base_filters: Vec<u8>,
        recursive_filters: Vec<u8>,
        join_link: Option<(String, String)>,
        max_iterations: usize,
        distinct: bool,
        limit: usize,
    },
    /// Evaluates a recursive value.
    RecursiveValue {
        cte_name: String,
        columns: Vec<String>,
        init_exprs: Vec<String>,
        step_exprs: Vec<String>,
        condition: Option<String>,
        max_depth: usize,
        distinct: bool,
    },
    /// Joins the first rows of a correlated query.
    LateralTopK {
        outer_alias: String,
        inner_collection: String,
        inner_filters: Vec<u8>,
        inner_order_by: Vec<SortKey>,
        inner_limit: usize,
        correlation_keys: Vec<(String, String)>,
        lateral_alias: String,
        left_join: bool,
    },
    /// Joins a correlated query.
    LateralLoop {
        outer_alias: String,
        inner_collection: String,
        inner_filters: Vec<u8>,
        correlation_predicates: Vec<(String, String)>,
        lateral_alias: String,
        left_join: bool,
        outer_row_cap: usize,
    },
}

/// The handler of a relational operation, with what it is given. A nested-loop or a
/// lateral join takes it from the operation itself.
#[derive(Debug, Clone, Copy)]
pub enum QueryHandler<'a> {
    Aggregate {
        collection: &'a String,
        group_by: &'a Vec<Vec<u8>>,
        aggregates: &'a Vec<Vec<u8>>,
        filters: &'a Vec<u8>,
        having: &'a Vec<u8>,
        sort_keys: &'a Vec<SortKey>,
        grouping_sets: &'a Vec<Vec<u32>>,
    },
    PartialAggregate {
        collection: &'a String,
        group_by: &'a Vec<String>,
        aggregates: &'a Vec<Vec<u8>>,
        filters: &'a Vec<u8>,
    },
    HashJoin {
        left_collection: &'a String,
        right_collection: &'a String,
        left_alias: &'a Option<String>,
        right_alias: &'a Option<String>,
        on: &'a Vec<(String, String)>,
        join_type: &'a String,
        limit: usize,
        post_group_by: &'a Vec<String>,
        post_aggregates: &'a Vec<Vec<u8>>,
        projection: &'a Vec<Vec<u8>>,
        post_filters: &'a Vec<u8>,
    },
    NestedLoopJoin,
    SortMergeJoin {
        left_collection: &'a String,
        right_collection: &'a String,
        on: &'a Vec<(String, String)>,
        join_type: &'a String,
        limit: usize,
        pre_sorted: bool,
    },
    FacetCounts {
        collection: &'a String,
        filters: &'a Vec<u8>,
        fields: &'a Vec<String>,
        limit_per_facet: usize,
    },
    RecursiveScan {
        collection: &'a String,
        base_filters: &'a Vec<u8>,
        recursive_filters: &'a Vec<u8>,
        join_link: &'a Option<(String, String)>,
        max_iterations: usize,
        distinct: bool,
        limit: usize,
    },
    RecursiveValue {
        cte_name: &'a String,
        columns: &'a Vec<String>,
        init_exprs: &'a Vec<String>,
        step_exprs: &'a Vec<String>,
        condition: &'a Option<String>,
        max_depth: usize,
        distinct: bool,
    },
    LateralTopK,
    LateralLoop,
}

/// The handler, unless the operation is refused.
pub open spec fn unless<'a>(
    refusal: Option<ErrorView>,
    handler: QueryHandler<'a>,
) -> Result<QueryHandler<'a>, ErrorView> {
    match refusal {
        Some(e) => Err(e),
        None => Ok(handler),
    }
}

/// Where an operation goes.
pub open spec fn route<'a>(op: &'a QueryOp) -> Result<QueryHandler<'a>, ErrorView> {
    match op {
        QueryOp::Aggregate {
            collection,
            group_by,
            aggregates,
            filters,
            having,
            sort_keys,
            grouping_sets,
        } => Ok(
            QueryHandler::Aggregate {
                collection,
                group_by,
                aggregates,
                filters,
                having,
                sort_keys,
                grouping_sets,
            },
        ),
        QueryOp::PartialAggregate { collection, group_by, aggregates, filters } => Ok(
            QueryHandler::PartialAggregate { collection, group_by, aggregates, filters },
        ),
        QueryOp::PartialAggregateState => {
            Err(
                ErrorView::Unsupported(
                    "PartialAggregateState is a distributed shuffle-map op; unsupported on the single-node Lite engine"@,
                ),
            )
        },
        QueryOp::HashJoin {
            left_collection,
            right_collection,
            left_alias,
            right_alias,
            on,
            join_type,
            limit,
            post_group_by,
            post_aggregates,
            projection,
            post_filters,
            left_rls_filters,
            right_rls_filters,
        } => {
            unless(
                gate::policy_verdict(
                    "QueryOp::HashJoin"@,
                    false,
                    seq![left_rls_filters@, right_rls_filters@],
                ),
                QueryHandler::HashJoin {
                    left_collection,
                    right_collection,
                    left_alias,
                    right_alias,
                    on,
                    join_type,
                    limit: *limit,
                    post_group_by,
                    post_aggregates,
                    projection,
                    post_filters,
                },
            )
        },
        QueryOp::Exchange => {
            Err(
                ErrorView::Unsupported(
                    "Exchange is a coordinator-resolved data-movement wrapper; unsupported on the single-node Lite engine"@,
                ),
            )
        },
        QueryOp::ProviderScan => {
            Err(
                ErrorView::Unsupported(
                    "ProviderScan is coordinator-materialized catalog scan; unsupported on the single-node Lite engine"@,
                ),
            )
        },
        QueryOp::PostProcess => {
            Err(
                ErrorView::Unsupported(
                    "PostProcess is a coordinator-resolved subquery tail; unsupported on the single-node Lite engine"@,
                ),
            )
        },
        QueryOp::ShuffleJoinConsume => {
            Err(
                ErrorView::Unsupported(
                    "ShuffleJoinConsume is a cross-node shuffle-join consumer; unsupported on the single-node Lite engine"@,
                ),
            )
        },
        QueryOp::ShuffleAggregateConsume => {
            Err(
                ErrorView::Unsupported(
                    "ShuffleAggregateConsume is a cross-node shuffle-aggregate consumer; unsupported on the single-node Lite engine"@,
                ),
            )
        },
        QueryOp::NestedLoopJoin { left_rls_filters, right_rls_filters, .. } => if left_rls_filters@.len() > 0
            || right_rls_filters@.len() > 0 {
            Err(
                ErrorView::Unsupported(
                    "row-level security filters on NestedLoopJoin are not supported on the Lite engine"@,
                ),
            )
        } else {
            Ok(QueryHandler::NestedLoopJoin)
        },
        QueryOp::SortMergeJoin {
            left_collection,
            right_collection,
            on,
            join_type,
            limit,
            pre_sorted,
            left_rls_filters,
            right_rls_filters,
        } => if left_rls_filters@.len() > 0
            || right_rls_filters@.len() > 0 {
            Err(
                ErrorView::Unsupported(
                    "row-level security filters on SortMergeJoin are not supported on the Lite engine"@,
                ),
            )
        } else {
            Ok(QueryHandler::SortMergeJoin {
                left_collection,
                right_collection,
                on,
                join_type,
                limit: *limit,
                pre_sorted: *pre_sorted,
            })
        },
        QueryOp::FacetCounts { collection, filters, fields, limit_per_facet } => Ok(
            QueryHandler::FacetCounts {
                collection,
                filters,
                fields,
                limit_per_facet: *limit_per_facet,
            },
        ),
        QueryOp::RecursiveScan {
            collection,
            base_filters,
            recursive_filters,
            join_link,
            max_iterations,
            distinct,
            limit,
        } => Ok(
            QueryHandler::RecursiveScan {
                collection,
                base_filters,
                recursive_filters,
                join_link,
                max_iterations: *max_iterations,
                distinct: *distinct,
                limit: *limit,
            },
        ),
        QueryOp::RecursiveValue {
            cte_name,
            columns,
            init_exprs,
            step_exprs,
            condition,
            max_depth,
            distinct,
        } => Ok(
            QueryHandler::RecursiveValue {
                cte_name,
                columns,
                init_exprs,
                step_exprs,
                condition,
                max_depth: *max_depth,
                distinct: *distinct,
            },
        ),
        QueryOp::LateralTopK { .. } => Ok(QueryHandler::LateralTopK),
        QueryOp::LateralLoop { .. } => Ok(QueryHandler::LateralLoop),
    }
}

/// What dispatching yields.
pub open spec fn outcome<'a>(r: Result<QueryHandler<'a>, LiteError>) -> Result<
    QueryHandler<'a>,
    ErrorView,
> {
    match r {
        Ok(h) => Ok(h),
        Err(e) => Err(e@),
    }
}

/// Passes an operation with two programs on to its handler.
fn pass2<'a>(
    op: &str,
    returning: bool,
    a: &[u8],
    b: &[u8],
    handler: QueryHandler<'a>,
) -> (r: Result<QueryHandler<'a>, LiteError>)
    ensures
        outcome(r) == unless(gate::policy_verdict(op@, returning, seq![a@, b@]), handler),
{
    match gate::verdict2(op, returning, a, b) {
        Ok(_) => Ok(handler),
        Err(e) => Err(e),
    }
}

/// Chooses the handler of a relational operation, or refuses it.
pub fn dispatch<'a>(op: &'a QueryOp) -> (r: Result<QueryHandler<'a>, LiteError>)
    ensures
        outcome(r) == route(op),
{
    match op {
        QueryOp::Aggregate {
            collection,
            group_by,
            aggregates,
            filters,
            having,
            sort_keys,
            grouping_sets,
        } => Ok(
            QueryHandler::Aggregate {
                collection,
                group_by,
                aggregates,
                filters,
                having,
                sort_keys,
                grouping_sets,
            },
        ),
        QueryOp::PartialAggregate { collection, group_by, aggregates, filters } => Ok(
            QueryHandler::PartialAggregate { collection, group_by, aggregates, filters },
        ),
        QueryOp::PartialAggregateState => {
            Err(
                error::unsupported(
                    "PartialAggregateState is a distributed shuffle-map op; unsupported on the single-node Lite engine",
                ),
            )
        },
        QueryOp::HashJoin {
            left_collection,
            right_collection,
            left_alias,
            right_alias,
            on,
            join_type,
            limit,
            post_group_by,
            post_aggregates,
            projection,
            post_filters,
            left_rls_filters,
            right_rls_filters,
        } => {
            pass2(
                "QueryOp::HashJoin",
                false,
                left_rls_filters,
                right_rls_filters,
                QueryHandler::HashJoin {
                    left_collection,
                    right_collection,
                    left_alias,
                    right_alias,
                    on,
                    join_type,
                    limit: *limit,
                    post_group_by,
                    post_aggregates,
                    projection,
                    post_filters,
                },
            )
        },
        QueryOp::Exchange => {
            Err(
                error::unsupported(
                    "Exchange is a coordinator-resolved data-movement wrapper; unsupported on the single-node Lite engine",
                ),
            )
        },
        QueryOp::ProviderScan => {
            Err(
                error::unsupported(
                    "ProviderScan is coordinator-materialized catalog scan; unsupported on the single-node Lite engine",
                ),
            )
        },
        QueryOp::PostProcess => {
            Err(
                error::unsupported(
                    "PostProcess is a coordinator-resolved subquery tail; unsupported on the single-node Lite engine",
                ),
            )
        },
        QueryOp::ShuffleJoinConsume => {
            Err(
                error::unsupported(
                    "ShuffleJoinConsume is a cross-node shuffle-join consumer; unsupported on the single-node Lite engine",
                ),
            )
        },
        QueryOp::ShuffleAggregateConsume => {
            Err(
                error::unsupported(
                    "ShuffleAggregateConsume is a cross-node shuffle-aggregate consumer; unsupported on the single-node Lite engine",
                ),
            )
        },
        QueryOp::NestedLoopJoin { left_rls_filters, right_rls_filters, .. } => {
            if left_rls_filters.len() > 0 || right_rls_filters.len() > 0 {
                return Err(
                    error::unsupported(
                        "row-level security filters on NestedLoopJoin are not supported on the Lite engine",
                    ),
                );
            }
            Ok(QueryHandler::NestedLoopJoin)
        },
        QueryOp::SortMergeJoin {
            left_collection,
            right_collection,
            on,
            join_type,
            limit,
            pre_sorted,
            left_rls_filters,
            right_rls_filters,
        } => {
            if left_rls_filters.len() > 0 || right_rls_filters.len() > 0 {
                return Err(
                    error::unsupported(
                        "row-level security filters on SortMergeJoin are not supported on the Lite engine",
                    ),
                );
            }
            Ok(QueryHandler::SortMergeJoin {
                left_collection,
                right_collection,
                on,
                join_type,
                limit: *limit,
                pre_sorted: *pre_sorted,
            })
        },
        QueryOp::FacetCounts { collection, filters, fields, limit_per_facet } => Ok(
            QueryHandler::FacetCounts {
                collection,
                filters,
                fields,
                limit_per_facet: *limit_per_facet,
            },
        ),
        QueryOp::RecursiveScan {
            collection,
            base_filters,
            recursive_filters,
            join_link,
            max_iterations,
            distinct,
            limit,
        } => Ok(
            QueryHandler::RecursiveScan {
                collection,
                base_filters,
                recursive_filters,
                join_link,
                max_iterations: *max_iterations,
                distinct: *distinct,
                limit: *limit,
            },
        ),
        QueryOp::RecursiveValue {
            cte_name,
            columns,
            init_exprs,
            step_exprs,
            condition,
            max_depth,
            distinct,
        } => Ok(
            QueryHandler::RecursiveValue {
                cte_name,
                columns,
                init_exprs,
                step_exprs,
                condition,
                max_depth: *max_depth,
                distinct: *distinct,
            },
        ),
        QueryOp::LateralTopK { .. } => Ok(QueryHandler::LateralTopK),
        QueryOp::LateralLoop { .. } => Ok(QueryHandler::LateralLoop),
    }
}

} // verus!
