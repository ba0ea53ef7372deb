//! Routing of graph operations.
//!
//! A handler is given what it needs of the operation. What only the handlers read
//! is in its encoded form.
use crate::dispatch::gate;
use crate::dispatch::gate::SystemTimeScope;
use crate::error;
use crate::error::{ErrorView, LiteError};
use crate::graph::edges::BatchEdge;
use crate::policy;
use crate::policy::RlsWriteCheck;
use vstd::prelude::*;

verus! {

/// Which edges of a node are followed.
#[derive(Debug, Clone, Copy, PartialEq, Eq, Structural)]
pub enum Direction {
    /// Those that enter it.
    In,
    /// Those that leave it.
    Out,
    /// All of them.
    Both,
}

/// A graph operation of a physical plan.
#[derive(Debug)]
pub enum GraphOp {
    /// Writes an edge.
    EdgePut {
        collection: String,
        src_id: String,
        label: String,
        dst_id: String,
        properties: Vec<u8>,
    },
    /// Writes several edges.
    EdgePutBatch { edges: Vec<BatchEdge> },
    /// Deletes an edge.
    EdgeDelete {
        collection: String,
        src_id: String,
        label: String,
        dst_id: String,
        rls_write_check: RlsWriteCheck,
    },
    /// Deletes several edges.
    EdgeDeleteBatch { edges: Vec<BatchEdge> },
    /// Walks from nodes to a depth.
    Hop {
        start_nodes: Vec<String>,
        edge_label: Option<String>,
        direction: Direction,
        depth: usize,
        options: Vec<u8>,
        frontier_bitmap: Option<Vec<u8>>,
        rls_filters: Vec<u8>,
    },
    /// Lists the neighbours of a node.
    Neighbors {
        node_id: String,
        edge_label: Option<String>,
        direction: Direction,
        rls_filters: Vec<u8>,
    },
    /// Lists the neighbours of several nodes.
    NeighborsMulti {
        node_ids: Vec<String>,
        edge_label: Option<String>,
        direction: Direction,
        max_results: u32,
        rls_filters: Vec<u8>,
    },
    /// Finds a path.
    Path {
        src: String,
        dst: String,
        edge_label: Option<String>,
        max_depth: usize,
        options: Vec<u8>,
        frontier_bitmap: Option<Vec<u8>>,
        rls_filters: Vec<u8>,
    },
    /// Extracts a subgraph.
    Subgraph {
        start_nodes: Vec<String>,
        edge_label: Option<String>,
        depth: usize,
        options: Vec<u8>,
        rls_filters: Vec<u8>,
    },
    /// Runs a graph algorithm.
    Algo { algorithm: String, params: Vec<u8> },
    /// Adds labels to a node.
    SetNodeLabels { node_id: String, labels: Vec<String> },
    /// Removes labels from a node.
    RemoveNodeLabels { node_id: String, labels: Vec<String> },
    /// Lists the neighbours of a node at a time.
    TemporalNeighbors {
        collection: String,
        node_id: String,
        edge_label: Option<String>,
        direction: Direction,
        system_time: SystemTimeScope,
        valid_at_ms: Option<i64>,
        rls_filters: Vec<u8>,
    },
    /// Runs a graph algorithm at a time.
    TemporalAlgorithm { algorithm: String, params: Vec<u8>, system_time: SystemTimeScope },
    /// Reports statistics.
    Stats { collection: Option<String>, as_of: Option<i64> },
    /// Fuses vector, text and graph retrieval.
    RagFusion {
        collection: String,
        query_vector: Vec<u8>,
        vector_top_k: usize,
        edge_label: Option<String>,
        direction: Direction,
        expansion_depth: usize,
        final_top_k: usize,
        rrf_k: Vec<u8>,
        rrf_k_triple: Option<Vec<u8>>,
        vector_field: String,
        bm25_query: Option<String>,
        bm25_field: Option<String>,
    },
    /// Resumes a pattern match on another shard.
    MatchContinuation,
    /// Resumes a variable-length match on another shard.
    MatchVarLenResume,
    /// One superstep of distributed PageRank.
    BspSuperstep,
    /// One superstep of distributed component contraction.
    WccSuperstep,
    /// Matches a pattern.
    Match { query: Vec<u8>, frontier_bitmap: Option<Vec<u8>> },
    /// Resolves a governed edge delete.
    ResolveEdgeDelete,
}

/// The handler of a graph operation, with what it is given. An operation on edges is
/// planned from the operation itself.
#[derive(Debug, Clone, Copy)]
pub enum GraphHandler<'a> {
    EdgePut,
    EdgePutBatch,
    EdgeDelete,
    EdgeDeleteBatch,
    Hop {
        start_nodes: &'a Vec<String>,
        edge_label: &'a Option<String>,
        direction: Direction,
        depth: usize,
        options: &'a Vec<u8>,
        frontier_bitmap: &'a Option<Vec<u8>>,
    },
    Neighbors { node_id: &'a String, edge_label: &'a Option<String>, direction: Direction },
    NeighborsMulti {
        node_ids: &'a Vec<String>,
        edge_label: &'a Option<String>,
        direction: Direction,
        max_results: u32,
    },
    Path {
        src: &'a String,
        dst: &'a String,
        edge_label: &'a Option<String>,
        max_depth: usize,
        options: &'a Vec<u8>,
        frontier_bitmap: &'a Option<Vec<u8>>,
    },
    Subgraph {
        start_nodes: &'a Vec<String>,
        edge_label: &'a Option<String>,
        depth: usize,
        options: &'a Vec<u8>,
    },
    Algo { algorithm: &'a String, params: &'a Vec<u8> },
    SetNodeLabels { node_id: &'a String, labels: &'a Vec<String> },
    RemoveNodeLabels { node_id: &'a String, labels: &'a Vec<String> },
    TemporalNeighbors {
        collection: &'a String,
        node_id: &'a String,
        edge_label: &'a Option<String>,
        direction: Direction,
        valid_at_ms: Option<i64>,
        system_as_of_ms: Option<i64>,
    },
    TemporalAlgorithm { algorithm: &'a String, params: &'a Vec<u8>, system_as_of_ms: Option<i64> },
    Stats { collection: &'a Option<String>, as_of: Option<i64> },
    RagFusion {
        collection: &'a String,
        query_vector: &'a Vec<u8>,
        vector_top_k: usize,
        edge_label: &'a Option<String>,
        direction: Direction,
        expansion_depth: usize,
        final_top_k: usize,
        rrf_k: &'a Vec<u8>,
        rrf_k_triple: &'a Option<Vec<u8>>,
        vector_field: &'a String,
        bm25_query: &'a Option<String>,
        bm25_field: &'a Option<String>,
    },
    Match { query: &'a Vec<u8>, frontier_bitmap: &'a Option<Vec<u8>> },
}

/// The handler, unless the operation is refused.
pub open spec fn unless<'a>(
    refusal: Option<ErrorView>,
    handler: GraphHandler<'a>,
) -> Result<GraphHandler<'a>, ErrorView> {
    match refusal {
        Some(e) => Err(e),
        None => Ok(handler),
    }
}

/// The refusal of a read over every version.
pub open spec fn all_versions_refusal() -> ErrorView {
    ErrorView::Unsupported(
        "AS OF SYSTEM TIME NULL (all-versions) is not supported on the graph engine in Lite"@,
    )
}

/// Where an operation goes.
pub open spec fn route<'a>(op: &'a GraphOp) -> Result<GraphHandler<'a>, ErrorView> {
    match op {
        GraphOp::EdgePut { .. } => Ok(GraphHandler::EdgePut),
        GraphOp::EdgePutBatch { .. } => Ok(GraphHandler::EdgePutBatch),
        GraphOp::EdgeDelete { rls_write_check, .. } => if rls_write_check.admits() {
            Ok(GraphHandler::EdgeDelete)
        } else {
            Err(policy::rls_refusal("GraphOp::EdgeDelete"@))
        },
        GraphOp::EdgeDeleteBatch { .. } => Ok(GraphHandler::EdgeDeleteBatch),
        GraphOp::Hop {
            start_nodes,
            edge_label,
            direction,
            depth,
            options,
            frontier_bitmap,
            rls_filters,
        } => {
            unless(
                gate::policy_verdict("GraphOp::Hop"@, false, seq![rls_filters@]),
                GraphHandler::Hop {
                    start_nodes,
                    edge_label,
                    direction: *direction,
                    depth: *depth,
                    options,
                    frontier_bitmap,
                },
            )
        },
        GraphOp::Neighbors { node_id, edge_label, direction, rls_filters } => {
            unless(
                gate::policy_verdict("GraphOp::Neighbors"@, false, seq![rls_filters@]),
                GraphHandler::Neighbors { node_id, edge_label, direction: *direction },
            )
        },
        GraphOp::NeighborsMulti { node_ids, edge_label, direction, max_results, rls_filters } => {
            unless(
                gate::policy_verdict("GraphOp::NeighborsMulti"@, false, seq![rls_filters@]),
                GraphHandler::NeighborsMulti {
                    node_ids,
                    edge_label,
                    direction: *direction,
                    max_results: *max_results,
                },
            )
        },
        GraphOp::Path {
            src,
            dst,
            edge_label,
            max_depth,
            options,
            frontier_bitmap,
            rls_filters,
        } => {
            unless(
                gate::policy_verdict("GraphOp::Path"@, false, seq![rls_filters@]),
                GraphHandler::Path {
                    src,
                    dst,
                    edge_label,
                    max_depth: *max_depth,
                    options,
                    frontier_bitmap,
                },
            )
        },
        GraphOp::Subgraph { start_nodes, edge_label, depth, options, rls_filters } => {
            unless(
                gate::policy_verdict("GraphOp::Subgraph"@, false, seq![rls_filters@]),
                GraphHandler::Subgraph { start_nodes, edge_label, depth: *depth, options },
            )
        },
        GraphOp::Algo { algorithm, params } => Ok(GraphHandler::Algo { algorithm, params }),
        GraphOp::SetNodeLabels { node_id, labels } => Ok(
            GraphHandler::SetNodeLabels { node_id, labels },
        ),
        GraphOp::RemoveNodeLabels { node_id, labels } => Ok(
            GraphHandler::RemoveNodeLabels { node_id, labels },
        ),
        GraphOp::TemporalNeighbors {
            collection,
            node_id,
            edge_label,
            direction,
            system_time,
            valid_at_ms,
            rls_filters,
        } => {
            match gate::policy_verdict("GraphOp::TemporalNeighbors"@, false, seq![rls_filters@]) {
                Some(e) => Err(e),
                None => if *system_time == SystemTimeScope::AllVersions {
                    Err(all_versions_refusal())
                } else {
                    Ok(GraphHandler::TemporalNeighbors {
                        collection,
                        node_id,
                        edge_label,
                        direction: *direction,
                        valid_at_ms: *valid_at_ms,
                        system_as_of_ms: system_time.as_of(),
                    })
                },
            }
        },
        GraphOp::TemporalAlgorithm { algorithm, params, system_time } => if *system_time
            == SystemTimeScope::AllVersions {
            Err(all_versions_refusal())
        } else {
            Ok(
                GraphHandler::TemporalAlgorithm {
                    algorithm,
                    params,
                    system_as_of_ms: system_time.as_of(),
                },
            )
        },
        GraphOp::Stats { collection, as_of } => Ok(
            GraphHandler::Stats { collection, as_of: *as_of },
        ),
        GraphOp::RagFusion {
            collection,
            query_vector,
            vector_top_k,
            edge_label,
            direction,
            expansion_depth,
            final_top_k,
            rrf_k,
            rrf_k_triple,
            vector_field,
            bm25_query,
            bm25_field,
        } => Ok(
            GraphHandler::RagFusion {
                collection,
                query_vector,
                vector_top_k: *vector_top_k,
                edge_label,
                direction: *direction,
                expansion_depth: *expansion_depth,
                final_top_k: *final_top_k,
                rrf_k,
                rrf_k_triple,
                vector_field,
                bm25_query,
                bm25_field,
            },
        ),
        GraphOp::MatchContinuation => {
            Err(
                ErrorView::Unsupported(
                    "MatchContinuation is a cross-shard MATCH resume primitive; unsupported on the single-node Lite engine"@,
                ),
            )
        },
        GraphOp::MatchVarLenResume => {
            Err(
                ErrorView::Unsupported(
                    "MatchVarLenResume is a cross-shard MATCH resume primitive; unsupported on the single-node Lite engine"@,
                ),
            )
        },
        GraphOp::BspSuperstep => {
            Err(
                ErrorView::Unsupported(
                    "BspSuperstep is a distributed PageRank BSP primitive; unsupported on the single-node Lite engine"@,
                ),
            )
        },
        GraphOp::WccSuperstep => {
            Err(
                ErrorView::Unsupported(
                    "WccSuperstep is a distributed WCC contraction primitive; unsupported on the single-node Lite engine"@,
                ),
            )
        },
        GraphOp::Match { query, frontier_bitmap } => Ok(
            GraphHandler::Match { query, frontier_bitmap },
        ),
        GraphOp::ResolveEdgeDelete => {
            Err(
                ErrorView::Unsupported(
                    "GraphOp::ResolveEdgeDelete: the governed resolve/apply write path belongs to the Origin Control Plane and has no equivalent on the single-node Lite engine"@,
                ),
            )
        },
    }
}

/// What dispatching yields.
pub open spec fn outcome<'a>(r: Result<GraphHandler<'a>, LiteError>) -> Result<
    GraphHandler<'a>,
    ErrorView,
> {
    match r {
        Ok(h) => Ok(h),
        Err(e) => Err(e@),
    }
}

fn refuse_all_versions() -> (r: LiteError)
    ensures
        r@ == all_versions_refusal(),
{
    error::unsupported(
        "AS OF SYSTEM TIME NULL (all-versions) is not supported on the graph engine in Lite",
    )
}

/// Passes an operation with one read program on to its handler.
fn pass1<'a>(
    op: &str,
    returning: bool,
    rls: &[u8],
    handler: GraphHandler<'a>,
) -> (r: Result<GraphHandler<'a>, LiteError>)
    ensures
        outcome(r) == unless(gate::policy_verdict(op@, returning, seq![rls@]), handler),
{
    match gate::verdict1(op, returning, rls) {
        Ok(_) => Ok(handler),
        Err(e) => Err(e),
    }
}

/// Chooses the handler of a graph operation, or refuses it.
pub fn dispatch<'a>(op: &'a GraphOp) -> (r: Result<GraphHandler<'a>, LiteError>)
    ensures
        outcome(r) == route(op),
{
    match op {
        GraphOp::EdgePut { .. } => Ok(GraphHandler::EdgePut),
        GraphOp::EdgePutBatch { .. } => Ok(GraphHandler::EdgePutBatch),
        GraphOp::EdgeDelete { rls_write_check, .. } => {
            let checks: [&RlsWriteCheck; 1] = [rls_write_check];
            let verdict = policy::deny_write_check("GraphOp::EdgeDelete", &checks);
            proof {
                assert(checks@[0] == rls_write_check);
                if rls_write_check.admits() {
                    assert forall|i: int| 0 <= i < checks@.len() implies (
                    #[trigger] checks@[i]).admits() by {}
                }
            }
            match verdict {
                Ok(_) => Ok(GraphHandler::EdgeDelete),
                Err(e) => Err(e),
            }
        },
        GraphOp::EdgeDeleteBatch { .. } => Ok(GraphHandler::EdgeDeleteBatch),
        GraphOp::Hop {
            start_nodes,
            edge_label,
            direction,
            depth,
            options,
            frontier_bitmap,
            rls_filters,
        } => {
            pass1(
                "GraphOp::Hop",
                false,
                rls_filters,
                GraphHandler::Hop {
                    start_nodes,
                    edge_label,
                    direction: *direction,
                    depth: *depth,
                    options,
                    frontier_bitmap,
                },
            )
        },
        GraphOp::Neighbors { node_id, edge_label, direction, rls_filters } => {
            pass1(
                "GraphOp::Neighbors",
                false,
                rls_filters,
                GraphHandler::Neighbors { node_id, edge_label, direction: *direction },
            )
        },
        GraphOp::NeighborsMulti { node_ids, edge_label, direction, max_results, rls_filters } => {
            pass1(
                "GraphOp::NeighborsMulti",
                false,
                rls_filters,
                GraphHandler::NeighborsMulti {
                    node_ids,
                    edge_label,
                    direction: *direction,
                    max_results: *max_results,
                },
            )
        },
        GraphOp::Path {
            src,
            dst,
            edge_label,
            max_depth,
            options,
            frontier_bitmap,
            rls_filters,
        } => {
            pass1(
                "GraphOp::Path",
                false,
                rls_filters,
                GraphHandler::Path {
                    src,
                    dst,
                    edge_label,
                    max_depth: *max_depth,
                    options,
                    frontier_bitmap,
                },
            )
        },
        GraphOp::Subgraph { start_nodes, edge_label, depth, options, rls_filters } => {
            pass1(
                "GraphOp::Subgraph",
                false,
                rls_filters,
                GraphHandler::Subgraph { start_nodes, edge_label, depth: *depth, options },
            )
        },
        GraphOp::Algo { algorithm, params } => Ok(GraphHandler::Algo { algorithm, params }),
        GraphOp::SetNodeLabels { node_id, labels } => Ok(
            GraphHandler::SetNodeLabels { node_id, labels },
        ),
        GraphOp::RemoveNodeLabels { node_id, labels } => Ok(
            GraphHandler::RemoveNodeLabels { node_id, labels },
        ),
        GraphOp::TemporalNeighbors {
            collection,
            node_id,
            edge_label,
            direction,
            system_time,
            valid_at_ms,
            rls_filters,
        } => {
            match gate::verdict1("GraphOp::TemporalNeighbors", false, rls_filters) {
                Err(e) => Err(e),
                Ok(_) => {
                    if system_time.is_all_versions() {
                        return Err(refuse_all_versions());
                    }
                    Ok(GraphHandler::TemporalNeighbors {
                        collection,
                        node_id,
                        edge_label,
                        direction: *direction,
                        valid_at_ms: *valid_at_ms,
                        system_as_of_ms: system_time.as_of_ms(),
                    })
                },
            }
        },
        GraphOp::TemporalAlgorithm { algorithm, params, system_time } => {
            if system_time.is_all_versions() {
                return Err(refuse_all_versions());
            }
            Ok(
                GraphHandler::TemporalAlgorithm {
                    algorithm,
                    params,
                    system_as_of_ms: system_time.as_of_ms(),
                },
            )
        },
        GraphOp::Stats { collection, as_of } => Ok(
            GraphHandler::Stats { collection, as_of: *as_of },
        ),
        GraphOp::RagFusion {
            collection,
            query_vector,
            vector_top_k,
            edge_label,
            direction,
            expansion_depth,
            final_top_k,
            rrf_k,
            rrf_k_triple,
            vector_field,
            bm25_query,
            bm25_field,
        } => Ok(
            GraphHandler::RagFusion {
                collection,
                query_vector,
                vector_top_k: *vector_top_k,
                edge_label,
                direction: *direction,
                expansion_depth: *expansion_depth,
                final_top_k: *final_top_k,
                rrf_k,
                rrf_k_triple,
                vector_field,
                bm25_query,
                bm25_field,
            },
        ),
        GraphOp::MatchContinuation => {
            Err(
                error::unsupported(
                    "MatchContinuation is a cross-shard MATCH resume primitive; unsupported on the single-node Lite engine",
                ),
            )
        },
        GraphOp::MatchVarLenResume => {
            Err(
                error::unsupported(
                    "MatchVarLenResume is a cross-shard MATCH resume primitive; unsupported on the single-node Lite engine",
                ),
            )
        },
        GraphOp::BspSuperstep => {
            Err(
                error::unsupported(
                    "BspSuperstep is a distributed PageRank BSP primitive; unsupported on the single-node Lite engine",
                ),
            )
        },
        GraphOp::WccSuperstep => {
            Err(
                error::unsupported(
                    "WccSuperstep is a distributed WCC contraction primitive; unsupported on the single-node Lite engine",
                ),
            )
        },
        GraphOp::Match { query, frontier_bitmap } => Ok(
            GraphHandler::Match { query, frontier_bitmap },
        ),
        GraphOp::ResolveEdgeDelete => {
            Err(
                error::unsupported(
                    "GraphOp::ResolveEdgeDelete: the governed resolve/apply write path belongs to the Origin Control Plane and has no equivalent on the single-node Lite engine",
                ),
            )
        },
    }
}

} // verus!
