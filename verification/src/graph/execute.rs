//! Running a graph operation: its policy slots are looked at first, and only
//! then is it planned.
use crate::dispatch::graph;
use crate::dispatch::graph::{GraphHandler, GraphOp};
use crate::error::{ErrorView, LiteError};
use crate::graph::edges;
use crate::graph::edges::{EdgePlan, EdgeView};
use vstd::prelude::*;

verus! {

/// How an operation is run.
#[derive(Debug)]
pub enum GraphRun<'a> {
    /// Edges are changed and the answer is given.
    Planned(EdgePlan),
    /// A handler that reads the adjacency indexes runs it.
    Handler(GraphHandler<'a>),
}

/// How many edges an operation changes.
pub open spec fn edge_count(op: GraphOp) -> nat {
    match op {
        GraphOp::EdgePut { .. } => 1,
        GraphOp::EdgeDelete { .. } => 1,
        GraphOp::EdgePutBatch { edges } => edges@.len(),
        GraphOp::EdgeDeleteBatch { edges } => edges@.len(),
        _ => 0,
    }
}

/// Whether this is how an operation that is not refused is run. `bitemporal`
/// tells of each edge whether its collection keeps history.
pub open spec fn admitted<'a>(
    op: &'a GraphOp,
    handler: GraphHandler<'a>,
    bitemporal: Seq<bool>,
    run: GraphRun<'a>,
) -> bool {
    match (op, run) {
        (
            GraphOp::EdgePut { collection, src_id, label, dst_id, properties },
            GraphRun::Planned(p),
        ) => edges::put_planned(
            p,
            EdgeView { collection: collection@, src: src_id@, label: label@, dst: dst_id@ },
            properties@,
            bitemporal[0],
        ),
        (
            GraphOp::EdgeDelete { collection, src_id, label, dst_id, .. },
            GraphRun::Planned(p),
        ) => edges::delete_planned(
            p,
            EdgeView { collection: collection@, src: src_id@, label: label@, dst: dst_id@ },
            bitemporal[0],
        ),
        (GraphOp::EdgePutBatch { edges }, GraphRun::Planned(p)) => edges::batch_put_planned(
            p,
            edges::edges_view(edges@),
            bitemporal,
        ),
        (GraphOp::EdgeDeleteBatch { edges }, GraphRun::Planned(p)) => edges::batch_delete_planned(
            p,
            edges::edges_view(edges@),
            bitemporal,
        ),
        (GraphOp::EdgePut { .. }, GraphRun::Handler(_)) => false,
        (GraphOp::EdgeDelete { .. }, GraphRun::Handler(_)) => false,
        (GraphOp::EdgePutBatch { .. }, GraphRun::Handler(_)) => false,
        (GraphOp::EdgeDeleteBatch { .. }, GraphRun::Handler(_)) => false,
        (_, GraphRun::Handler(h)) => h == handler,
        (_, GraphRun::Planned(_)) => false,
    }
}

/// Whether this is what an operation does: it is refused, or does what it was
/// made for.
pub open spec fn ran<'a>(
    op: &'a GraphOp,
    bitemporal: Seq<bool>,
    r: Result<GraphRun<'a>, LiteError>,
) -> bool {
    match graph::route(op) {
        Err(e) => r is Err && r->Err_0@ == e,
        Ok(handler) => r is Ok && admitted(op, handler, bitemporal, r->Ok_0),
    }
}

/// Runs a graph operation.
pub fn run<'a>(op: &'a GraphOp, bitemporal: &[bool]) -> (r: Result<GraphRun<'a>, LiteError>)
    requires
        bitemporal@.len() == edge_count(*op),
    ensures
        ran(op, bitemporal@, r),
{
    let handler = match graph::dispatch(op) {
        Ok(h) => h,
        Err(e) => return Err(e),
    };
    match op {
        GraphOp::EdgePut { collection, src_id, label, dst_id, properties } => {
            match edges::edge_put(collection, src_id, label, dst_id, properties, bitemporal[0]) {
                Ok(p) => Ok(GraphRun::Planned(p)),
                Err(e) => Err(e),
            }
        },
        GraphOp::EdgeDelete { collection, src_id, label, dst_id, .. } => Ok(
            GraphRun::Planned(
                edges::edge_delete(collection, src_id, label, dst_id, bitemporal[0]),
            ),
        ),
        GraphOp::EdgePutBatch { edges } => match edges::edge_put_batch(
            edges.as_slice(),
            bitemporal,
        ) {
            Ok(p) => Ok(GraphRun::Planned(p)),
            Err(e) => Err(e),
        },
        GraphOp::EdgeDeleteBatch { edges } => Ok(
            GraphRun::Planned(edges::edge_delete_batch(edges.as_slice(), bitemporal)),
        ),
        _ => Ok(GraphRun::Handler(handler)),
    }
}

/// A delete that a policy has not decided on changes no edge.
pub proof fn undecided_deletes_change_nothing<'a>(
    op: &'a GraphOp,
    bitemporal: Seq<bool>,
    r: Result<GraphRun<'a>, LiteError>,
)
    requires
        ran(op, bitemporal, r),
        op matches GraphOp::EdgeDelete { rls_write_check, .. } && !rls_write_check.admits(),
    ensures
        r is Err,
{
}

} // verus!
