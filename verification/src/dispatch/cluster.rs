//! Cluster operations, which a single node does not run.
use crate::error;
use crate::error::{ErrorView, LiteError};
use vstd::prelude::*;

verus! {

/// Refuses a topic publish or a stream consume. Such a plan can reach a single
/// node, because not only the SQL planner makes it.
pub fn cluster_event() -> (r: LiteError)
    ensures
        r@ == ErrorView::Unsupported(
            "ClusterEvent (topic publish / stream consume) is a coordinator-only cluster operation; unsupported on the single-node Lite engine"@,
        ),
{
    error::unsupported(
        "ClusterEvent (topic publish / stream consume) is a coordinator-only cluster operation; unsupported on the single-node Lite engine",
    )
}

} // verus!
