//! The health report.
use vstd::prelude::*;

verus! {

/// How hard an engine presses on its memory budget.
#[derive(Debug, Clone, Copy, PartialEq, Eq, Structural)]
pub enum PressureLevel {
    Normal,
    Warning,
    Critical,
}

/// An engine with a memory budget of its own.
#[derive(Debug, Clone, Copy, PartialEq, Eq, Structural)]
pub enum EngineId {
    Hnsw,
    Csr,
    Loro,
    Query,
}

/// What one engine may use and does use.
#[derive(Debug, Clone, Copy, PartialEq, Eq, Structural)]
pub struct EngineUsage {
    /// The budget in bytes.
    pub budget: usize,
    /// The use in bytes.
    pub used: usize,
    /// The pressure that this amounts to.
    pub pressure: PressureLevel,
}

/// A reading of the memory governor.
#[derive(Debug, Clone, Copy, PartialEq, Eq, Structural)]
pub struct MemoryGovernor {
    /// The total budget in bytes.
    pub total_budget: usize,
    /// The total use in bytes.
    pub total_used: usize,
    /// The overall pressure.
    pub pressure: PressureLevel,
    /// The vector indexes.
    pub hnsw: EngineUsage,
    /// The adjacency indexes.
    pub csr: EngineUsage,
    /// The replicated documents.
    pub loro: EngineUsage,
    /// Running queries.
    pub query: EngineUsage,
}

impl MemoryGovernor {
    /// The reading of one engine.
    pub open spec fn usage_spec(&self, id: EngineId) -> EngineUsage {
        match id {
            EngineId::Hnsw => self.hnsw,
            EngineId::Csr => self.csr,
            EngineId::Loro => self.loro,
            EngineId::Query => self.query,
        }
    }

    /// The reading of one engine.
    pub fn usage(&self, id: EngineId) -> (r: EngineUsage)
        ensures
            r == self.usage_spec(id),
    {
        match id {
            EngineId::Hnsw => self.hnsw,
            EngineId::Csr => self.csr,
            EngineId::Loro => self.loro,
            EngineId::Query => self.query,
        }
    }
}

/// Overall health status.
#[derive(Debug, Clone, Copy, PartialEq, Eq, Structural)]
pub enum OverallStatus {
    /// All subsystems healthy.
    Healthy,
    /// Some subsystems under pressure but functional.
    Degraded,
    /// Critical issues: immediate attention needed.
    Unhealthy,
}

/// Structured health report.
#[derive(Debug, Clone)]
pub struct HealthStatus {
    /// Overall status.
    pub status: OverallStatus,
    /// Storage subsystem.
    pub storage: StorageHealth,
    /// Memory governor.
    pub memory: MemoryHealth,
    /// Engine-specific health.
    pub engines: EnginesHealth,
}

/// Storage subsystem health.
#[derive(Debug, Clone, Copy, PartialEq, Eq, Structural)]
pub struct StorageHealth {
    /// Whether the storage backend is accessible.
    pub accessible: bool,
}

/// Memory governor health.
#[derive(Debug, Clone)]
pub struct MemoryHealth {
    /// Total budget in bytes.
    pub budget_bytes: usize,
    /// Total used in bytes.
    pub used_bytes: usize,
    /// Overall pressure level.
    pub pressure: &'static str,
    /// Per-engine breakdown.
    pub engines: EngineMemoryBreakdown,
}

/// Per-engine memory breakdown.
#[derive(Debug, Clone)]
pub struct EngineMemoryBreakdown {
    pub hnsw: EngineMemory,
    pub csr: EngineMemory,
    pub loro: EngineMemory,
    pub query: EngineMemory,
}

/// Single engine memory stats.
#[derive(Debug, Clone)]
pub struct EngineMemory {
    pub budget_bytes: usize,
    pub used_bytes: usize,
    pub pressure: &'static str,
}

/// Engine-specific health summary.
#[derive(Debug, Clone, Copy, PartialEq, Eq, Structural)]
pub struct EnginesHealth {
    /// Number of loaded vector collections.
    pub hnsw_collection_count: usize,
    /// Total vectors across all vector collections.
    pub hnsw_total_vectors: usize,
    /// Graph node count.
    pub csr_node_count: usize,
    /// Graph edge count.
    pub csr_edge_count: usize,
    /// Number of replicated collections with data.
    pub crdt_collection_count: usize,
    /// Number of text-indexed collections.
    pub text_index_count: usize,
    /// Mutations awaiting synchronisation, resident or not.
    pub pending_deltas: usize,
    /// Of `pending_deltas`, those refused for a reason that sending them again
    /// cannot mend. Replication is stalled while this is not zero.
    pub blocked_deltas: usize,
    /// Writes retired without ever applying, since this process started.
    pub dropped_writes: u64,
}

/// The name of a pressure level.
pub open spec fn pressure_name(p: PressureLevel) -> Seq<char> {
    match p {
        PressureLevel::Normal => "normal"@,
        PressureLevel::Warning => "warning"@,
        PressureLevel::Critical => "critical"@,
    }
}

/// The name of a pressure level.
pub fn pressure_str(p: PressureLevel) -> (r: &'static str)
    ensures
        r@ == pressure_name(p),
{
    match p {
        PressureLevel::Normal => "normal",
        PressureLevel::Warning => "warning",
        PressureLevel::Critical => "critical",
    }
}

/// Whether a report on one engine repeats its reading.
pub open spec fn reports(m: EngineMemory, u: EngineUsage) -> bool {
    &&& m.budget_bytes == u.budget
    &&& m.used_bytes == u.used
    &&& m.pressure@ == pressure_name(u.pressure)
}

/// The report on one engine.
pub fn engine_memory(gov: &MemoryGovernor, id: EngineId) -> (r: EngineMemory)
    ensures
        reports(r, gov.usage_spec(id)),
{
    let u = gov.usage(id);
    EngineMemory { budget_bytes: u.budget, used_bytes: u.used, pressure: pressure_str(u.pressure) }
}

/// What the engines count.
#[derive(Debug)]
pub struct EngineCounts {
    /// The number of vectors in each vector collection.
    pub vectors: Vec<usize>,
    /// The numbers of nodes and edges in each graph.
    pub graphs: Vec<(usize, usize)>,
    /// The number of replicated collections.
    pub crdt_collections: usize,
    /// The number of text-indexed collections.
    pub text_indexes: usize,
    /// Mutations awaiting synchronisation.
    pub pending_deltas: usize,
    /// Those of them that are refused.
    pub blocked_deltas: usize,
    /// Writes retired without ever applying.
    pub dropped_writes: u64,
}

/// The sum of the first `n` counts.
pub open spec fn total(counts: Seq<usize>, n: nat) -> nat
    decreases n,
{
    if n == 0 {
        0
    } else {
        total(counts, (n - 1) as nat) + counts[n - 1] as nat
    }
}

/// The node counts of graphs.
pub open spec fn nodes(graphs: Seq<(usize, usize)>) -> Seq<usize> {
    graphs.map_values(|g: (usize, usize)| g.0)
}

/// The edge counts of graphs.
pub open spec fn edges(graphs: Seq<(usize, usize)>) -> Seq<usize> {
    graphs.map_values(|g: (usize, usize)| g.1)
}

proof fn lemma_total_grows(counts: Seq<usize>, n: nat, m: nat)
    requires
        n <= m,
    ensures
        total(counts, n) <= total(counts, m),
    decreases m,
{
    if n < m {
        lemma_total_grows(counts, n, (m - 1) as nat);
    }
}

fn sum_vectors(counts: &Vec<usize>) -> (r: usize)
    requires
        total(counts@, counts@.len()) <= usize::MAX,
    ensures
        r == total(counts@, counts@.len()),
{
    let mut sum: usize = 0;
    let mut i: usize = 0;
    while i < counts.len()
        invariant
            i <= counts@.len(),
            sum == total(counts@, i as nat),
            total(counts@, counts@.len()) <= usize::MAX,
        decreases counts@.len() - i,
    {
        proof {
            lemma_total_grows(counts@, i as nat + 1, counts@.len());
        }
        sum = sum + counts[i];
        i = i + 1;
    }
    sum
}

fn sum_graphs(graphs: &Vec<(usize, usize)>) -> (r: (usize, usize))
    requires
        total(nodes(graphs@), graphs@.len()) <= usize::MAX,
        total(edges(graphs@), graphs@.len()) <= usize::MAX,
    ensures
        r.0 == total(nodes(graphs@), graphs@.len()),
        r.1 == total(edges(graphs@), graphs@.len()),
{
    let mut n: usize = 0;
    let mut e: usize = 0;
    let mut i: usize = 0;
    while i < graphs.len()
        invariant
            i <= graphs@.len(),
            n == total(nodes(graphs@), i as nat),
            e == total(edges(graphs@), i as nat),
            total(nodes(graphs@), graphs@.len()) <= usize::MAX,
            total(edges(graphs@), graphs@.len()) <= usize::MAX,
        decreases graphs@.len() - i,
    {
        proof {
            lemma_total_grows(nodes(graphs@), i as nat + 1, graphs@.len());
            lemma_total_grows(edges(graphs@), i as nat + 1, graphs@.len());
        }
        n = n + graphs[i].0;
        e = e + graphs[i].1;
        i = i + 1;
    }
    (n, e)
}

/// The status that a pressure level amounts to.
pub open spec fn status_of(p: PressureLevel) -> OverallStatus {
    match p {
        PressureLevel::Critical => OverallStatus::Unhealthy,
        PressureLevel::Warning => OverallStatus::Degraded,
        PressureLevel::Normal => OverallStatus::Healthy,
    }
}

/// Reports on the memory and the engines. The status follows the overall
/// memory pressure.
pub fn health(gov: &MemoryGovernor, counts: &EngineCounts) -> (r: HealthStatus)
    requires
        total(counts.vectors@, counts.vectors@.len()) <= usize::MAX,
        total(nodes(counts.graphs@), counts.graphs@.len()) <= usize::MAX,
        total(edges(counts.graphs@), counts.graphs@.len()) <= usize::MAX,
    ensures
        r.status == status_of(gov.pressure),
        r.storage.accessible,
        r.memory.budget_bytes == gov.total_budget,
        r.memory.used_bytes == gov.total_used,
        r.memory.pressure@ == pressure_name(gov.pressure),
        reports(r.memory.engines.hnsw, gov.hnsw),
        reports(r.memory.engines.csr, gov.csr),
        reports(r.memory.engines.loro, gov.loro),
        reports(r.memory.engines.query, gov.query),
        r.engines == (EnginesHealth {
            hnsw_collection_count: counts.vectors@.len() as usize,
            hnsw_total_vectors: total(counts.vectors@, counts.vectors@.len()) as usize,
            csr_node_count: total(nodes(counts.graphs@), counts.graphs@.len()) as usize,
            csr_edge_count: total(edges(counts.graphs@), counts.graphs@.len()) as usize,
            crdt_collection_count: counts.crdt_collections,
            text_index_count: counts.text_indexes,
            pending_deltas: counts.pending_deltas,
            blocked_deltas: counts.blocked_deltas,
            dropped_writes: counts.dropped_writes,
        }),
{
    let memory = MemoryHealth {
        budget_bytes: gov.total_budget,
        used_bytes: gov.total_used,
        pressure: pressure_str(gov.pressure),
        engines: EngineMemoryBreakdown {
            hnsw: engine_memory(gov, EngineId::Hnsw),
            csr: engine_memory(gov, EngineId::Csr),
            loro: engine_memory(gov, EngineId::Loro),
            query: engine_memory(gov, EngineId::Query),
        },
    };
    let vectors: usize = sum_vectors(&counts.vectors);
    let (graph_nodes, graph_edges) = sum_graphs(&counts.graphs);
    let engines = EnginesHealth {
        hnsw_collection_count: counts.vectors.len(),
        hnsw_total_vectors: vectors,
        csr_node_count: graph_nodes,
        csr_edge_count: graph_edges,
        crdt_collection_count: counts.crdt_collections,
        text_index_count: counts.text_indexes,
        pending_deltas: counts.pending_deltas,
        blocked_deltas: counts.blocked_deltas,
        dropped_writes: counts.dropped_writes,
    };
    let status = match gov.pressure {
        PressureLevel::Critical => OverallStatus::Unhealthy,
        PressureLevel::Warning => OverallStatus::Degraded,
        PressureLevel::Normal => OverallStatus::Healthy,
    };
    HealthStatus { status, storage: StorageHealth { accessible: true }, memory, engines }
}

/// The sum of counts.
pub open spec fn summed(counts: Seq<usize>) -> int
    decreases counts.len(),
{
    if counts.len() == 0 {
        0
    } else {
        counts[0] + summed(counts.skip(1))
    }
}

proof fn lemma_summed(counts: Seq<usize>, n: nat)
    requires
        n <= counts.len(),
    ensures
        total(counts, n) + summed(counts.skip(n as int)) == summed(counts),
    decreases n,
{
    if n == 0 {
        assert(counts.skip(0) =~= counts);
    } else {
        lemma_summed(counts, (n - 1) as nat);
        let rest = counts.skip(n - 1);
        assert(rest[0] == counts[n - 1]);
        assert(rest.skip(1) =~= counts.skip(n as int));
    }
}

/// A report tells what the governor and the engines say: the status is as bad as
/// the memory pressure, every reading stands under its own engine, and the counts
/// are sums over all collections.
pub proof fn health_is_what_the_engines_say(
    gov: &MemoryGovernor,
    counts: &EngineCounts,
    r: HealthStatus,
)
    requires
        summed(counts.vectors@) <= usize::MAX,
        summed(nodes(counts.graphs@)) <= usize::MAX,
        summed(edges(counts.graphs@)) <= usize::MAX,
        call_ensures(health, (gov, counts), r),
    ensures
        r.status == OverallStatus::Unhealthy <==> gov.pressure == PressureLevel::Critical,
        r.status == OverallStatus::Degraded <==> gov.pressure == PressureLevel::Warning,
        r.memory.used_bytes == gov.total_used && r.memory.budget_bytes == gov.total_budget,
        r.memory.engines.hnsw.used_bytes == gov.hnsw.used
            && r.memory.engines.hnsw.budget_bytes == gov.hnsw.budget,
        r.memory.engines.csr.used_bytes == gov.csr.used && r.memory.engines.csr.budget_bytes
            == gov.csr.budget,
        r.memory.engines.loro.used_bytes == gov.loro.used && r.memory.engines.loro.budget_bytes
            == gov.loro.budget,
        r.memory.engines.query.used_bytes == gov.query.used
            && r.memory.engines.query.budget_bytes == gov.query.budget,
        r.engines.hnsw_total_vectors == summed(counts.vectors@),
        r.engines.csr_node_count == summed(nodes(counts.graphs@)),
        r.engines.csr_edge_count == summed(edges(counts.graphs@)),
        r.engines.hnsw_collection_count == counts.vectors@.len(),
        r.engines.pending_deltas == counts.pending_deltas,
        r.engines.blocked_deltas == counts.blocked_deltas,
        r.engines.dropped_writes == counts.dropped_writes,
        r.engines.crdt_collection_count == counts.crdt_collections,
        r.engines.text_index_count == counts.text_indexes,
{
    let v = counts.vectors@;
    let a = nodes(counts.graphs@);
    let b = edges(counts.graphs@);
    lemma_summed(v, v.len());
    lemma_summed(a, a.len());
    lemma_summed(b, b.len());
    assert(v.skip(v.len() as int) =~= Seq::<usize>::empty());
    assert(a.skip(a.len() as int) =~= Seq::<usize>::empty());
    assert(b.skip(b.len() as int) =~= Seq::<usize>::empty());
    assert(counts.vectors.len() == v.len());
}

/// Each pressure level has a name of its own.
pub proof fn pressure_levels_have_names(p: PressureLevel, r: &'static str)
    requires
        call_ensures(pressure_str, (p,), r),
    ensures
        p == PressureLevel::Normal ==> r@ == "normal"@,
        p == PressureLevel::Warning ==> r@ == "warning"@,
        p == PressureLevel::Critical ==> r@ == "critical"@,
{
}

} // verus!
