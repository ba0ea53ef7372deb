use nodedb_lite::health;
use nodedb_lite::health::{
    EngineCounts, EngineId, EngineUsage, MemoryGovernor, OverallStatus, PressureLevel,
};

fn usage(budget: usize, used: usize) -> EngineUsage {
    EngineUsage { budget, used, pressure: PressureLevel::Normal }
}

fn governor(pressure: PressureLevel) -> MemoryGovernor {
    MemoryGovernor {
        total_budget: 100,
        total_used: 10,
        pressure,
        hnsw: usage(40, 4),
        csr: usage(30, 3),
        loro: usage(20, 2),
        query: usage(10, 1),
    }
}

fn counts() -> EngineCounts {
    EngineCounts {
        vectors: Vec::new(),
        graphs: Vec::new(),
        crdt_collections: 0,
        text_indexes: 0,
        pending_deltas: 0,
        blocked_deltas: 0,
        dropped_writes: 0,
    }
}

#[test]
fn health_empty_db() {
    let h = health::health(&governor(PressureLevel::Normal), &counts());
    assert_eq!(h.status, OverallStatus::Healthy);
    assert!(h.storage.accessible);
    assert_eq!(h.memory.pressure, "normal");
    assert_eq!(h.engines.hnsw_collection_count, 0);
    assert_eq!(h.engines.pending_deltas, 0);
}

#[test]
fn health_with_data() {
    let mut c = counts();
    c.vectors = vec![1];
    c.graphs = vec![(2, 1)];
    let h = health::health(&governor(PressureLevel::Normal), &c);
    assert_eq!(h.engines.hnsw_collection_count, 1);
    assert_eq!(h.engines.hnsw_total_vectors, 1);
    assert!(h.engines.csr_edge_count >= 1);
    assert_eq!(h.engines.csr_node_count, 2);
}

#[test]
fn health_pending_deltas_counted() {
    let mut c = counts();
    c.pending_deltas = 1;
    let h = health::health(&governor(PressureLevel::Normal), &c);
    assert!(h.engines.pending_deltas > 0);
}

#[test]
fn health_adds_up_every_index() {
    let mut c = counts();
    c.vectors = vec![3, 4, 5];
    c.graphs = vec![(2, 7), (1, 1)];
    let h = health::health(&governor(PressureLevel::Normal), &c);
    assert_eq!(h.engines.hnsw_collection_count, 3);
    assert_eq!(h.engines.hnsw_total_vectors, 12);
    assert_eq!(h.engines.csr_node_count, 3);
    assert_eq!(h.engines.csr_edge_count, 8);
}

#[test]
fn pressure_decides_the_status() {
    let warn = health::health(&governor(PressureLevel::Warning), &counts());
    assert_eq!(warn.status, OverallStatus::Degraded);
    assert_eq!(warn.memory.pressure, "warning");
    let critical = health::health(&governor(PressureLevel::Critical), &counts());
    assert_eq!(critical.status, OverallStatus::Unhealthy);
    assert_eq!(critical.memory.pressure, "critical");
}

#[test]
fn memory_is_reported_per_engine() {
    let m = health::engine_memory(&governor(PressureLevel::Normal), EngineId::Csr);
    assert_eq!(m.budget_bytes, 30);
    assert_eq!(m.used_bytes, 3);
    assert_eq!(m.pressure, "normal");
    assert_eq!(health::pressure_str(PressureLevel::Critical), "critical");
}
