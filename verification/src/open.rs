//! Opening a database: what is checked, what is rebuilt, and which background
//! tasks run.
use crate::error::{ErrorView, LiteError};
use vstd::prelude::*;

verus! {

/// A background task.
#[derive(Debug, Clone, Copy, PartialEq, Eq, Structural)]
pub enum TaskKind {
    /// Flushes at intervals.
    AutoFlush,
    /// Compacts the store at intervals.
    AutoCompact,
    /// Synchronises with the origin.
    Sync,
}

/// The settings that opening looks at.
#[derive(Debug, Clone, Copy, PartialEq, Eq, Structural)]
pub struct OpenConfig {
    /// How many entries the key-value cache holds.
    pub kv_cache_capacity: usize,
    /// The interval between flushes, zero for none.
    pub auto_flush_ms: u64,
    /// The interval between compactions, zero for none.
    pub auto_compact_ms: u64,
}

/// What was found when the indexes were restored.
#[derive(Debug, Clone, Copy, PartialEq, Eq, Structural)]
pub struct RestoredIndexes {
    /// No text index was restored.
    pub fts_empty: bool,
    /// A checkpoint of the sparse-vector indexes exists.
    pub sparse_checkpoint_present: bool,
    /// No spatial index was restored.
    pub spatial_empty: bool,
    /// No adjacency index was restored.
    pub csr_empty: bool,
}

/// The indexes to rebuild from the stored documents and edges.
#[derive(Debug, Clone, Copy, PartialEq, Eq, Structural)]
pub struct Rebuilds {
    /// The text and sparse-vector indexes.
    pub text: bool,
    /// The spatial indexes.
    pub spatial: bool,
    /// The adjacency indexes.
    pub graph: bool,
}

/// Refuses a configuration without room in the key-value cache.
pub fn check_config(config: &OpenConfig) -> (r: Result<(), LiteError>)
    ensures
        match r {
            Ok(_) => config.kv_cache_capacity > 0,
            Err(e) => config.kv_cache_capacity == 0 && e@ == ErrorView::Config(
                "kv_cache_capacity must be greater than 0"@,
            ),
        },
{
    if config.kv_cache_capacity == 0 {
        return Err(
            LiteError::Config { detail: "kv_cache_capacity must be greater than 0".to_owned() },
        );
    }
    Ok(())
}

/// Which indexes to rebuild. An index with a checkpoint is not rebuilt. A
/// database from before the sparse index has a text checkpoint and no sparse
/// one, so its text indexes are rebuilt once.
pub fn plan_rebuilds(found: &RestoredIndexes) -> (r: Rebuilds)
    ensures
        r == (Rebuilds {
            text: found.fts_empty || !found.sparse_checkpoint_present,
            spatial: found.spatial_empty,
            graph: found.csr_empty,
        }),
{
    Rebuilds {
        text: found.fts_empty || !found.sparse_checkpoint_present,
        spatial: found.spatial_empty,
        graph: found.csr_empty,
    }
}

/// The background tasks that run.
#[derive(Debug)]
pub struct TaskRegistry {
    running: Vec<TaskKind>,
}

/// How many of these tasks are of a kind.
pub open spec fn count_of(running: Seq<TaskKind>, kind: TaskKind) -> nat
    decreases running.len(),
{
    if running.len() == 0 {
        0
    } else {
        count_of(running.drop_last(), kind) + if running.last() == kind {
            1nat
        } else {
            0
        }
    }
}

impl TaskRegistry {
    /// The tasks that run.
    pub closed spec fn running(&self) -> Seq<TaskKind> {
        self.running@
    }

    /// How many tasks of a kind run.
    pub open spec fn count(&self, kind: TaskKind) -> nat {
        count_of(self.running(), kind)
    }

    /// At most one task flushes and at most one synchronises.
    pub open spec fn wf(&self) -> bool {
        self.count(TaskKind::AutoFlush) <= 1 && self.count(TaskKind::Sync) <= 1
    }

    /// No task.
    pub fn new() -> (r: TaskRegistry)
        ensures
            r.wf(),
            r.running() == Seq::<TaskKind>::empty(),
    {
        TaskRegistry { running: Vec::new() }
    }

    /// Whether a task of a kind runs.
    pub fn has(&self, kind: TaskKind) -> (r: bool)
        ensures
            r == (self.count(kind) > 0),
    {
        let mut i: usize = 0;
        proof {
            assert(self.running@.take(0) =~= Seq::empty());
        }
        while i < self.running.len()
            invariant
                i <= self.running@.len(),
                count_of(self.running@.take(i as int), kind) == 0,
            decreases self.running@.len() - i,
        {
            proof {
                let next = self.running@.take(i as int + 1);
                assert(next.drop_last() =~= self.running@.take(i as int));
                assert(next.last() == self.running@[i as int]);
            }
            if self.running[i] == kind {
                proof {
                    lemma_count_grows(self.running@, kind, i as int + 1);
                }
                return true;
            }
            i = i + 1;
        }
        proof {
            assert(self.running@.take(self.running@.len() as int) =~= self.running@);
        }
        false
    }

    /// Stops every task of a kind and tells whether one ran.
    pub fn stop(&mut self, kind: TaskKind) -> (r: bool)
        requires
            old(self).wf(),
        ensures
            final(self).wf(),
            r == (old(self).count(kind) > 0),
            final(self).count(kind) == 0,
            forall|other: TaskKind|
                other != kind ==> #[trigger] final(self).count(other) == old(self).count(other),
    {
        let ghost before = self.running@;
        let found: bool = self.has(kind);
        let mut kept: Vec<TaskKind> = Vec::new();
        let mut i: usize = 0;
        proof {
            assert(before.take(0) =~= Seq::empty());
        }
        while i < self.running.len()
            invariant
                i <= self.running@.len(),
                self.running@ == before,
                count_of(kept@, kind) == 0,
                forall|other: TaskKind|
                    other != kind ==> #[trigger] count_of(kept@, other) == count_of(
                        before.take(i as int),
                        other,
                    ),
            decreases self.running@.len() - i,
        {
            let t = self.running[i];
            let ghost had = kept@;
            proof {
                let next = before.take(i as int + 1);
                assert(next.drop_last() =~= before.take(i as int));
                assert(next.last() == t);
            }
            if t != kind {
                kept.push(t);
                proof {
                    assert(kept@.drop_last() =~= had);
                    assert(kept@.last() == t);
                    assert(count_of(kept@, kind) == count_of(had, kind));
                }
            }
            proof {
                assert forall|other: TaskKind| other != kind implies #[trigger] count_of(
                    kept@,
                    other,
                ) == count_of(before.take(i as int + 1), other) by {
                    assert(count_of(had, other) == count_of(before.take(i as int), other));
                }
            }
            i = i + 1;
        }
        proof {
            assert(before.take(before.len() as int) =~= before);
        }
        self.running = kept;
        proof {
            assert forall|other: TaskKind| other != kind implies #[trigger] self.count(other)
                == count_of(before, other) by {
                assert(count_of(kept@, other) == count_of(before, other));
            }
            assert(count_of(before, TaskKind::AutoFlush) <= 1);
            if kind != TaskKind::AutoFlush {
                assert(self.count(TaskKind::AutoFlush) == count_of(before, TaskKind::AutoFlush));
            }
            if kind != TaskKind::Sync {
                assert(self.count(TaskKind::Sync) == count_of(before, TaskKind::Sync));
            }
        }
        found
    }

    fn track(&mut self, kind: TaskKind)
        ensures
            final(self).count(kind) == old(self).count(kind) + 1,
            forall|other: TaskKind|
                other != kind ==> #[trigger] final(self).count(other) == old(self).count(other),
    {
        let ghost before = self.running@;
        self.running.push(kind);
        proof {
            assert(self.running@.drop_last() =~= before);
            assert(self.running@.last() == kind);
        }
    }

    /// Starts flushing at intervals, in place of a task that already does. An
    /// interval of zero starts nothing and stops nothing.
    pub fn start_auto_flush(&mut self, interval_ms: u64) -> (r: bool)
        requires
            old(self).wf(),
        ensures
            final(self).wf(),
            r == (interval_ms > 0),
            final(self).count(TaskKind::AutoFlush) == if interval_ms > 0 {
                1
            } else {
                old(self).count(TaskKind::AutoFlush)
            },
            forall|other: TaskKind|
                other != TaskKind::AutoFlush ==> #[trigger] final(self).count(other) == old(
                    self,
                ).count(other),
    {
        if interval_ms == 0 {
            return false;
        }
        let _replaced: bool = self.stop(TaskKind::AutoFlush);
        self.track(TaskKind::AutoFlush);
        true
    }

    /// Starts compacting at intervals, beside a task that already does. An
    /// interval of zero starts nothing.
    pub fn start_auto_compact(&mut self, interval_ms: u64) -> (r: bool)
        requires
            old(self).wf(),
        ensures
            final(self).wf(),
            r == (interval_ms > 0),
            final(self).count(TaskKind::AutoCompact) == old(self).count(TaskKind::AutoCompact)
                + if interval_ms > 0 {
                1nat
            } else {
                0
            },
            forall|other: TaskKind|
                other != TaskKind::AutoCompact ==> #[trigger] final(self).count(other) == old(
                    self,
                ).count(other),
    {
        if interval_ms == 0 {
            return false;
        }
        self.track(TaskKind::AutoCompact);
        proof {
            assert(self.count(TaskKind::AutoFlush) == old(self).count(TaskKind::AutoFlush));
            assert(self.count(TaskKind::Sync) == old(self).count(TaskKind::Sync));
        }
        true
    }

    /// Starts synchronising, unless a task already does: a second one would
    /// push the same mutations twice.
    pub fn start_sync(&mut self) -> (r: bool)
        requires
            old(self).wf(),
        ensures
            final(self).wf(),
            r == (old(self).count(TaskKind::Sync) == 0),
            final(self).count(TaskKind::Sync) == 1,
            forall|other: TaskKind|
                other != TaskKind::Sync ==> #[trigger] final(self).count(other) == old(self).count(
                    other,
                ),
    {
        if self.has(TaskKind::Sync) {
            return false;
        }
        self.track(TaskKind::Sync);
        proof {
            assert(self.count(TaskKind::AutoFlush) == old(self).count(TaskKind::AutoFlush));
        }
        true
    }

    /// Stops every task.
    pub fn shutdown(&mut self)
        ensures
            final(self).wf(),
            final(self).running() == Seq::<TaskKind>::empty(),
    {
        self.running = Vec::new();
    }
}

proof fn lemma_count_grows(running: Seq<TaskKind>, kind: TaskKind, i: int)
    requires
        0 <= i <= running.len(),
    ensures
        count_of(running.take(i), kind) <= count_of(running, kind),
    decreases running.len() - i,
{
    if i == running.len() {
        assert(running.take(i) =~= running);
    } else {
        assert(running.take(i + 1).drop_last() =~= running.take(i));
        lemma_count_grows(running, kind, i + 1);
    }
}

/// What opening decides: the rebuilds, and the tasks it starts.
pub fn open_inner(config: &OpenConfig, found: &RestoredIndexes) -> (r: Result<
    (Rebuilds, TaskRegistry),
    LiteError,
>)
    ensures
        match r {
            Ok((rebuilds, tasks)) => {
                &&& config.kv_cache_capacity > 0
                &&& rebuilds == (Rebuilds {
                    text: found.fts_empty || !found.sparse_checkpoint_present,
                    spatial: found.spatial_empty,
                    graph: found.csr_empty,
                })
                &&& tasks.wf()
                &&& tasks.count(TaskKind::AutoFlush) == if config.auto_flush_ms > 0 {
                    1nat
                } else {
                    0
                }
                &&& tasks.count(TaskKind::AutoCompact) == if config.auto_compact_ms > 0 {
                    1nat
                } else {
                    0
                }
                &&& tasks.count(TaskKind::Sync) == 0
            },
            Err(e) => config.kv_cache_capacity == 0 && e@ == ErrorView::Config(
                "kv_cache_capacity must be greater than 0"@,
            ),
        },
{
    if let Err(e) = check_config(config) {
        return Err(e);
    }
    let rebuilds = plan_rebuilds(found);
    let mut tasks = TaskRegistry::new();
    let _flushing: bool = tasks.start_auto_flush(config.auto_flush_ms);
    let _compacting: bool = tasks.start_auto_compact(config.auto_compact_ms);
    Ok((rebuilds, tasks))
}

/// Opening is refused just where the cache has no room. It rebuilds an index
/// exactly where nothing of it was restored, and starts a task exactly where it
/// has an interval.
pub proof fn opening_starts_what_is_configured(
    config: &OpenConfig,
    found: &RestoredIndexes,
    r: Result<(Rebuilds, TaskRegistry), LiteError>,
)
    requires
        call_ensures(open_inner, (config, found), r),
    ensures
        r is Ok <==> config.kv_cache_capacity > 0,
        r is Ok ==> {
            let (rebuilds, tasks) = r->Ok_0;
            &&& rebuilds.text <==> found.fts_empty || !found.sparse_checkpoint_present
            &&& rebuilds.spatial <==> found.spatial_empty
            &&& rebuilds.graph <==> found.csr_empty
            &&& tasks.count(TaskKind::AutoFlush) > 0 <==> config.auto_flush_ms > 0
            &&& tasks.count(TaskKind::AutoCompact) > 0 <==> config.auto_compact_ms > 0
            &&& tasks.count(TaskKind::Sync) == 0
        },
{
}

} // verus!
