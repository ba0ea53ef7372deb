//! The queue of local mutations that await acknowledgement.
//!
//! The oldest entries are resident with their payload. Entries beyond the
//! window are held by id alone once their stored form is durable.
use vstd::prelude::*;

verus! {

/// A resident entry of the queue.
#[derive(Debug)]
pub struct PendingDelta {
    /// The mutation.
    pub mutation_id: u64,
    /// Its serialised form.
    pub payload: Vec<u8>,
    /// Which edit of the entry this is.
    pub revision: u64,
    /// The edit that was last made durable.
    pub persisted: Option<u64>,
}

impl PendingDelta {
    /// Whether this edit of the entry is durable.
    pub open spec fn durable(&self) -> bool {
        self.persisted == Some(self.revision)
    }
}

/// The queue of unacknowledged mutations.
#[derive(Debug)]
pub struct DeltaQueue {
    resident: Vec<PendingDelta>,
    spilled: Vec<u64>,
    window: usize,
    writes: u64,
}

/// The mutations of resident entries.
pub open spec fn resident_ids(resident: Seq<PendingDelta>) -> Seq<u64> {
    resident.map_values(|d: PendingDelta| d.mutation_id)
}

/// Whether mutations are listed from the oldest to the newest.
pub open spec fn ascending(ids: Seq<u64>) -> bool {
    forall|i: int, j: int| 0 <= i < j < ids.len() ==> #[trigger] ids[i] < #[trigger] ids[j]
}

impl DeltaQueue {
    /// The resident entries, oldest first.
    pub closed spec fn resident(&self) -> Seq<PendingDelta> {
        self.resident@
    }

    /// The mutations held by id alone, oldest first.
    pub closed spec fn spilled(&self) -> Seq<u64> {
        self.spilled@
    }

    /// How many entries may stay resident.
    pub closed spec fn window(&self) -> nat {
        self.window as nat
    }

    /// How many writes of entries were recorded since the queue was made.
    pub closed spec fn writes(&self) -> u64 {
        self.writes
    }

    /// The mutations that await acknowledgement.
    pub open spec fn live(&self) -> Set<u64> {
        resident_ids(self.resident()).to_set().union(self.spilled().to_set())
    }

    /// Entries are in order and none is held twice.
    pub open spec fn wf(&self) -> bool {
        &&& ascending(resident_ids(self.resident()))
        &&& ascending(self.spilled())
        &&& forall|i: int, j: int|
            0 <= i < self.resident().len() && 0 <= j < self.spilled().len() ==> (
            #[trigger] self.resident()[i]).mutation_id != #[trigger] self.spilled()[j]
    }

    /// An empty queue.
    pub fn new(window: usize) -> (r: DeltaQueue)
        ensures
            r.wf(),
            r.resident() == Seq::<PendingDelta>::empty(),
            r.spilled() == Seq::<u64>::empty(),
            r.window() == window,
            r.writes() == 0,
    {
        DeltaQueue { resident: Vec::new(), spilled: Vec::new(), window, writes: 0 }
    }

    /// How many writes of entries were recorded since the queue was made.
    pub fn pending_delta_write_count(&self) -> (r: u64)
        ensures
            r == self.writes(),
    {
        self.writes
    }

    /// How many mutations await acknowledgement.
    pub fn pending_count(&self) -> (r: usize)
        requires
            self.resident().len() + self.spilled().len() <= usize::MAX,
        ensures
            r == self.resident().len() + self.spilled().len(),
    {
        self.resident.len() + self.spilled.len()
    }

    /// How many entries are resident.
    pub fn resident_pending_count(&self) -> (r: usize)
        ensures
            r == self.resident().len(),
    {
        self.resident.len()
    }

    /// How many mutations are held by id alone.
    pub fn spilled_pending_count(&self) -> (r: usize)
        ensures
            r == self.spilled().len(),
    {
        self.spilled.len()
    }

    /// A resident entry.
    pub fn resident_at(&self, i: usize) -> (r: &PendingDelta)
        requires
            i < self.resident().len(),
        ensures
            *r == self.resident()[i as int],
    {
        &self.resident[i]
    }

    /// Whether a mutation awaits acknowledgement, resident or not.
    pub fn pending_delta_is_live(&self, id: u64) -> (r: bool)
        ensures
            r == self.live().contains(id),
    {
        let mut i: usize = 0;
        while i < self.resident.len()
            invariant
                i <= self.resident@.len(),
                forall|j: int| 0 <= j < i ==> (#[trigger] self.resident@[j]).mutation_id != id,
            decreases self.resident@.len() - i,
        {
            if self.resident[i].mutation_id == id {
                proof {
                    let ids = resident_ids(self.resident());
                    assert(ids[i as int] == id);
                    assert(ids.contains(id));
                }
                return true;
            }
            i = i + 1;
        }
        let mut k: usize = 0;
        while k < self.spilled.len()
            invariant
                k <= self.spilled@.len(),
                forall|j: int| 0 <= j < k ==> #[trigger] self.spilled@[j] != id,
            decreases self.spilled@.len() - k,
        {
            if self.spilled[k] == id {
                proof {
                    assert(self.spilled().contains(id));
                }
                return true;
            }
            k = k + 1;
        }
        proof {
            let ids = resident_ids(self.resident());
            if ids.contains(id) {
                let j = choose|j: int| 0 <= j < ids.len() && ids[j] == id;
                assert(self.resident@[j].mutation_id == id);
            }
        }
        false
    }

    /// The newest mutation of the whole queue, zero where it is empty.
    pub open spec fn newest(&self) -> u64 {
        let r = if self.resident().len() == 0 {
            0u64
        } else {
            self.resident().last().mutation_id
        };
        let s = if self.spilled().len() == 0 {
            0u64
        } else {
            self.spilled().last()
        };
        if r < s {
            s
        } else {
            r
        }
    }

    /// The newest mutation of the whole queue, resident or not.
    pub fn max_pending_mutation_id(&self) -> (r: u64)
        ensures
            r == self.newest(),
            self.wf() ==> forall|id: u64| #[trigger] self.live().contains(id) ==> id <= r,
    {
        let a: u64 = if self.resident.len() == 0 {
            0
        } else {
            self.resident[self.resident.len() - 1].mutation_id
        };
        let b: u64 = if self.spilled.len() == 0 {
            0
        } else {
            self.spilled[self.spilled.len() - 1]
        };
        proof {
            if self.wf() {
                assert forall|id: u64| #[trigger] self.live().contains(id) implies id
                    <= self.newest() by {
                    let ids = resident_ids(self.resident());
                    if ids.contains(id) {
                        let j = choose|j: int| 0 <= j < ids.len() && ids[j] == id;
                        assert(ids[j] <= ids[ids.len() - 1]);
                    } else {
                        let sp = self.spilled();
                        let j = choose|j: int| 0 <= j < sp.len() && sp[j] == id;
                        assert(sp[j] <= sp[sp.len() - 1]);
                    }
                }
            }
        }
        if a < b {
            b
        } else {
            a
        }
    }

    /// Which stored mutations are no longer queued, in the order given.
    pub open spec fn retired(&self, stored: Seq<u64>) -> Seq<u64> {
        stored.filter(|id: u64| !self.live().contains(id))
    }

    /// Which stored mutations are no longer queued. A mutation held by id
    /// alone is still queued, and its stored form is the only copy of it.
    pub fn retired_delta_ids(&self, stored: &[u64]) -> (r: Vec<u64>)
        ensures
            r@ == self.retired(stored@),
            forall|i: int| 0 <= i < r@.len() ==> !self.live().contains(#[trigger] r@[i]),
    {
        let mut out: Vec<u64> = Vec::new();
        let mut i: usize = 0;
        proof {
            assert(stored@.take(0).filter(|id: u64| !self.live().contains(id)) =~= Seq::empty());
        }
        while i < stored.len()
            invariant
                i <= stored@.len(),
                out@ == self.retired(stored@.take(i as int)),
                forall|j: int| 0 <= j < out@.len() ==> !self.live().contains(#[trigger] out@[j]),
            decreases stored@.len() - i,
        {
            proof {
                let next = stored@.take(i as int + 1);
                assert(next.drop_last() =~= stored@.take(i as int));
                assert(next.last() == stored@[i as int]);
                reveal(Seq::filter);
            }
            if !self.pending_delta_is_live(stored[i]) {
                out.push(stored[i]);
            }
            i = i + 1;
        }
        proof {
            assert(stored@.take(stored@.len() as int) =~= stored@);
        }
        out
    }

    /// Appends an entry.
    fn append(&mut self, d: PendingDelta)
        requires
            old(self).wf(),
            forall|id: u64| #[trigger] old(self).live().contains(id) ==> id < d.mutation_id,
        ensures
            final(self).wf(),
            final(self).resident() == old(self).resident().push(d),
            final(self).spilled() == old(self).spilled(),
            final(self).window() == old(self).window(),
            final(self).writes() == old(self).writes(),
            final(self).live() == old(self).live().insert(d.mutation_id),
    {
        let ghost before = *self;
        let mutation_id: u64 = d.mutation_id;
        self.resident.push(d);
        proof {
            let ids = resident_ids(self.resident());
            let old_ids = resident_ids(before.resident());
            assert(ids =~= old_ids.push(mutation_id));
            assert forall|i: int, j: int| 0 <= i < j < ids.len() implies #[trigger] ids[i]
                < #[trigger] ids[j] by {
                if j == ids.len() - 1 {
                    assert(old_ids.contains(ids[i]));
                    assert(before.live().contains(ids[i]));
                }
            }
            assert forall|i: int, j: int|
                0 <= i < self.resident().len() && 0 <= j < self.spilled().len() implies (
            #[trigger] self.resident()[i]).mutation_id != #[trigger] self.spilled()[j] by {
                if i == self.resident().len() - 1 {
                    assert(before.spilled().contains(self.spilled()[j]));
                    assert(before.live().contains(self.spilled()[j]));
                } else {
                    assert(self.resident()[i] == before.resident()[i]);
                }
            }
            assert forall|id: u64| self.live().contains(id) == before.live().insert(
                mutation_id,
            ).contains(id) by {
                if ids.contains(id) {
                    let k = choose|k: int| 0 <= k < ids.len() && ids[k] == id;
                    if k < old_ids.len() {
                        assert(old_ids[k] == id);
                    }
                }
                if old_ids.contains(id) {
                    let k = choose|k: int| 0 <= k < old_ids.len() && old_ids[k] == id;
                    assert(ids[k] == id);
                }
                assert(ids[ids.len() - 1] == mutation_id);
            }
            assert(self.live() =~= before.live().insert(mutation_id));
        }
    }

    /// Appends a new mutation.
    pub fn push(&mut self, mutation_id: u64, payload: Vec<u8>, revision: u64)
        requires
            old(self).wf(),
            forall|id: u64| #[trigger] old(self).live().contains(id) ==> id < mutation_id,
        ensures
            final(self).wf(),
            final(self).resident() == old(self).resident().push(
                PendingDelta { mutation_id, payload, revision, persisted: None },
            ),
            final(self).spilled() == old(self).spilled(),
            final(self).window() == old(self).window(),
            final(self).writes() == old(self).writes(),
            final(self).live() == old(self).live().insert(mutation_id),
    {
        self.append(PendingDelta { mutation_id, payload, revision, persisted: None });
    }

    /// Appends a mutation whose entry is stored already.
    pub fn push_stored(&mut self, mutation_id: u64, payload: Vec<u8>)
        requires
            old(self).wf(),
            forall|id: u64| #[trigger] old(self).live().contains(id) ==> id < mutation_id,
        ensures
            final(self).wf(),
            final(self).resident() == old(self).resident().push(
                PendingDelta { mutation_id, payload, revision: 0, persisted: Some(0) },
            ),
            final(self).spilled() == old(self).spilled(),
            final(self).window() == old(self).window(),
            final(self).writes() == old(self).writes(),
            final(self).live() == old(self).live().insert(mutation_id),
    {
        self.append(PendingDelta { mutation_id, payload, revision: 0, persisted: Some(0) });
    }

    /// Removes an acknowledged mutation, resident or not.
    pub fn acknowledge(&mut self, id: u64)
        requires
            old(self).wf(),
        ensures
            final(self).wf(),
            dropped(*old(self), *final(self), id),
            final(self).live() == old(self).live().remove(id),
    {
        let ghost before = *self;
        let ghost rids = resident_ids(before.resident());
        match position_of_resident(&self.resident, id) {
            Some(k) => {
                let _gone = self.resident.remove(k);
                proof {
                    lemma_only_place(rids, k as int);
                    lemma_remove_ascending(rids, k as int);
                    assert(resident_ids(self.resident()) =~= rids.remove(k as int));
                    assert(!before.spilled().contains(id)) by {
                        if before.spilled().contains(id) {
                            let j = choose|j: int|
                                0 <= j < before.spilled().len() && before.spilled()[j] == id;
                            assert(before.resident()[k as int].mutation_id != before.spilled()[j]);
                        }
                    }
                    assert(self.live() =~= before.live().remove(id));
                    assert forall|i: int, j: int|
                        0 <= i < self.resident().len() && 0 <= j < self.spilled().len() implies (
                    #[trigger] self.resident()[i]).mutation_id != #[trigger] self.spilled()[j] by {
                        let i0 = if i < k {
                            i
                        } else {
                            i + 1
                        };
                        assert(self.resident()[i] == before.resident()[i0]);
                    }
                }
            },
            None => {
                proof {
                    assert(!rids.contains(id)) by {
                        if rids.contains(id) {
                            let j = choose|j: int| 0 <= j < rids.len() && rids[j] == id;
                            assert(before.resident()[j].mutation_id == id);
                        }
                    }
                }
                match position_of(&self.spilled, id) {
                    Some(k) => {
                        let _gone: u64 = self.spilled.remove(k);
                        proof {
                            lemma_only_place(before.spilled(), k as int);
                            lemma_remove_ascending(before.spilled(), k as int);
                            assert(self.spilled() == before.spilled().remove(k as int));
                            assert(self.live() =~= before.live().remove(id));
                            assert forall|i: int, j: int|
                                0 <= i < self.resident().len() && 0 <= j
                                    < self.spilled().len() implies (
                            #[trigger] self.resident()[i]).mutation_id
                                != #[trigger] self.spilled()[j] by {
                                let j0 = if j < k {
                                    j
                                } else {
                                    j + 1
                                };
                                assert(self.spilled()[j] == before.spilled()[j0]);
                            }
                        }
                    },
                    None => {
                        proof {
                            assert(self.live() =~= before.live().remove(id));
                        }
                    },
                }
            },
        }
    }

    /// Records that edits of entries have become durable, and counts them. An
    /// entry that was edited again in the meantime stays to be written.
    pub fn mark_pending_deltas_persisted(&mut self, written: &[(u64, u64)])
        requires
            old(self).wf(),
        ensures
            final(self).wf(),
            final(self).live() == old(self).live(),
            final(self).window() == old(self).window(),
            final(self).writes() == counted(old(self).writes(), written@.len()),
            final(self).spilled() == old(self).spilled(),
            final(self).resident().len() == old(self).resident().len(),
            forall|i: int|
                0 <= i < old(self).resident().len() ==> marked(
                    old(self).resident()[i],
                    #[trigger] final(self).resident()[i],
                    written@,
                ),
    {
        let ghost before = *self;
        let mut i: usize = 0;
        while i < self.resident.len()
            invariant
                i <= self.resident@.len(),
                self.resident@.len() == before.resident().len(),
                self.spilled@ == before.spilled(),
                self.window as nat == before.window(),
                self.writes == before.writes(),
                forall|j: int|
                    0 <= j < i ==> marked(
                        before.resident()[j],
                        #[trigger] self.resident@[j],
                        written@,
                    ),
                forall|j: int|
                    i <= j < self.resident@.len() ==> #[trigger] self.resident@[j]
                        == before.resident()[j],
            decreases self.resident@.len() - i,
        {
            let id: u64 = self.resident[i].mutation_id;
            match written_revision(written, id) {
                Some(revision) => {
                    self.resident[i].persisted = Some(revision);
                },
                None => {},
            }
            i = i + 1;
        }
        self.writes = self.writes.saturating_add(written.len() as u64);
        proof {
            let a = resident_ids(self.resident());
            let b = resident_ids(before.resident());
            assert forall|j: int| 0 <= j < a.len() implies a[j] == b[j] by {
                assert(marked(before.resident()[j], self.resident()[j], written@));
            }
            assert(a =~= b);
            assert forall|x: int, y: int|
                0 <= x < self.resident().len() && 0 <= y < self.spilled().len() implies (
            #[trigger] self.resident()[x]).mutation_id != #[trigger] self.spilled()[y] by {
                assert(a[x] == b[x]);
                assert(before.resident()[x].mutation_id != before.spilled()[y]);
            }
        }
    }

    /// Pages the newest durable entries out until the window is not exceeded,
    /// and returns how many went. An entry that is not durable stays: it is
    /// the only copy of a local mutation.
    pub fn evict_pending_overflow(&mut self) -> (r: usize)
        requires
            old(self).wf(),
        ensures
            final(self).wf(),
            final(self).live() == old(self).live(),
            final(self).window() == old(self).window(),
            final(self).writes() == old(self).writes(),
            final(self).resident() == kept(
                old(self).resident(),
                old(self).resident().len() - old(self).window(),
            ),
            r == old(self).resident().len() - final(self).resident().len(),
    {
        let ghost before = *self;
        let total: usize = self.resident.len();
        let mut i: usize = total;
        let ghost excess0 = total - self.window;
        proof {
            assert(before.resident().take(total as int) =~= before.resident());
            assert(self.resident@.skip(total as int) =~= Seq::<PendingDelta>::empty());
            assert(kept(before.resident(), excess0) + Seq::<PendingDelta>::empty() =~= kept(
                before.resident(),
                excess0,
            ));
        }
        while i > 0
            invariant
                i <= total,
                i <= self.resident@.len(),
                total == before.resident().len(),
                excess0 == before.resident().len() - before.window(),
                self.window as nat == before.window(),
                self.writes == before.writes(),
                self.wf(),
                self.live() == before.live(),
                self.resident@.take(i as int) == before.resident().take(i as int),
                self.resident@.len() <= total,
                kept(before.resident(), excess0) == kept(
                    before.resident().take(i as int),
                    excess0 - (total - self.resident@.len()),
                ) + self.resident@.skip(i as int),
            decreases i,
        {
            let ghost now = *self;
            let ghost head = before.resident().take(i as int);
            let ghost excess = excess0 - (total - self.resident@.len());
            i = i - 1;
            let ghost d = self.resident@[i as int];
            proof {
                assert(head.drop_last() =~= before.resident().take(i as int));
                assert(head.last() == now.resident@.take(i as int + 1)[i as int]);
                assert(head.last() == d);
            }
            let durable: bool = match self.resident[i].persisted {
                Some(p) => p == self.resident[i].revision,
                None => false,
            };
            if durable && self.resident.len() > self.window {
                let id: u64 = self.resident[i].mutation_id;
                proof {
                    assert(!now.spilled().contains(id)) by {
                        if now.spilled().contains(id) {
                            let j = choose|j: int|
                                0 <= j < now.spilled().len() && now.spilled()[j] == id;
                            assert(now.resident()[i as int].mutation_id != now.spilled()[j]);
                        }
                    }
                }
                let _gone = self.resident.remove(i);
                insert_sorted(&mut self.spilled, id);
                proof {
                    lemma_moved_out(now, *self, i as int, id);
                    assert(self.resident@.take(i as int) =~= now.resident@.take(i as int));
                    assert(now.resident@.take(i as int) =~= now.resident@.take(i as int + 1).take(
                        i as int,
                    ));
                    assert(before.resident().take(i as int) =~= before.resident().take(
                        i as int + 1,
                    ).take(i as int));
                    assert(self.resident@.skip(i as int) =~= now.resident@.skip(i as int + 1));
                }
            } else {
                proof {
                    assert(now.resident@.take(i as int) =~= now.resident@.take(i as int + 1).take(
                        i as int,
                    ));
                    assert(before.resident().take(i as int) =~= before.resident().take(
                        i as int + 1,
                    ).take(i as int));
                    assert(kept(head, excess) == kept(head.drop_last(), excess).push(d));
                    assert(kept(head.drop_last(), excess).push(d) + now.resident@.skip(
                        i as int + 1,
                    ) =~= kept(head.drop_last(), excess) + now.resident@.skip(i as int));
                }
            }
        }
        proof {
            assert(before.resident().take(0).len() == 0);
            assert(self.resident@.skip(0) =~= self.resident@);
            assert(Seq::<PendingDelta>::empty() + self.resident@ =~= self.resident@);
        }
        total - self.resident.len()
    }

    /// The oldest mutations held by id alone, as many as the window has room
    /// for.
    pub fn spilled_pending_ids(&self) -> (r: Vec<u64>)
        ensures
            r@ == self.spilled().take(
                room(self.resident().len(), self.spilled().len(), self.window()) as int,
            ),
    {
        let mut out: Vec<u64> = Vec::new();
        let mut i: usize = 0;
        while i < self.spilled.len() && self.resident.len() < self.window && i < self.window
            - self.resident.len()
            invariant
                i <= self.spilled@.len(),
                out@ == self.spilled@.take(i as int),
                i <= room(self.resident@.len(), self.spilled@.len(), self.window as nat),
            decreases self.spilled@.len() - i,
        {
            out.push(self.spilled[i]);
            proof {
                assert(self.spilled@.take(i as int + 1) =~= self.spilled@.take(i as int).push(
                    self.spilled@[i as int],
                ));
            }
            i = i + 1;
        }
        out
    }

    /// Pages stored entries back in, in the order given, while the window has
    /// room. What is not held by id alone is discarded.
    pub fn hydrate_pending_deltas(&mut self, deltas: Vec<(u64, Vec<u8>)>) -> (r: usize)
        requires
            old(self).wf(),
        ensures
            final(self).wf(),
            final(self).live() == old(self).live(),
            final(self).window() == old(self).window(),
            final(self).writes() == old(self).writes(),
            r == final(self).resident().len() - old(self).resident().len(),
            final(self).spilled().to_set() == old(self).spilled().to_set().difference(
                paged_in(
                    old(self).spilled().to_set(),
                    delta_ids(deltas@),
                    old(self).window() - old(self).resident().len(),
                ),
            ),
            forall|i: int|
                0 <= i < final(self).resident().len() ==> old(self).resident().contains(
                    #[trigger] final(self).resident()[i],
                ) || offered(deltas@, final(self).resident()[i]),
            forall|i: int|
                0 <= i < old(self).resident().len() ==> final(self).resident().contains(
                    #[trigger] old(self).resident()[i],
                ),
    {
        let ghost before = *self;
        let ghost ids = delta_ids(deltas@);
        let start: usize = self.resident.len();
        let mut rest = deltas;
        let mut i: usize = 0;
        let n: usize = rest.len();
        proof {
            assert(ids.take(0) =~= Seq::empty());
            assert(self.spilled().to_set() =~= before.spilled().to_set().difference(
                Set::<u64>::empty(),
            ));
            assert forall|j: int| 0 <= j < before.resident().len() implies self.resident@.contains(
                #[trigger] before.resident()[j],
            ) by {
                assert(self.resident@[j] == before.resident()[j]);
            }
            assert forall|j: int| 0 <= j < self.resident@.len() implies before.resident().contains(
                #[trigger] self.resident@[j],
            ) by {
                assert(before.resident()[j] == self.resident@[j]);
            }
        }
        while i < n
            invariant
                i <= n,
                n == ids.len(),
                ids == delta_ids(deltas@),
                rest@ == deltas@.skip(i as int),
                n == deltas@.len(),
                start == before.resident().len(),
                self.wf(),
                self.live() == before.live(),
                self.window as nat == before.window(),
                self.writes == before.writes(),
                self.resident@.len() >= start,
                self.spilled().to_set() == before.spilled().to_set().difference(
                    paged_in(
                        before.spilled().to_set(),
                        ids.take(i as int),
                        before.window() - before.resident().len(),
                    ),
                ),
                self.resident@.len() - start == paged_count(
                    before.spilled().to_set(),
                    ids.take(i as int),
                    before.window() - before.resident().len(),
                ),
                forall|j: int|
                    0 <= j < self.resident@.len() ==> before.resident().contains(
                        #[trigger] self.resident@[j],
                    ) || offered(deltas@, self.resident@[j]),
                forall|j: int|
                    0 <= j < before.resident().len() ==> self.resident@.contains(
                        #[trigger] before.resident()[j],
                    ),
            decreases n - i,
        {
            let ghost now = *self;
            let (id, payload) = rest.remove(0);
            proof {
                assert(rest@ =~= deltas@.skip(i as int + 1));
                assert(ids.take(i as int + 1).drop_last() =~= ids.take(i as int));
                assert(ids.take(i as int + 1).last() == id);
            }
            if self.resident.len() < self.window {
                match position_of(&self.spilled, id) {
                    Some(k) => {
                        let _gone: u64 = self.spilled.remove(k);
                        let d = PendingDelta {
                            mutation_id: id,
                            payload,
                            revision: 0,
                            persisted: Some(0),
                        };
                        let ghost entry = d;
                        insert_resident(&mut self.resident, d);
                        proof {
                            assert(deltas@[i as int] == (id, payload));
                            assert(offered(deltas@, entry));
                            lemma_insert_keeps(
                                before.resident(),
                                now.resident@,
                                self.resident@,
                                entry,
                                deltas@,
                            );
                            lemma_moved_in(now, *self, k as int, id);
                            assert(now.spilled().contains(id));
                            assert(now.spilled().to_set().contains(id));
                            lemma_remove_ascending(now.spilled(), k as int);
                            assert(self.spilled().to_set() =~= before.spilled().to_set().difference(
                                paged_in(
                                    before.spilled().to_set(),
                                    ids.take(i as int + 1),
                                    before.window() - before.resident().len(),
                                ),
                            ));
                        }
                    },
                    None => {
                        proof {
                            assert(!now.spilled().contains(id));
                            assert(!now.spilled().to_set().contains(id));
                        }
                    },
                }
            }
            i = i + 1;
        }
        proof {
            assert(ids.take(ids.len() as int) =~= ids);
        }
        self.resident.len() - start
    }
}

/// The queue `b` is the queue `a` without one mutation, resident or not.
pub open spec fn dropped(a: DeltaQueue, b: DeltaQueue, id: u64) -> bool {
    &&& b.window() == a.window()
    &&& b.writes() == a.writes()
    &&& b.resident() == if resident_ids(a.resident()).contains(id) {
        a.resident().remove(resident_ids(a.resident()).index_of(id))
    } else {
        a.resident()
    }
    &&& b.spilled() == if a.spilled().contains(id) {
        a.spilled().remove(a.spilled().index_of(id))
    } else {
        a.spilled()
    }
}

/// A count of writes after some more, which stops at its largest value.
pub open spec fn counted(writes: u64, more: nat) -> u64 {
    if writes + more <= u64::MAX {
        (writes + more) as u64
    } else {
        u64::MAX
    }
}

/// The entry `b` is the entry `a` after these edits have become durable.
pub open spec fn marked(a: PendingDelta, b: PendingDelta, written: Seq<(u64, u64)>) -> bool {
    &&& b.mutation_id == a.mutation_id
    &&& b.payload == a.payload
    &&& b.revision == a.revision
    &&& b.persisted == match last_written(written, a.mutation_id) {
        Some(revision) => Some(revision),
        None => a.persisted,
    }
}

/// The last edit of a mutation among those written.
pub open spec fn last_written(written: Seq<(u64, u64)>, id: u64) -> Option<u64>
    decreases written.len(),
{
    if written.len() == 0 {
        None
    } else if written.last().0 == id {
        Some(written.last().1)
    } else {
        last_written(written.drop_last(), id)
    }
}

fn written_revision(written: &[(u64, u64)], id: u64) -> (r: Option<u64>)
    ensures
        r == last_written(written@, id),
{
    let mut i: usize = written.len();
    proof {
        assert(written@.take(written@.len() as int) =~= written@);
    }
    while i > 0
        invariant
            i <= written@.len(),
            last_written(written@, id) == last_written(written@.take(i as int), id),
        decreases i,
    {
        i = i - 1;
        proof {
            let head = written@.take(i as int + 1);
            assert(head.last() == written@[i as int]);
            assert(head.drop_last() =~= written@.take(i as int));
        }
        if written[i].0 == id {
            return Some(written[i].1);
        }
    }
    None
}

/// The entries that stay when up to `excess` of the newest durable ones go.
pub open spec fn kept(resident: Seq<PendingDelta>, excess: int) -> Seq<PendingDelta>
    decreases resident.len(),
{
    if resident.len() == 0 {
        Seq::empty()
    } else if excess > 0 && resident.last().durable() {
        kept(resident.drop_last(), excess - 1)
    } else {
        kept(resident.drop_last(), excess).push(resident.last())
    }
}

/// How many mutations can be paged back in.
pub open spec fn room(resident: nat, spilled: nat, window: nat) -> nat {
    if resident >= window {
        0
    } else if (window - resident) as nat <= spilled {
        (window - resident) as nat
    } else {
        spilled
    }
}

/// The mutations of stored entries.
pub open spec fn delta_ids(deltas: Seq<(u64, Vec<u8>)>) -> Seq<u64> {
    deltas.map_values(|d: (u64, Vec<u8>)| d.0)
}

/// Whether an entry is a durable copy of one of these stored entries.
pub open spec fn offered(deltas: Seq<(u64, Vec<u8>)>, d: PendingDelta) -> bool {
    d.durable() && exists|j: int|
        0 <= j < deltas.len() && #[trigger] deltas[j] == (d.mutation_id, d.payload)
}

proof fn lemma_insert_keeps(
    first: Seq<PendingDelta>,
    a: Seq<PendingDelta>,
    b: Seq<PendingDelta>,
    d: PendingDelta,
    deltas: Seq<(u64, Vec<u8>)>,
)
    requires
        exists|k: int| 0 <= k <= a.len() && b == #[trigger] a.insert(k, d),
        offered(deltas, d),
        forall|j: int|
            0 <= j < a.len() ==> first.contains(#[trigger] a[j]) || offered(deltas, a[j]),
        forall|j: int| 0 <= j < first.len() ==> a.contains(#[trigger] first[j]),
    ensures
        forall|j: int|
            0 <= j < b.len() ==> first.contains(#[trigger] b[j]) || offered(deltas, b[j]),
        forall|j: int| 0 <= j < first.len() ==> b.contains(#[trigger] first[j]),
{
    let k = choose|k: int| 0 <= k <= a.len() && b == #[trigger] a.insert(k, d);
    assert forall|j: int| 0 <= j < b.len() implies first.contains(#[trigger] b[j]) || offered(
        deltas,
        b[j],
    ) by {
        if j < k {
            assert(b[j] == a[j]);
        } else if j > k {
            assert(b[j] == a[j - 1]);
        }
    }
    assert forall|j: int| 0 <= j < first.len() implies b.contains(#[trigger] first[j]) by {
        assert(a.contains(first[j]));
        let i = choose|i: int| 0 <= i < a.len() && a[i] == first[j];
        if i < k {
            assert(b[i] == first[j]);
        } else {
            assert(b[i + 1] == first[j]);
        }
    }
}

/// The backlog comes back oldest first: where the stored entries of the oldest
/// mutations are offered in order, exactly the oldest are paged in, as many as
/// there is room for.
pub proof fn backlog_returns_oldest_first(spilled: Seq<u64>, n: nat, room: nat)
    requires
        ascending(spilled),
        n <= spilled.len(),
    ensures
        ({
            let m = if n <= room {
                n
            } else {
                room
            };
            &&& paged_in(spilled.to_set(), spilled.take(n as int), room as int) == spilled.take(
                m as int,
            ).to_set()
            &&& paged_count(spilled.to_set(), spilled.take(n as int), room as int) == m
        }),
    decreases n,
{
    let m = if n <= room {
        n
    } else {
        room
    };
    if n == 0 {
        assert(spilled.take(m as int).to_set() =~= Set::empty());
    } else {
        let k = (n - 1) as nat;
        backlog_returns_oldest_first(spilled, k, room);
        let offered = spilled.take(n as int);
        assert(offered.drop_last() =~= spilled.take(k as int));
        let id = offered.last();
        assert(id == spilled[k as int]);
        assert(spilled.contains(id));
        assert(spilled.to_set().contains(id));
        if k < room {
            assert(!spilled.take(k as int).contains(id)) by {
                if spilled.take(k as int).contains(id) {
                    let j = choose|j: int| 0 <= j < k && spilled.take(k as int)[j] == id;
                    assert(spilled[j] < spilled[k as int]);
                }
            }
            assert(!spilled.take(k as int).to_set().contains(id));
            assert(spilled.take(n as int) =~= spilled.take(k as int).push(id));
            assert forall|x: u64|
                spilled.take(n as int).to_set().contains(x) == spilled.take(
                    k as int,
                ).to_set().insert(id).contains(x) by {
                let a = spilled.take(k as int);
                let b = spilled.take(n as int);
                if b.contains(x) {
                    let j = choose|j: int| 0 <= j < b.len() && b[j] == x;
                    if j < k {
                        assert(a[j] == x);
                    }
                }
                if a.contains(x) {
                    let j = choose|j: int| 0 <= j < a.len() && a[j] == x;
                    assert(b[j] == x);
                }
                assert(b[k as int] == id);
            }
            assert(spilled.take(n as int).to_set() =~= spilled.take(k as int).to_set().insert(id));
        }
    }
}

/// The mutations that paging in takes: the first ones offered that are held by
/// id alone, as many as there is room for.
pub open spec fn paged_in(spilled: Set<u64>, offered: Seq<u64>, room: int) -> Set<u64>
    decreases offered.len(),
{
    if offered.len() == 0 {
        Set::empty()
    } else {
        let head = paged_in(spilled, offered.drop_last(), room);
        let id = offered.last();
        if paged_count(spilled, offered.drop_last(), room) < room && spilled.contains(id)
            && !head.contains(id) {
            head.insert(id)
        } else {
            head
        }
    }
}

/// How many mutations paging in takes.
pub open spec fn paged_count(spilled: Set<u64>, offered: Seq<u64>, room: int) -> nat
    decreases offered.len(),
{
    if offered.len() == 0 {
        0
    } else {
        let head = paged_in(spilled, offered.drop_last(), room);
        let id = offered.last();
        if paged_count(spilled, offered.drop_last(), room) < room && spilled.contains(id)
            && !head.contains(id) {
            paged_count(spilled, offered.drop_last(), room) + 1
        } else {
            paged_count(spilled, offered.drop_last(), room)
        }
    }
}

fn position_of(ids: &Vec<u64>, id: u64) -> (r: Option<usize>)
    ensures
        match r {
            Some(k) => k < ids@.len() && ids@[k as int] == id,
            None => !ids@.contains(id),
        },
{
    let mut i: usize = 0;
    while i < ids.len()
        invariant
            i <= ids@.len(),
            forall|j: int| 0 <= j < i ==> #[trigger] ids@[j] != id,
        decreases ids@.len() - i,
    {
        if ids[i] == id {
            return Some(i);
        }
        i = i + 1;
    }
    None
}

fn position_of_resident(resident: &Vec<PendingDelta>, id: u64) -> (r: Option<usize>)
    ensures
        match r {
            Some(k) => k < resident@.len() && resident@[k as int].mutation_id == id,
            None => forall|j: int|
                0 <= j < resident@.len() ==> (#[trigger] resident@[j]).mutation_id != id,
        },
{
    let mut i: usize = 0;
    while i < resident.len()
        invariant
            i <= resident@.len(),
            forall|j: int| 0 <= j < i ==> (#[trigger] resident@[j]).mutation_id != id,
        decreases resident@.len() - i,
    {
        if resident[i].mutation_id == id {
            return Some(i);
        }
        i = i + 1;
    }
    None
}

/// Inserts a mutation in order.
fn insert_sorted(ids: &mut Vec<u64>, id: u64)
    requires
        ascending(old(ids)@),
        !old(ids)@.contains(id),
    ensures
        ascending(final(ids)@),
        final(ids)@.to_set() == old(ids)@.to_set().insert(id),
{
    let ghost before = ids@;
    let mut k: usize = 0;
    while k < ids.len() && ids[k] < id
        invariant
            k <= ids@.len(),
            ids@ == before,
            forall|j: int| 0 <= j < k ==> #[trigger] before[j] < id,
        decreases ids@.len() - k,
    {
        k = k + 1;
    }
    proof {
        assert forall|j: int| k <= j < before.len() implies #[trigger] before[j] > id by {
            if j > k {
                assert(before[k as int] < before[j]);
            }
            assert(before.contains(before[j]));
            assert(before.contains(before[k as int]));
        }
        lemma_insert_ascending(before, k as int, id);
    }
    ids.insert(k, id);
}

/// Inserts an entry in order.
fn insert_resident(resident: &mut Vec<PendingDelta>, d: PendingDelta)
    requires
        ascending(resident_ids(old(resident)@)),
        !resident_ids(old(resident)@).contains(d.mutation_id),
    ensures
        ascending(resident_ids(final(resident)@)),
        resident_ids(final(resident)@).to_set() == resident_ids(old(resident)@).to_set().insert(
            d.mutation_id,
        ),
        final(resident)@.len() == old(resident)@.len() + 1,
        exists|k: int|
            0 <= k <= old(resident)@.len() && final(resident)@ == #[trigger] old(
                resident,
            )@.insert(k, d),
{
    let ghost before = resident@;
    let ghost ids = resident_ids(before);
    let mut k: usize = 0;
    while k < resident.len() && resident[k].mutation_id < d.mutation_id
        invariant
            k <= resident@.len(),
            resident@ == before,
            ids == resident_ids(before),
            forall|j: int| 0 <= j < k ==> #[trigger] ids[j] < d.mutation_id,
        decreases resident@.len() - k,
    {
        k = k + 1;
    }
    proof {
        assert forall|j: int| k <= j < ids.len() implies #[trigger] ids[j] > d.mutation_id by {
            if j > k {
                assert(ids[k as int] < ids[j]);
            }
            assert(ids.contains(ids[j]));
            assert(ids.contains(ids[k as int]));
        }
        lemma_insert_ascending(ids, k as int, d.mutation_id);
    }
    resident.insert(k, d);
    proof {
        assert(resident_ids(resident@) =~= ids.insert(k as int, d.mutation_id));
        assert(resident@ == before.insert(k as int, d));
    }
}

proof fn lemma_insert_ascending(s: Seq<u64>, k: int, id: u64)
    requires
        ascending(s),
        0 <= k <= s.len(),
        forall|j: int| 0 <= j < k ==> #[trigger] s[j] < id,
        forall|j: int| k <= j < s.len() ==> #[trigger] s[j] > id,
    ensures
        ascending(s.insert(k, id)),
        s.insert(k, id).to_set() == s.to_set().insert(id),
{
    let t = s.insert(k, id);
    assert forall|i: int, j: int| 0 <= i < j < t.len() implies #[trigger] t[i] < #[trigger] t[j] by {
        let i0 = if i < k {
            i
        } else {
            i - 1
        };
        let j0 = if j < k {
            j
        } else {
            j - 1
        };
        if i != k && j != k {
            assert(t[i] == s[i0] && t[j] == s[j0]);
        } else if i == k {
            assert(t[j] == s[j0]);
        } else {
            assert(t[i] == s[i0]);
        }
    }
    assert forall|x: u64| t.to_set().contains(x) == s.to_set().insert(id).contains(x) by {
        if t.contains(x) {
            let i = choose|i: int| 0 <= i < t.len() && t[i] == x;
            if i < k {
                assert(s[i] == x);
            } else if i > k {
                assert(s[i - 1] == x);
            }
        }
        if s.contains(x) {
            let i = choose|i: int| 0 <= i < s.len() && s[i] == x;
            if i < k {
                assert(t[i] == x);
            } else {
                assert(t[i + 1] == x);
            }
        }
        assert(t[k] == id);
    }
    assert(t.to_set() =~= s.to_set().insert(id));
}

proof fn lemma_remove_ascending(s: Seq<u64>, k: int)
    requires
        ascending(s),
        0 <= k < s.len(),
    ensures
        ascending(s.remove(k)),
        s.remove(k).to_set() == s.to_set().remove(s[k]),
{
    let t = s.remove(k);
    assert forall|i: int, j: int| 0 <= i < j < t.len() implies #[trigger] t[i] < #[trigger] t[j] by {
        let i0 = if i < k {
            i
        } else {
            i + 1
        };
        let j0 = if j < k {
            j
        } else {
            j + 1
        };
        assert(t[i] == s[i0] && t[j] == s[j0]);
    }
    assert forall|x: u64| t.to_set().contains(x) == s.to_set().remove(s[k]).contains(x) by {
        if t.contains(x) {
            let i = choose|i: int| 0 <= i < t.len() && t[i] == x;
            let i0 = if i < k {
                i
            } else {
                i + 1
            };
            assert(s[i0] == x);
            if i0 < k {
                assert(s[i0] < s[k]);
            } else {
                assert(s[k] < s[i0]);
            }
        }
        if s.contains(x) && x != s[k] {
            let i = choose|i: int| 0 <= i < s.len() && s[i] == x;
            if i < k {
                assert(t[i] == x);
            } else {
                assert(t[i - 1] == x);
            }
        }
    }
    assert(t.to_set() =~= s.to_set().remove(s[k]));
}

/// In an ascending list each mutation has one place.
proof fn lemma_only_place(ids: Seq<u64>, k: int)
    requires
        ascending(ids),
        0 <= k < ids.len(),
    ensures
        ids.contains(ids[k]),
        ids.index_of(ids[k]) == k,
{
    let j = ids.index_of(ids[k]);
    assert(ids.contains(ids[k]));
    assert(0 <= j < ids.len() && ids[j] == ids[k]);
    if j < k {
        assert(ids[j] < ids[k]);
    }
    if k < j {
        assert(ids[k] < ids[j]);
    }
}

/// Paging an entry out keeps the queue whole.
proof fn lemma_moved_out(a: DeltaQueue, b: DeltaQueue, i: int, id: u64)
    requires
        a.wf(),
        0 <= i < a.resident().len(),
        a.resident()[i].mutation_id == id,
        b.resident() == a.resident().remove(i),
        ascending(b.spilled()),
        b.spilled().to_set() == a.spilled().to_set().insert(id),
    ensures
        b.wf(),
        b.live() == a.live(),
{
    let ids = resident_ids(a.resident());
    lemma_remove_ascending(ids, i);
    assert(resident_ids(b.resident()) =~= ids.remove(i));
    assert(ids[i] == id);
    assert(ids.contains(id));
    assert(b.live() =~= a.live());
    assert forall|x: int, y: int|
        0 <= x < b.resident().len() && 0 <= y < b.spilled().len() implies (
    #[trigger] b.resident()[x]).mutation_id != #[trigger] b.spilled()[y] by {
        let x0 = if x < i {
            x
        } else {
            x + 1
        };
        assert(b.resident()[x] == a.resident()[x0]);
        assert(b.spilled().contains(b.spilled()[y]));
        assert(b.spilled().to_set().contains(b.spilled()[y]));
        if b.spilled()[y] == id {
            if x0 < i {
                assert(ids[x0] < ids[i]);
            } else {
                assert(ids[i] < ids[x0]);
            }
        } else {
            assert(a.spilled().to_set().contains(b.spilled()[y]));
            let y0 = choose|y0: int|
                0 <= y0 < a.spilled().len() && a.spilled()[y0] == b.spilled()[y];
            assert(a.resident()[x0].mutation_id != a.spilled()[y0]);
        }
    }
}

/// Paging an entry in keeps the queue whole.
proof fn lemma_moved_in(a: DeltaQueue, b: DeltaQueue, k: int, id: u64)
    requires
        a.wf(),
        0 <= k < a.spilled().len(),
        a.spilled()[k] == id,
        b.spilled() == a.spilled().remove(k),
        ascending(resident_ids(b.resident())),
        resident_ids(b.resident()).to_set() == resident_ids(a.resident()).to_set().insert(id),
    ensures
        b.wf(),
        b.live() == a.live(),
{
    lemma_remove_ascending(a.spilled(), k);
    assert(a.spilled().contains(id));
    assert(b.live() =~= a.live());
    let bids = resident_ids(b.resident());
    let aids = resident_ids(a.resident());
    assert forall|x: int, y: int|
        0 <= x < b.resident().len() && 0 <= y < b.spilled().len() implies (
    #[trigger] b.resident()[x]).mutation_id != #[trigger] b.spilled()[y] by {
        let y0 = if y < k {
            y
        } else {
            y + 1
        };
        assert(b.spilled()[y] == a.spilled()[y0]);
        assert(bids[x] == b.resident()[x].mutation_id);
        assert(bids.contains(bids[x]));
        assert(bids.to_set().contains(bids[x]));
        if bids[x] == id {
            if y0 < k {
                assert(a.spilled()[y0] < a.spilled()[k]);
            } else {
                assert(a.spilled()[k] < a.spilled()[y0]);
            }
        } else {
            assert(aids.to_set().contains(bids[x]));
            let x0 = choose|x0: int| 0 <= x0 < aids.len() && aids[x0] == bids[x];
            assert(a.resident()[x0].mutation_id != a.spilled()[y0]);
        }
    }
}

/// Once every entry is durable, paging out leaves no more than the window, and
/// it is the oldest entries that stay.
pub proof fn eviction_bounds_the_window(resident: Seq<PendingDelta>, window: nat)
    requires
        forall|i: int| 0 <= i < resident.len() ==> (#[trigger] resident[i]).durable(),
    ensures
        kept(resident, resident.len() - window) == if resident.len() <= window {
            resident
        } else {
            resident.take(window as int)
        },
    decreases resident.len(),
{
    if resident.len() == 0 {
    } else if resident.len() <= window {
        lemma_kept_all(resident, resident.len() - window);
    } else {
        let head = resident.drop_last();
        assert forall|i: int| 0 <= i < head.len() implies (#[trigger] head[i]).durable() by {
            assert(head[i] == resident[i]);
        }
        assert(resident[resident.len() - 1].durable());
        eviction_bounds_the_window(head, window);
        assert(head.take(window as int) =~= resident.take(window as int));
        if head.len() == window {
            assert(head =~= resident.take(window as int));
        }
    }
}

proof fn lemma_kept_all(resident: Seq<PendingDelta>, excess: int)
    requires
        excess <= 0,
    ensures
        kept(resident, excess) == resident,
    decreases resident.len(),
{
    if resident.len() > 0 {
        lemma_kept_all(resident.drop_last(), excess);
        assert(resident.drop_last().push(resident.last()) =~= resident);
    }
}

} // verus!
