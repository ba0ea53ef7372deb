//! Putting vectors into indexes and taking indexes down.
use crate::text;
use crate::vector::state;
use crate::vector::state::{
    Bucket, BucketView, IdEntry, IdView, Sidecar, SidecarView, VectorState, VectorView,
};
use vstd::prelude::*;

verus! {

/// Whether a binding is one of the index, not of an index whose key begins
/// with the same text.
pub open spec fn belongs(e: IdView, index: Seq<char>) -> bool {
    e.key == state::slot_key(index, e.slot)
}

/// The slot bound to a document at or after the binding `i`.
pub open spec fn slot_from(
    ids: Seq<IdView>,
    index: Seq<char>,
    doc_id: Seq<char>,
    i: int,
) -> Option<u32>
    decreases ids.len() - i,
{
    if i < 0 || i >= ids.len() {
        None
    } else if belongs(ids[i], index) && ids[i].doc_id == doc_id {
        Some(ids[i].slot)
    } else {
        slot_from(ids, index, doc_id, i + 1)
    }
}

/// The slot bound to a document.
pub open spec fn slot_of(ids: Seq<IdView>, index: Seq<char>, doc_id: Seq<char>) -> Option<u32> {
    slot_from(ids, index, doc_id, 0)
}

/// Whether a new binding takes the place of an older one: that of the same
/// slot or of the same document.
pub open spec fn superseded_by(
    e: IdView,
    index: Seq<char>,
    doc_id: Seq<char>,
    slot: u32,
) -> bool {
    e.key == state::slot_key(index, slot) || (belongs(e, index) && e.doc_id == doc_id)
}

/// The id map without the bindings that a new one takes the place of.
pub open spec fn evicted(
    ids: Seq<IdView>,
    index: Seq<char>,
    doc_id: Seq<char>,
    slot: u32,
) -> Seq<IdView>
    decreases ids.len(),
{
    if ids.len() == 0 {
        Seq::empty()
    } else if superseded_by(ids.last(), index, doc_id, slot) {
        evicted(ids.drop_last(), index, doc_id, slot)
    } else {
        evicted(ids.drop_last(), index, doc_id, slot).push(ids.last())
    }
}

/// The id map after a slot is bound to a document.
pub open spec fn bound(
    ids: Seq<IdView>,
    index: Seq<char>,
    doc_id: Seq<char>,
    slot: u32,
) -> Seq<IdView> {
    evicted(ids, index, doc_id, slot).push(
        IdView { key: state::slot_key(index, slot), doc_id, slot },
    )
}

/// The slot that the next vector of an index takes.
pub open spec fn next_slot(buckets: Seq<BucketView>, index: Seq<char>) -> nat {
    match state::bucket_at(buckets, index) {
        Some(b) => buckets[b].deleted.len(),
        None => 0,
    }
}

/// The indexes after one more vector. An index that is not there is created
/// with the dimension of the vector.
pub open spec fn grown(buckets: Seq<BucketView>, index: Seq<char>, dim: usize) -> Seq<BucketView> {
    match state::bucket_at(buckets, index) {
        Some(b) => buckets.update(
            b,
            BucketView { deleted: buckets[b].deleted.push(false), ..buckets[b] },
        ),
        None => buckets.push(BucketView { key: index, dim, deleted: seq![false] }),
    }
}

/// The sidecars after a slot is encoded. An index without a sidecar gets none.
pub open spec fn with_code(sidecars: Seq<SidecarView>, index: Seq<char>, slot: u32) -> Seq<
    SidecarView,
> {
    Seq::new(
        sidecars.len(),
        |i: int|
            if sidecars[i].key == index {
                SidecarView { slots: sidecars[i].slots.push(slot), ..sidecars[i] }
            } else {
                sidecars[i]
            },
    )
}

/// The state after a vector of a document goes into an index.
pub open spec fn with_node(
    s: VectorView,
    index: Seq<char>,
    doc_id: Seq<char>,
    dim: usize,
) -> VectorView {
    let slot = next_slot(s.buckets, index) as u32;
    VectorView {
        buckets: grown(s.buckets, index, dim),
        ids: bound(s.ids, index, doc_id, slot),
        sidecars: with_code(s.sidecars, index, slot),
    }
}

/// The state after a vector of a document takes the place of the one before:
/// the old slot is deleted once the new one is there, and its code goes.
pub open spec fn with_node_replaced(
    s: VectorView,
    index: Seq<char>,
    doc_id: Seq<char>,
    dim: usize,
) -> VectorView {
    let slot = next_slot(s.buckets, index) as u32;
    let after = with_node(s, index, doc_id, dim);
    match slot_of(s.ids, index, doc_id) {
        Some(previous) => if previous != slot {
            VectorView {
                buckets: state::without_slot(after.buckets, index, previous),
                ids: after.ids,
                sidecars: with_code(
                    state::without_code(s.sidecars, index, previous),
                    index,
                    slot,
                ),
            }
        } else {
            after
        },
        None => after,
    }
}

/// The id map without the bindings whose keys begin like those of an index.
pub open spec fn cleared(ids: Seq<IdView>, index: Seq<char>) -> Seq<IdView>
    decreases ids.len(),
{
    if ids.len() == 0 {
        Seq::empty()
    } else if text::has_prefix(ids.last().key, state::key_prefix(index)) {
        cleared(ids.drop_last(), index)
    } else {
        cleared(ids.drop_last(), index).push(ids.last())
    }
}

/// The sidecars without that of an index.
pub open spec fn without_sidecar(sidecars: Seq<SidecarView>, index: Seq<char>) -> Seq<SidecarView>
    decreases sidecars.len(),
{
    if sidecars.len() == 0 {
        Seq::empty()
    } else if sidecars.last().key == index {
        without_sidecar(sidecars.drop_last(), index)
    } else {
        without_sidecar(sidecars.drop_last(), index).push(sidecars.last())
    }
}

/// The state after an index is emptied. Its dimension stays.
pub open spec fn with_index_reset(s: VectorView, index: Seq<char>) -> VectorView {
    VectorView {
        buckets: match state::bucket_at(s.buckets, index) {
            Some(b) => s.buckets.update(
                b,
                BucketView { deleted: Seq::empty(), ..s.buckets[b] },
            ),
            None => s.buckets,
        },
        ids: cleared(s.ids, index),
        sidecars: without_sidecar(s.sidecars, index),
    }
}

/// The state after an index is dropped.
pub open spec fn without_index(s: VectorView, index: Seq<char>) -> VectorView {
    VectorView {
        buckets: match state::bucket_at(s.buckets, index) {
            Some(b) => s.buckets.remove(b),
            None => s.buckets,
        },
        ids: cleared(s.ids, index),
        sidecars: without_sidecar(s.sidecars, index),
    }
}

pub(crate) proof fn lemma_bucket_from(buckets: Seq<BucketView>, index: Seq<char>, i: int)
    requires
        0 <= i,
    ensures
        match state::bucket_from(buckets, index, i) {
            Some(b) => i <= b < buckets.len() && buckets[b].key == index,
            None => forall|j: int| i <= j < buckets.len() ==> (#[trigger] buckets[j]).key != index,
        },
    decreases buckets.len() - i,
{
    if i < buckets.len() && buckets[i].key != index {
        lemma_bucket_from(buckets, index, i + 1);
    }
}

impl VectorState {
    /// The slot bound to a document.
    pub fn slot_of(&self, index: &str, doc_id: &str) -> (r: Option<u32>)
        ensures
            r == slot_of(self@.ids, index@, doc_id@),
    {
        let mut i: usize = 0;
        while i < self.ids.len()
            invariant
                i <= self.ids@.len(),
                slot_of(self@.ids, index@, doc_id@) == slot_from(
                    self@.ids,
                    index@,
                    doc_id@,
                    i as int,
                ),
            decreases self.ids@.len() - i,
        {
            let key = state::slot_key_string(index, self.ids[i].slot);
            if text::str_eq(self.ids[i].key.as_str(), key.as_str()) && text::str_eq(
                self.ids[i].doc_id.as_str(),
                doc_id,
            ) {
                return Some(self.ids[i].slot);
            }
            i = i + 1;
        }
        None
    }

    /// Binds a slot to a document, in the place of older bindings of either.
    pub fn bind(&mut self, index: &str, doc_id: &str, slot: u32)
        ensures
            final(self)@ == (VectorView {
                ids: bound(old(self)@.ids, index@, doc_id@, slot),
                ..old(self)@
            }),
    {
        let key = state::slot_key_string(index, slot);
        let ghost before = self@.ids;
        let mut kept: Vec<IdEntry> = Vec::new();
        let mut i: usize = 0;
        proof {
            assert(state::ids_view(kept@) =~= evicted(before.take(0), index@, doc_id@, slot));
        }
        while i < self.ids.len()
            invariant
                i <= self.ids@.len(),
                key@ == state::slot_key(index@, slot),
                self@ == old(self)@,
                before == self@.ids,
                state::ids_view(kept@) == evicted(before.take(i as int), index@, doc_id@, slot),
            decreases self.ids@.len() - i,
        {
            proof {
                assert(before.take(i as int + 1).drop_last() =~= before.take(i as int));
            }
            let own = state::slot_key_string(index, self.ids[i].slot);
            let entry_key = self.ids[i].key.as_str();
            let replaced = text::str_eq(entry_key, key.as_str()) || (text::str_eq(
                entry_key,
                own.as_str(),
            ) && text::str_eq(self.ids[i].doc_id.as_str(), doc_id));
            if !replaced {
                let ghost sofar = state::ids_view(kept@);
                let entry = IdEntry {
                    key: entry_key.to_owned(),
                    doc_id: self.ids[i].doc_id.as_str().to_owned(),
                    slot: self.ids[i].slot,
                };
                kept.push(entry);
                proof {
                    assert(state::ids_view(kept@) =~= sofar.push(entry@));
                }
            }
            i = i + 1;
        }
        proof {
            assert(before.take(i as int) =~= before);
        }
        let ghost sofar = state::ids_view(kept@);
        let entry = IdEntry { key, doc_id: doc_id.to_owned(), slot };
        kept.push(entry);
        proof {
            assert(state::ids_view(kept@) =~= sofar.push(entry@));
        }
        self.ids = kept;
    }

    /// Encodes a slot where the index has a sidecar.
    pub fn encode_slot(&mut self, index: &str, slot: u32)
        ensures
            final(self)@ == (VectorView {
                sidecars: with_code(old(self)@.sidecars, index@, slot),
                ..old(self)@
            }),
    {
        let ghost before = self@.sidecars;
        let mut i: usize = 0;
        while i < self.sidecars.len()
            invariant
                i <= self.sidecars@.len(),
                before == old(self)@.sidecars,
                self@.buckets == old(self)@.buckets,
                self@.ids == old(self)@.ids,
                self.sidecars@.len() == before.len(),
                forall|j: int|
                    0 <= j < i ==> (#[trigger] self.sidecars@[j])@ == with_code(
                        before,
                        index@,
                        slot,
                    )[j],
                forall|j: int|
                    i <= j < self.sidecars@.len() ==> (#[trigger] self.sidecars@[j])@
                        == before[j],
            decreases self.sidecars@.len() - i,
        {
            if text::str_eq(self.sidecars[i].key.as_str(), index) {
                let key = self.sidecars[i].key.as_str().to_owned();
                let mut slots = copy_slots(&self.sidecars[i].slots);
                slots.push(slot);
                self.sidecars.set(i, Sidecar { key, slots });
            }
            i = i + 1;
        }
        proof {
            assert(self@.sidecars =~= with_code(before, index@, slot));
        }
    }

    /// Makes room for one more vector in an index and returns its slot.
    fn grow(&mut self, index: &str, dim: usize) -> (r: u32)
        requires
            next_slot(old(self)@.buckets, index@) <= u32::MAX,
        ensures
            r == next_slot(old(self)@.buckets, index@),
            final(self)@ == (VectorView {
                buckets: grown(old(self)@.buckets, index@, dim),
                ..old(self)@
            }),
    {
        let ghost before = self@.buckets;
        match self.bucket_position(index) {
            Some(b) => {
                let slot: u32 = self.buckets[b].deleted.len() as u32;
                let key = self.buckets[b].key.as_str().to_owned();
                let old_dim = self.buckets[b].dim;
                let mut deleted = state::copy_flags(&self.buckets[b].deleted);
                deleted.push(false);
                self.buckets.set(b, Bucket { key, dim: old_dim, deleted });
                proof {
                    assert(self@.buckets =~= grown(before, index@, dim));
                }
                slot
            },
            None => {
                let mut deleted: Vec<bool> = Vec::new();
                deleted.push(false);
                let bucket = Bucket { key: index.to_owned(), dim, deleted };
                proof {
                    assert(bucket@.deleted =~= seq![false]);
                }
                self.buckets.push(bucket);
                proof {
                    assert(self@.buckets =~= grown(before, index@, dim));
                }
                0
            },
        }
    }

    /// Puts a vector of a document into an index and returns its slot.
    pub fn insert_node(&mut self, index: &str, doc_id: &str, dim: usize) -> (r: u32)
        requires
            next_slot(old(self)@.buckets, index@) <= u32::MAX,
        ensures
            r == next_slot(old(self)@.buckets, index@),
            final(self)@ == with_node(old(self)@, index@, doc_id@, dim),
    {
        let slot = self.grow(index, dim);
        self.bind(index, doc_id, slot);
        self.encode_slot(index, slot);
        slot
    }

    /// Puts a vector of a document into an index in the place of the one
    /// before, and returns its slot.
    pub fn replace_node(&mut self, index: &str, doc_id: &str, dim: usize) -> (r: u32)
        requires
            next_slot(old(self)@.buckets, index@) <= u32::MAX,
        ensures
            r == next_slot(old(self)@.buckets, index@),
            final(self)@ == with_node_replaced(old(self)@, index@, doc_id@, dim),
    {
        let superseded = self.slot_of(index, doc_id);
        let slot = self.grow(index, dim);
        match superseded {
            Some(previous) => {
                if previous != slot {
                    self.mark_deleted(index, previous);
                    self.drop_code(index, previous);
                }
            },
            None => {},
        }
        self.bind(index, doc_id, slot);
        self.encode_slot(index, slot);
        slot
    }

    /// Drops the bindings whose keys begin like those of an index.
    pub fn clear_ids(&mut self, index: &str)
        ensures
            final(self)@ == (VectorView { ids: cleared(old(self)@.ids, index@), ..old(self)@ }),
    {
        let prefix = text::concat2(index, ":");
        let ghost before = self@.ids;
        let mut kept: Vec<IdEntry> = Vec::new();
        let mut i: usize = 0;
        proof {
            assert(state::ids_view(kept@) =~= cleared(before.take(0), index@));
        }
        while i < self.ids.len()
            invariant
                i <= self.ids@.len(),
                prefix@ == state::key_prefix(index@),
                self@ == old(self)@,
                before == self@.ids,
                state::ids_view(kept@) == cleared(before.take(i as int), index@),
            decreases self.ids@.len() - i,
        {
            proof {
                assert(before.take(i as int + 1).drop_last() =~= before.take(i as int));
            }
            if !text::starts_with(self.ids[i].key.as_str(), prefix.as_str()) {
                let ghost sofar = state::ids_view(kept@);
                let entry = IdEntry {
                    key: self.ids[i].key.as_str().to_owned(),
                    doc_id: self.ids[i].doc_id.as_str().to_owned(),
                    slot: self.ids[i].slot,
                };
                kept.push(entry);
                proof {
                    assert(state::ids_view(kept@) =~= sofar.push(entry@));
                }
            }
            i = i + 1;
        }
        proof {
            assert(before.take(i as int) =~= before);
        }
        self.ids = kept;
    }

    /// Drops the sidecar of an index.
    pub fn drop_sidecar(&mut self, index: &str)
        ensures
            final(self)@ == (VectorView {
                sidecars: without_sidecar(old(self)@.sidecars, index@),
                ..old(self)@
            }),
    {
        let ghost before = self@.sidecars;
        let mut kept: Vec<Sidecar> = Vec::new();
        let mut i: usize = 0;
        proof {
            assert(state::sidecars_view(kept@) =~= without_sidecar(before.take(0), index@));
        }
        while i < self.sidecars.len()
            invariant
                i <= self.sidecars@.len(),
                self@ == old(self)@,
                before == self@.sidecars,
                state::sidecars_view(kept@) == without_sidecar(before.take(i as int), index@),
            decreases self.sidecars@.len() - i,
        {
            proof {
                assert(before.take(i as int + 1).drop_last() =~= before.take(i as int));
            }
            if !text::str_eq(self.sidecars[i].key.as_str(), index) {
                let ghost sofar = state::sidecars_view(kept@);
                let sidecar = Sidecar {
                    key: self.sidecars[i].key.as_str().to_owned(),
                    slots: copy_slots(&self.sidecars[i].slots),
                };
                kept.push(sidecar);
                proof {
                    assert(state::sidecars_view(kept@) =~= sofar.push(sidecar@));
                }
            }
            i = i + 1;
        }
        proof {
            assert(before.take(i as int) =~= before);
        }
        self.sidecars = kept;
    }

    /// Empties an index. Its dimension stays.
    pub fn reset_index(&mut self, index: &str)
        ensures
            final(self)@ == with_index_reset(old(self)@, index@),
    {
        let ghost before = self@.buckets;
        match self.bucket_position(index) {
            Some(b) => {
                let key = self.buckets[b].key.as_str().to_owned();
                let dim = self.buckets[b].dim;
                let fresh = Bucket { key, dim, deleted: Vec::new() };
                proof {
                    assert(fresh@.deleted =~= Seq::<bool>::empty());
                }
                self.buckets.set(b, fresh);
                proof {
                    assert(self@.buckets =~= before.update(b as int, fresh@));
                }
            },
            None => {},
        }
        self.clear_ids(index);
        self.drop_sidecar(index);
    }

    /// Drops an index and reports whether it was there.
    pub fn drop_index(&mut self, index: &str) -> (r: bool)
        ensures
            r == (state::bucket_at(old(self)@.buckets, index@) is Some),
            final(self)@ == without_index(old(self)@, index@),
    {
        let ghost before = self@.buckets;
        let existed = match self.bucket_position(index) {
            Some(b) => {
                self.buckets.remove(b);
                proof {
                    assert(self@.buckets =~= before.remove(b as int));
                }
                true
            },
            None => false,
        };
        self.clear_ids(index);
        self.drop_sidecar(index);
        existed
    }
}

/// Copies a list of slots.
fn copy_slots(slots: &Vec<u32>) -> (r: Vec<u32>)
    ensures
        r@ == slots@,
{
    let mut out: Vec<u32> = Vec::new();
    let mut i: usize = 0;
    while i < slots.len()
        invariant
            i <= slots@.len(),
            out@ == slots@.take(i as int),
        decreases slots@.len() - i,
    {
        out.push(slots[i]);
        proof {
            assert(slots@.take(i as int + 1) =~= slots@.take(i as int).push(slots@[i as int]));
        }
        i = i + 1;
    }
    proof {
        assert(slots@.take(i as int) =~= slots@);
    }
    out
}

pub(crate) proof fn lemma_evicted(ids: Seq<IdView>, index: Seq<char>, doc_id: Seq<char>, slot: u32)
    ensures
        forall|i: int|
            0 <= i < evicted(ids, index, doc_id, slot).len() ==> ids.contains(
                #[trigger] evicted(ids, index, doc_id, slot)[i],
            ) && !superseded_by(evicted(ids, index, doc_id, slot)[i], index, doc_id, slot),
    decreases ids.len(),
{
    if ids.len() > 0 {
        lemma_evicted(ids.drop_last(), index, doc_id, slot);
        let rest = evicted(ids.drop_last(), index, doc_id, slot);
        let all = evicted(ids, index, doc_id, slot);
        assert forall|i: int| 0 <= i < all.len() implies ids.contains(#[trigger] all[i])
            && !superseded_by(all[i], index, doc_id, slot) by {
            if i < rest.len() {
                assert(all[i] == rest[i]);
                assert(ids.drop_last().contains(rest[i]));
                let k = choose|k: int|
                    0 <= k < ids.drop_last().len() && ids.drop_last()[k] == rest[i];
                assert(ids[k] == rest[i]);
            } else {
                assert(ids[ids.len() - 1] == all[i]);
            }
        }
    }
}

/// Whether the id map has no binding of a document in another index whose key
/// extends this one's.
pub open spec fn unambiguous(ids: Seq<IdView>, index: Seq<char>, doc_id: Seq<char>) -> bool {
    forall|i: int|
        0 <= i < ids.len() && text::has_prefix((#[trigger] ids[i]).key, state::key_prefix(index))
            && ids[i].doc_id == doc_id ==> belongs(ids[i], index)
}

proof fn lemma_node_last(
    ids: Seq<IdView>,
    index: Seq<char>,
    doc_id: Seq<char>,
    deleted: Seq<bool>,
    i: int,
)
    requires
        0 <= i < ids.len(),
        text::has_prefix(ids.last().key, state::key_prefix(index)),
        ids.last().doc_id == doc_id,
        !state::gone(deleted, ids.last().slot),
        forall|j: int|
            i <= j < ids.len() - 1 ==> !(text::has_prefix(
                (#[trigger] ids[j]).key,
                state::key_prefix(index),
            ) && ids[j].doc_id == doc_id),
    ensures
        state::node_from(ids, index, doc_id, deleted, i) == Some(ids.last().slot),
    decreases ids.len() - i,
{
    if i < ids.len() - 1 {
        assert(!(text::has_prefix(ids[i].key, state::key_prefix(index)) && ids[i].doc_id
            == doc_id));
        lemma_node_last(ids, index, doc_id, deleted, i + 1);
    }
}

/// A vector that replaced another is the one that is live: a document that is
/// embedded again answers with its new slot, and the old slot is deleted.
pub proof fn replaced_node_is_live(
    s: VectorView,
    index: Seq<char>,
    doc_id: Seq<char>,
    dim: usize,
)
    requires
        next_slot(s.buckets, index) <= u32::MAX,
        unambiguous(s.ids, index, doc_id),
    ensures
        state::live_slot(with_node_replaced(s, index, doc_id, dim), index, doc_id) == Some(
            next_slot(s.buckets, index) as u32,
        ),
        match slot_of(s.ids, index, doc_id) {
            Some(old) => old < next_slot(s.buckets, index) ==> {
                let after = with_node_replaced(s, index, doc_id, dim).buckets;
                state::bucket_at(after, index) matches Some(b) && state::gone(
                    after[b].deleted,
                    old,
                )
            },
            None => true,
        },
{
    let slot = next_slot(s.buckets, index) as u32;
    let mid = grown(s.buckets, index, dim);
    let after = with_node_replaced(s, index, doc_id, dim);
    lemma_bucket_from(s.buckets, index, 0);
    lemma_bucket_from(mid, index, 0);
    lemma_bucket_from(after.buckets, index, 0);
    let b = match state::bucket_at(s.buckets, index) {
        Some(b) => b,
        None => s.buckets.len() as int,
    };
    assert(mid[b].key == index);
    lemma_same_position(s.buckets, mid, index, b);
    assert(after.buckets[b].key == index);
    lemma_same_position(mid, after.buckets, index, b);
    assert(!after.buckets[b].deleted[slot as int]);
    lemma_evicted(s.ids, index, doc_id, slot);
    let kept = evicted(s.ids, index, doc_id, slot);
    let key = state::slot_key(index, slot);
    assert(key.take(state::key_prefix(index).len() as int) =~= state::key_prefix(index));
    assert forall|j: int| 0 <= j < after.ids.len() - 1 implies !(text::has_prefix(
        (#[trigger] after.ids[j]).key,
        state::key_prefix(index),
    ) && after.ids[j].doc_id == doc_id) by {
        assert(after.ids[j] == kept[j]);
        assert(s.ids.contains(kept[j]));
        let k = choose|k: int| 0 <= k < s.ids.len() && s.ids[k] == kept[j];
        assert(s.ids[k] == kept[j]);
    }
    lemma_node_last(after.ids, index, doc_id, after.buckets[b].deleted, 0);
}

pub(crate) proof fn lemma_same_position(
    before: Seq<BucketView>,
    after: Seq<BucketView>,
    index: Seq<char>,
    b: int,
)
    requires
        0 <= b < after.len(),
        after[b].key == index,
        forall|j: int| 0 <= j < b ==> j < before.len() && (#[trigger] after[j]).key == before[j].key,
        state::bucket_at(before, index) == Some(b) || (state::bucket_at(before, index) is None && b
            == before.len()),
    ensures
        state::bucket_at(after, index) == Some(b),
{
    lemma_bucket_from(before, index, 0);
    lemma_bucket_from(after, index, 0);
    lemma_first_before(before, index, 0, b);
    lemma_first_is(after, index, 0, b);
}

proof fn lemma_first_before(buckets: Seq<BucketView>, index: Seq<char>, i: int, b: int)
    requires
        0 <= i <= b <= buckets.len(),
        state::bucket_from(buckets, index, i) == Some(b) || (state::bucket_from(buckets, index, i)
            is None),
    ensures
        forall|j: int| i <= j < b ==> (#[trigger] buckets[j]).key != index,
    decreases b - i,
{
    if i < b {
        lemma_first_before(buckets, index, i + 1, b);
    }
}

proof fn lemma_first_is(buckets: Seq<BucketView>, index: Seq<char>, i: int, b: int)
    requires
        0 <= i <= b < buckets.len(),
        buckets[b].key == index,
        forall|j: int| i <= j < b ==> (#[trigger] buckets[j]).key != index,
    ensures
        state::bucket_from(buckets, index, i) == Some(b),
    decreases b - i,
{
    if i < b {
        assert(buckets[i].key != index);
        lemma_first_is(buckets, index, i + 1, b);
    }
}

proof fn lemma_unbound(ids: Seq<IdView>, index: Seq<char>, slot: u32)
    ensures
        forall|i: int|
            0 <= i < state::unbound(ids, index, slot).len() ==> ids.contains(
                #[trigger] state::unbound(ids, index, slot)[i],
            ) && state::unbound(ids, index, slot)[i].key != state::slot_key(index, slot),
    decreases ids.len(),
{
    if ids.len() > 0 {
        lemma_unbound(ids.drop_last(), index, slot);
        let rest = state::unbound(ids.drop_last(), index, slot);
        let all = state::unbound(ids, index, slot);
        assert forall|i: int| 0 <= i < all.len() implies ids.contains(#[trigger] all[i])
            && all[i].key != state::slot_key(index, slot) by {
            if i < rest.len() {
                assert(all[i] == rest[i]);
                assert(ids.drop_last().contains(rest[i]));
                let k = choose|k: int|
                    0 <= k < ids.drop_last().len() && ids.drop_last()[k] == rest[i];
                assert(ids[k] == rest[i]);
            } else {
                assert(ids[ids.len() - 1] == all[i]);
            }
        }
    }
}

proof fn lemma_node_none(
    ids: Seq<IdView>,
    index: Seq<char>,
    doc_id: Seq<char>,
    deleted: Seq<bool>,
    i: int,
)
    requires
        0 <= i,
        forall|j: int|
            i <= j < ids.len() ==> !(text::has_prefix(
                (#[trigger] ids[j]).key,
                state::key_prefix(index),
            ) && ids[j].doc_id == doc_id),
    ensures
        state::node_from(ids, index, doc_id, deleted, i) is None,
    decreases ids.len() - i,
{
    if i < ids.len() {
        assert(!(text::has_prefix(ids[i].key, state::key_prefix(index)) && ids[i].doc_id
            == doc_id));
        lemma_node_none(ids, index, doc_id, deleted, i + 1);
    }
}

/// A delete undoes an insert: after both, the document has no live slot.
pub proof fn removed_node_is_gone(s: VectorView, index: Seq<char>, doc_id: Seq<char>, dim: usize)
    requires
        next_slot(s.buckets, index) <= u32::MAX,
        unambiguous(s.ids, index, doc_id),
    ensures
        state::live_slot(
            state::without_node(with_node_replaced(s, index, doc_id, dim), index, doc_id),
            index,
            doc_id,
        ) is None,
{
    let slot = next_slot(s.buckets, index) as u32;
    let mid = with_node_replaced(s, index, doc_id, dim);
    let after = state::without_node(mid, index, doc_id);
    replaced_node_is_live(s, index, doc_id, dim);
    lemma_evicted(s.ids, index, doc_id, slot);
    lemma_unbound(mid.ids, index, slot);
    let kept = evicted(s.ids, index, doc_id, slot);
    assert forall|j: int| 0 <= j < after.ids.len() implies !(text::has_prefix(
        (#[trigger] after.ids[j]).key,
        state::key_prefix(index),
    ) && after.ids[j].doc_id == doc_id) by {
        assert(mid.ids.contains(after.ids[j]));
        let m = choose|m: int| 0 <= m < mid.ids.len() && mid.ids[m] == after.ids[j];
        assert(mid.ids[m] == after.ids[j]);
        if m < kept.len() {
            assert(mid.ids[m] == kept[m]);
            assert(s.ids.contains(kept[m]));
            let k = choose|k: int| 0 <= k < s.ids.len() && s.ids[k] == kept[m];
            assert(s.ids[k] == kept[m]);
        }
    }
    match state::bucket_at(after.buckets, index) {
        Some(b) => {
            lemma_node_none(after.ids, index, doc_id, after.buckets[b].deleted, 0);
        },
        None => {},
    }
}

proof fn lemma_cleared_unbound(ids: Seq<IdView>, index: Seq<char>, slot: u32)
    ensures
        cleared(state::unbound(ids, index, slot), index) == cleared(ids, index),
    decreases ids.len(),
{
    if ids.len() > 0 {
        lemma_cleared_unbound(ids.drop_last(), index, slot);
        let rest = state::unbound(ids.drop_last(), index, slot);
        if ids.last().key == state::slot_key(index, slot) {
            let key = state::slot_key(index, slot);
            assert(key.take(state::key_prefix(index).len() as int) =~= state::key_prefix(index));
        } else {
            assert(rest.push(ids.last()).drop_last() =~= rest);
        }
    }
}

proof fn lemma_sidecar_code(sidecars: Seq<SidecarView>, index: Seq<char>, slot: u32)
    ensures
        without_sidecar(state::without_code(sidecars, index, slot), index) == without_sidecar(
            sidecars,
            index,
        ),
    decreases sidecars.len(),
{
    if sidecars.len() > 0 {
        lemma_sidecar_code(sidecars.drop_last(), index, slot);
        assert(state::without_code(sidecars, index, slot).drop_last() =~= state::without_code(
            sidecars.drop_last(),
            index,
            slot,
        ));
    }
}

/// Emptying an index has one outcome, whether its documents were removed one by
/// one before or not.
pub proof fn reset_forgets_removals(s: VectorView, index: Seq<char>, doc_id: Seq<char>)
    ensures
        with_index_reset(state::without_node(s, index, doc_id), index) == with_index_reset(s, index),
{
    match state::live_slot(s, index, doc_id) {
        None => {},
        Some(slot) => {
            let mid = state::without_node(s, index, doc_id);
            lemma_bucket_from(s.buckets, index, 0);
            let b = state::bucket_at(s.buckets, index)->0;
            lemma_same_position(s.buckets, mid.buckets, index, b);
            assert(with_index_reset(mid, index).buckets =~= with_index_reset(s, index).buckets);
            lemma_cleared_unbound(s.ids, index, slot);
            lemma_sidecar_code(s.sidecars, index, slot);
        },
    }
}

proof fn lemma_node_push(
    ids: Seq<IdView>,
    e: IdView,
    index: Seq<char>,
    doc_id: Seq<char>,
    deleted: Seq<bool>,
    i: int,
)
    requires
        0 <= i <= ids.len(),
    ensures
        state::node_from(ids.push(e), index, doc_id, deleted, i) == match state::node_from(
            ids,
            index,
            doc_id,
            deleted,
            i,
        ) {
            Some(slot) => Some(slot),
            None => if text::has_prefix(e.key, state::key_prefix(index)) && e.doc_id == doc_id
                && !state::gone(deleted, e.slot) {
                Some(e.slot)
            } else {
                None
            },
        },
    decreases ids.len() - i,
{
    if i < ids.len() {
        assert(ids.push(e)[i] == ids[i]);
        lemma_node_push(ids, e, index, doc_id, deleted, i + 1);
    } else {
        reveal_with_fuel(state::node_from, 2);
    }
}

proof fn lemma_cleared_own(
    ids: Seq<IdView>,
    index: Seq<char>,
    doc_id: Seq<char>,
    deleted: Seq<bool>,
)
    ensures
        state::node_from(cleared(ids, index), index, doc_id, deleted, 0) is None,
    decreases ids.len(),
{
    if ids.len() > 0 {
        let rest = cleared(ids.drop_last(), index);
        lemma_cleared_own(ids.drop_last(), index, doc_id, deleted);
        if !text::has_prefix(ids.last().key, state::key_prefix(index)) {
            lemma_node_push(rest, ids.last(), index, doc_id, deleted, 0);
        }
    }
}

proof fn lemma_cleared_other(
    ids: Seq<IdView>,
    index: Seq<char>,
    other: Seq<char>,
    doc_id: Seq<char>,
    deleted: Seq<bool>,
)
    requires
        apart(index, other),
    ensures
        state::node_from(cleared(ids, index), other, doc_id, deleted, 0) == state::node_from(
            ids,
            other,
            doc_id,
            deleted,
            0,
        ),
    decreases ids.len(),
{
    if ids.len() > 0 {
        let rest = ids.drop_last();
        let e = ids.last();
        lemma_cleared_other(rest, index, other, doc_id, deleted);
        lemma_node_push(rest, e, other, doc_id, deleted, 0);
        assert(rest.push(e) =~= ids);
        if text::has_prefix(e.key, state::key_prefix(index)) {
            let p = state::key_prefix(index);
            let q = state::key_prefix(other);
            if text::has_prefix(e.key, q) {
                if p.len() <= q.len() {
                    assert(q.take(p.len() as int) =~= p);
                } else {
                    assert(p.take(q.len() as int) =~= q);
                }
            }
        } else {
            let kept = cleared(rest, index);
            lemma_node_push(kept, e, other, doc_id, deleted, 0);
        }
    }
}

proof fn lemma_same_keys(a: Seq<BucketView>, b: Seq<BucketView>, index: Seq<char>, i: int)
    requires
        0 <= i,
        a.len() == b.len(),
        forall|j: int| 0 <= j < a.len() ==> (#[trigger] a[j]).key == b[j].key,
    ensures
        state::bucket_from(a, index, i) == state::bucket_from(b, index, i),
    decreases a.len() - i,
{
    if i < a.len() {
        assert(a[i].key == b[i].key);
        lemma_same_keys(a, b, index, i + 1);
    }
}

/// Whether no key of a slot can be read as one of either index.
pub open spec fn apart(a: Seq<char>, b: Seq<char>) -> bool {
    !text::has_prefix(state::key_prefix(a), state::key_prefix(b)) && !text::has_prefix(
        state::key_prefix(b),
        state::key_prefix(a),
    )
}

/// An index that was emptied answers for no document, and an index whose key
/// has nothing to do with it answers as before.
pub proof fn emptied_index_answers_nothing(
    s: VectorView,
    index: Seq<char>,
    other: Seq<char>,
    doc_id: Seq<char>,
)
    ensures
        state::live_slot(with_index_reset(s, index), index, doc_id) is None,
        apart(index, other) ==> state::live_slot(with_index_reset(s, index), other, doc_id)
            == state::live_slot(s, other, doc_id),
{
    let after = with_index_reset(s, index);
    lemma_bucket_from(s.buckets, index, 0);
    match state::bucket_at(after.buckets, index) {
        Some(b) => lemma_cleared_own(s.ids, index, doc_id, after.buckets[b].deleted),
        None => {},
    }
    if apart(index, other) {
        lemma_same_keys(s.buckets, after.buckets, other, 0);
        lemma_bucket_from(s.buckets, other, 0);
        match state::bucket_at(s.buckets, other) {
            Some(b) => {
                if index == other {
                    assert(state::key_prefix(index).take(state::key_prefix(index).len() as int)
                        =~= state::key_prefix(index));
                }
                assert(after.buckets[b] == s.buckets[b]);
                lemma_cleared_other(s.ids, index, other, doc_id, s.buckets[b].deleted);
            },
            None => {},
        }
    }
}

proof fn lemma_cleared_none(
    ids: Seq<IdView>,
    index: Seq<char>,
    other: Seq<char>,
    doc_id: Seq<char>,
    deleted: Seq<bool>,
)
    requires
        state::node_from(ids, other, doc_id, deleted, 0) is None,
    ensures
        state::node_from(cleared(ids, index), other, doc_id, deleted, 0) is None,
    decreases ids.len(),
{
    if ids.len() > 0 {
        let rest = ids.drop_last();
        let e = ids.last();
        assert(rest.push(e) =~= ids);
        lemma_node_push(rest, e, other, doc_id, deleted, 0);
        lemma_cleared_none(rest, index, other, doc_id, deleted);
        lemma_node_push(cleared(rest, index), e, other, doc_id, deleted, 0);
    }
}

/// An index that answers for no document still does so after another index is
/// emptied.
pub proof fn lemma_reset_keeps_none(
    s: VectorView,
    index: Seq<char>,
    other: Seq<char>,
    doc_id: Seq<char>,
)
    requires
        state::live_slot(s, other, doc_id) is None,
    ensures
        state::live_slot(with_index_reset(s, index), other, doc_id) is None,
{
    if index == other {
        emptied_index_answers_nothing(s, index, other, doc_id);
    } else {
        let after = with_index_reset(s, index);
        lemma_bucket_from(s.buckets, index, 0);
        lemma_bucket_from(s.buckets, other, 0);
        lemma_same_keys(s.buckets, after.buckets, other, 0);
        match state::bucket_at(s.buckets, other) {
            Some(b) => {
                assert(after.buckets[b] == s.buckets[b]);
                lemma_cleared_none(s.ids, index, other, doc_id, s.buckets[b].deleted);
            },
            None => {},
        }
    }
}

} // verus!
