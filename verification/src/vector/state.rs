//! The indexes in memory, without the vectors themselves.
//!
//! Every vector that goes into an index takes the next slot. A slot is never
//! used again: a vector that leaves has its slot marked deleted. The id map
//! binds the slots to documents under keys of the form `index:slot`.
use crate::text;
use vstd::prelude::*;

verus! {

/// One index.
#[derive(Debug)]
pub struct Bucket {
    /// The key of the index.
    pub key: String,
    /// The dimension of its vectors.
    pub dim: usize,
    /// Which slots are deleted.
    pub deleted: Vec<bool>,
}

/// What a [`Bucket`] is.
pub struct BucketView {
    pub key: Seq<char>,
    pub dim: usize,
    pub deleted: Seq<bool>,
}

impl View for Bucket {
    type V = BucketView;

    open spec fn view(&self) -> BucketView {
        BucketView { key: self.key@, dim: self.dim, deleted: self.deleted@ }
    }
}

/// A binding of the id map.
#[derive(Debug)]
pub struct IdEntry {
    /// The key of the index and the slot, joined by a colon.
    pub key: String,
    /// The document.
    pub doc_id: String,
    /// The slot.
    pub slot: u32,
}

/// What an [`IdEntry`] is.
pub struct IdView {
    pub key: Seq<char>,
    pub doc_id: Seq<char>,
    pub slot: u32,
}

impl View for IdEntry {
    type V = IdView;

    open spec fn view(&self) -> IdView {
        IdView { key: self.key@, doc_id: self.doc_id@, slot: self.slot }
    }
}

/// The compressed codes of an index.
#[derive(Debug)]
pub struct Sidecar {
    /// The key of the index.
    pub key: String,
    /// The slots that have a code.
    pub slots: Vec<u32>,
}

/// What a [`Sidecar`] is.
pub struct SidecarView {
    pub key: Seq<char>,
    pub slots: Seq<u32>,
}

impl View for Sidecar {
    type V = SidecarView;

    open spec fn view(&self) -> SidecarView {
        SidecarView { key: self.key@, slots: self.slots@ }
    }
}

/// The vector engine in memory. The indexes, the bindings and the sidecars each
/// have a key of their own, see [`distinct_keys`].
#[derive(Debug)]
pub struct VectorState {
    /// The indexes.
    pub buckets: Vec<Bucket>,
    /// The id map.
    pub ids: Vec<IdEntry>,
    /// The installed sidecars.
    pub sidecars: Vec<Sidecar>,
}

/// What a [`VectorState`] holds.
#[verifier::ext_equal]
pub struct VectorView {
    pub buckets: Seq<BucketView>,
    pub ids: Seq<IdView>,
    pub sidecars: Seq<SidecarView>,
}

/// What the indexes are.
pub open spec fn buckets_view(buckets: Seq<Bucket>) -> Seq<BucketView> {
    buckets.map_values(|b: Bucket| b@)
}

/// What the bindings are.
pub open spec fn ids_view(ids: Seq<IdEntry>) -> Seq<IdView> {
    ids.map_values(|e: IdEntry| e@)
}

/// What the sidecars are.
pub open spec fn sidecars_view(sidecars: Seq<Sidecar>) -> Seq<SidecarView> {
    sidecars.map_values(|s: Sidecar| s@)
}

impl View for VectorState {
    type V = VectorView;

    open spec fn view(&self) -> VectorView {
        VectorView {
            buckets: buckets_view(self.buckets@),
            ids: ids_view(self.ids@),
            sidecars: sidecars_view(self.sidecars@),
        }
    }
}

/// Whether no two indexes have the same key.
pub open spec fn distinct_buckets(buckets: Seq<BucketView>) -> bool {
    forall|i: int, j: int|
        0 <= i < j < buckets.len() ==> (#[trigger] buckets[i]).key != (#[trigger] buckets[j]).key
}

/// Whether no two bindings have the same key.
pub open spec fn distinct_ids(ids: Seq<IdView>) -> bool {
    forall|i: int, j: int|
        0 <= i < j < ids.len() ==> (#[trigger] ids[i]).key != (#[trigger] ids[j]).key
}

/// Whether no two sidecars have the same key.
pub open spec fn distinct_sidecars(sidecars: Seq<SidecarView>) -> bool {
    forall|i: int, j: int|
        0 <= i < j < sidecars.len() ==> (#[trigger] sidecars[i]).key != (
        #[trigger] sidecars[j]).key
}

/// Whether the indexes, the bindings and the sidecars each have a key of their
/// own.
pub open spec fn distinct_keys(s: VectorView) -> bool {
    distinct_buckets(s.buckets) && distinct_ids(s.ids) && distinct_sidecars(s.sidecars)
}

/// The key of the index that a field of a collection goes to.
pub open spec fn index_key_of(collection: Seq<char>, field: Seq<char>) -> Seq<char> {
    if field.len() == 0 {
        collection
    } else {
        collection + ":"@ + field
    }
}

/// The beginning of the id-map keys of an index.
pub open spec fn key_prefix(index: Seq<char>) -> Seq<char> {
    index + ":"@
}

/// The id-map key of a slot.
pub open spec fn slot_key(index: Seq<char>, slot: u32) -> Seq<char> {
    key_prefix(index) + text::decimal(slot as nat)
}

/// The position of an index at or after `i`.
pub open spec fn bucket_from(buckets: Seq<BucketView>, index: Seq<char>, i: int) -> Option<int>
    decreases buckets.len() - i,
{
    if i < 0 || i >= buckets.len() {
        None
    } else if buckets[i].key == index {
        Some(i)
    } else {
        bucket_from(buckets, index, i + 1)
    }
}

/// The position of an index.
pub open spec fn bucket_at(buckets: Seq<BucketView>, index: Seq<char>) -> Option<int> {
    bucket_from(buckets, index, 0)
}

/// Whether a slot is deleted or was never used.
pub open spec fn gone(deleted: Seq<bool>, slot: u32) -> bool {
    slot >= deleted.len() || deleted[slot as int]
}

/// The first live slot bound to a document at or after the binding `i`.
pub open spec fn node_from(
    ids: Seq<IdView>,
    index: Seq<char>,
    doc_id: Seq<char>,
    deleted: Seq<bool>,
    i: int,
) -> Option<u32>
    decreases ids.len() - i,
{
    if i < 0 || i >= ids.len() {
        None
    } else if text::has_prefix(ids[i].key, key_prefix(index)) && ids[i].doc_id == doc_id && !gone(
        deleted,
        ids[i].slot,
    ) {
        Some(ids[i].slot)
    } else {
        node_from(ids, index, doc_id, deleted, i + 1)
    }
}

/// The live slot of a document in an index.
pub open spec fn live_slot(
    state: VectorView,
    index: Seq<char>,
    doc_id: Seq<char>,
) -> Option<u32> {
    match bucket_at(state.buckets, index) {
        None => None,
        Some(b) => node_from(state.ids, index, doc_id, state.buckets[b].deleted, 0),
    }
}

/// The indexes after a slot is marked deleted.
pub open spec fn without_slot(buckets: Seq<BucketView>, index: Seq<char>, slot: u32) -> Seq<
    BucketView,
> {
    match bucket_at(buckets, index) {
        Some(b) => if slot < buckets[b].deleted.len() {
            buckets.update(
                b,
                BucketView {
                    deleted: buckets[b].deleted.update(slot as int, true),
                    ..buckets[b]
                },
            )
        } else {
            buckets
        },
        None => buckets,
    }
}

/// The id map without the binding of a slot.
pub open spec fn unbound(ids: Seq<IdView>, index: Seq<char>, slot: u32) -> Seq<IdView>
    decreases ids.len(),
{
    if ids.len() == 0 {
        Seq::empty()
    } else if ids.last().key == slot_key(index, slot) {
        unbound(ids.drop_last(), index, slot)
    } else {
        unbound(ids.drop_last(), index, slot).push(ids.last())
    }
}

/// The codes without that of a slot.
pub open spec fn without_code_in(slots: Seq<u32>, slot: u32) -> Seq<u32>
    decreases slots.len(),
{
    if slots.len() == 0 {
        Seq::empty()
    } else if slots.last() == slot {
        without_code_in(slots.drop_last(), slot)
    } else {
        without_code_in(slots.drop_last(), slot).push(slots.last())
    }
}

/// The sidecars without the code of a slot.
pub open spec fn without_code(sidecars: Seq<SidecarView>, index: Seq<char>, slot: u32) -> Seq<
    SidecarView,
> {
    Seq::new(
        sidecars.len(),
        |i: int|
            if sidecars[i].key == index {
                SidecarView { slots: without_code_in(sidecars[i].slots, slot), ..sidecars[i] }
            } else {
                sidecars[i]
            },
    )
}

/// The key of the index that a field of a collection goes to.
pub fn index_key(collection: &str, field: &str) -> (r: String)
    ensures
        r@ == index_key_of(collection@, field@),
{
    if field.unicode_len() == 0 {
        collection.to_owned()
    } else {
        text::concat3(collection, ":", field)
    }
}

/// The id-map key of a slot.
pub(crate) fn slot_key_string(index: &str, slot: u32) -> (r: String)
    ensures
        r@ == slot_key(index@, slot),
{
    let digits = text::decimal_string(slot as u64);
    text::concat3(index, ":", digits.as_str())
}

impl VectorState {
    /// The position of an index.
    pub fn bucket_position(&self, index: &str) -> (r: Option<usize>)
        ensures
            match r {
                Some(b) => b < self.buckets@.len() && bucket_at(self@.buckets, index@) == Some(
                    b as int,
                ),
                None => bucket_at(self@.buckets, index@) is None,
            },
    {
        let mut i: usize = 0;
        while i < self.buckets.len()
            invariant
                i <= self.buckets@.len(),
                bucket_at(self@.buckets, index@) == bucket_from(
                    self@.buckets,
                    index@,
                    i as int,
                ),
            decreases self.buckets@.len() - i,
        {
            if text::str_eq(self.buckets[i].key.as_str(), index) {
                return Some(i);
            }
            i = i + 1;
        }
        None
    }

    /// Marks a slot of an index deleted.
    pub fn mark_deleted(&mut self, index: &str, slot: u32)
        ensures
            final(self)@ == (VectorView {
                buckets: without_slot(old(self)@.buckets, index@, slot),
                ..old(self)@
            }),
    {
        let ghost before = self@;
        match self.bucket_position(index) {
            Some(b) => {
                if (slot as usize) < self.buckets[b].deleted.len() {
                    let key = self.buckets[b].key.as_str().to_owned();
                    let dim = self.buckets[b].dim;
                    let mut deleted = copy_flags(&self.buckets[b].deleted);
                    deleted.set(slot as usize, true);
                    self.buckets.set(b, Bucket { key, dim, deleted });
                    proof {
                        assert(self@.buckets =~= without_slot(before.buckets, index@, slot));
                    }
                }
            },
            None => {},
        }
        proof {
            assert(self@.buckets =~= without_slot(before.buckets, index@, slot));
        }
    }

    /// Drops the binding of a slot.
    pub fn unbind_slot(&mut self, index: &str, slot: u32)
        ensures
            final(self)@ == (VectorView {
                ids: unbound(old(self)@.ids, index@, slot),
                ..old(self)@
            }),
    {
        let key = slot_key_string(index, slot);
        let ghost before = self@.ids;
        let mut kept: Vec<IdEntry> = Vec::new();
        let mut i: usize = 0;
        proof {
            assert(ids_view(kept@) =~= unbound(before.take(0), index@, slot));
        }
        while i < self.ids.len()
            invariant
                i <= self.ids@.len(),
                key@ == slot_key(index@, slot),
                self@ == old(self)@,
                before == self@.ids,
                ids_view(kept@) == unbound(before.take(i as int), index@, slot),
            decreases self.ids@.len() - i,
        {
            proof {
                assert(before.take(i as int + 1).drop_last() =~= before.take(i as int));
            }
            if !text::str_eq(self.ids[i].key.as_str(), key.as_str()) {
                let ghost sofar = ids_view(kept@);
                let entry = copy_entry(&self.ids[i]);
                kept.push(entry);
                proof {
                    assert(ids_view(kept@) =~= sofar.push(entry@));
                }
            }
            i = i + 1;
        }
        proof {
            assert(before.take(i as int) =~= before);
        }
        self.ids = kept;
    }

    /// Drops the code of a slot.
    pub fn drop_code(&mut self, index: &str, slot: u32)
        ensures
            final(self)@ == (VectorView {
                sidecars: without_code(old(self)@.sidecars, index@, slot),
                ..old(self)@
            }),
    {
        let ghost before = self@.sidecars;
        let mut i: usize = 0;
        while i < self.sidecars.len()
            invariant
                i <= self.sidecars@.len(),
                before == old(self)@.sidecars,
                self@.buckets == old(self)@.buckets,
                self@.ids == old(self)@.ids,
                self.sidecars@.len() == before.len(),
                forall|j: int|
                    0 <= j < i ==> (#[trigger] self.sidecars@[j])@ == without_code(
                        before,
                        index@,
                        slot,
                    )[j],
                forall|j: int|
                    i <= j < self.sidecars@.len() ==> (#[trigger] self.sidecars@[j])@
                        == before[j],
            decreases self.sidecars@.len() - i,
        {
            if text::str_eq(self.sidecars[i].key.as_str(), index) {
                let key = self.sidecars[i].key.as_str().to_owned();
                let slots = remove_slot(&self.sidecars[i].slots, slot);
                self.sidecars.set(i, Sidecar { key, slots });
            }
            i = i + 1;
        }
        proof {
            assert(self@.sidecars =~= without_code(before, index@, slot));
        }
    }
}

/// Copies a list of flags.
pub(crate) fn copy_flags(flags: &Vec<bool>) -> (r: Vec<bool>)
    ensures
        r@ == flags@,
{
    let mut out: Vec<bool> = Vec::new();
    let mut i: usize = 0;
    while i < flags.len()
        invariant
            i <= flags@.len(),
            out@ == flags@.take(i as int),
        decreases flags@.len() - i,
    {
        out.push(flags[i]);
        proof {
            assert(flags@.take(i as int + 1) =~= flags@.take(i as int).push(flags@[i as int]));
        }
        i = i + 1;
    }
    proof {
        assert(flags@.take(i as int) =~= flags@);
    }
    out
}

/// Copies a binding.
fn copy_entry(e: &IdEntry) -> (r: IdEntry)
    ensures
        r@ == e@,
{
    IdEntry {
        key: e.key.as_str().to_owned(),
        doc_id: e.doc_id.as_str().to_owned(),
        slot: e.slot,
    }
}

/// The slots other than one.
fn remove_slot(slots: &Vec<u32>, slot: u32) -> (r: Vec<u32>)
    ensures
        r@ == without_code_in(slots@, slot),
{
    let mut out: Vec<u32> = Vec::new();
    let mut i: usize = 0;
    while i < slots.len()
        invariant
            i <= slots@.len(),
            out@ == without_code_in(slots@.take(i as int), slot),
        decreases slots@.len() - i,
    {
        proof {
            assert(slots@.take(i as int + 1).drop_last() =~= slots@.take(i as int));
        }
        if slots[i] != slot {
            out.push(slots[i]);
        }
        i = i + 1;
    }
    proof {
        assert(slots@.take(i as int) =~= slots@);
    }
    out
}

/// The live slot of a document in an index.
pub fn live_node(state: &VectorState, index: &str, doc_id: &str) -> (r: Option<u32>)
    ensures
        r == live_slot(state@, index@, doc_id@),
{
    let b = match state.bucket_position(index) {
        Some(b) => b,
        None => return None,
    };
    let prefix = text::concat2(index, ":");
    let ghost deleted = state@.buckets[b as int].deleted;
    let mut i: usize = 0;
    while i < state.ids.len()
        invariant
            i <= state.ids@.len(),
            b < state.buckets@.len(),
            deleted == state.buckets@[b as int].deleted@,
            prefix@ == key_prefix(index@),
            live_slot(state@, index@, doc_id@) == node_from(
                state@.ids,
                index@,
                doc_id@,
                deleted,
                i as int,
            ),
        decreases state.ids@.len() - i,
    {
        let slot: u32 = state.ids[i].slot;
        if text::starts_with(state.ids[i].key.as_str(), prefix.as_str()) && text::str_eq(
            state.ids[i].doc_id.as_str(),
            doc_id,
        ) && (slot as usize) < state.buckets[b].deleted.len()
            && !state.buckets[b].deleted[slot as usize] {
            return Some(slot);
        }
        i = i + 1;
    }
    None
}

/// The state after a document's live slot is deleted, its binding dropped and
/// its code with it.
pub open spec fn without_node(
    state: VectorView,
    index: Seq<char>,
    doc_id: Seq<char>,
) -> VectorView {
    match live_slot(state, index, doc_id) {
        None => state,
        Some(slot) => VectorView {
            buckets: without_slot(state.buckets, index, slot),
            ids: unbound(state.ids, index, slot),
            sidecars: without_code(state.sidecars, index, slot),
        },
    }
}

/// Deletes the live slot of a document, with its binding and its code, and
/// reports whether there was one.
pub fn remove_live_node(state: &mut VectorState, index: &str, doc_id: &str) -> (r: bool)
    ensures
        r == (live_slot(old(state)@, index@, doc_id@) is Some),
        final(state)@ == without_node(old(state)@, index@, doc_id@),
{
    match live_node(state, index, doc_id) {
        None => false,
        Some(slot) => {
            state.mark_deleted(index, slot);
            state.unbind_slot(index, slot);
            state.drop_code(index, slot);
            true
        },
    }
}

} // verus!
