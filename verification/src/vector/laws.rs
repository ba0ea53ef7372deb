//! What holds of inserted, replaced and deleted vectors taken together.
use crate::steps::StepView;
use crate::vector::nodes;
use crate::vector::state;
use crate::vector::state::{IdView, SidecarView, VectorView};
use crate::vector::writes;
use vstd::prelude::*;

verus! {

/// How many slots are live.
pub open spec fn live_in(deleted: Seq<bool>) -> nat
    decreases deleted.len(),
{
    if deleted.len() == 0 {
        0
    } else {
        live_in(deleted.drop_last()) + if deleted.last() {
            0nat
        } else {
            1nat
        }
    }
}

/// How many live slots an index has.
pub open spec fn live_slots(s: VectorView, index: Seq<char>) -> nat {
    match state::bucket_at(s.buckets, index) {
        Some(b) => live_in(s.buckets[b].deleted),
        None => 0,
    }
}

/// Whether an index binds a document to a slot that is live.
pub open spec fn holds(s: VectorView, index: Seq<char>, doc_id: Seq<char>, slot: u32) -> bool {
    nodes::slot_of(s.ids, index, doc_id) == Some(slot) && (state::bucket_at(
        s.buckets,
        index,
    ) matches Some(b) && !state::gone(s.buckets[b].deleted, slot))
}

/// Whether an index binds a document once, and to this slot.
pub open spec fn bound_once(
    ids: Seq<IdView>,
    index: Seq<char>,
    doc_id: Seq<char>,
    slot: u32,
) -> bool {
    exists|i: int|
        0 <= i < ids.len() && (#[trigger] ids[i]).slot == slot && nodes::belongs(ids[i], index)
            && ids[i].doc_id == doc_id && forall|j: int|
            0 <= j < ids.len() && nodes::belongs(#[trigger] ids[j], index) && ids[j].doc_id
                == doc_id ==> j == i
}

proof fn lemma_live_push(deleted: Seq<bool>)
    ensures
        live_in(deleted.push(false)) == live_in(deleted) + 1,
{
    assert(deleted.push(false).drop_last() =~= deleted);
}

proof fn lemma_live_delete(deleted: Seq<bool>, i: int)
    requires
        0 <= i < deleted.len(),
        !deleted[i],
    ensures
        live_in(deleted.update(i, true)) + 1 == live_in(deleted),
    decreases deleted.len(),
{
    let after = deleted.update(i, true);
    if i == deleted.len() - 1 {
        assert(after.drop_last() =~= deleted.drop_last());
    } else {
        assert(after.drop_last() =~= deleted.drop_last().update(i, true));
        lemma_live_delete(deleted.drop_last(), i);
    }
}

proof fn lemma_slot_last(ids: Seq<IdView>, index: Seq<char>, doc_id: Seq<char>, i: int)
    requires
        0 <= i < ids.len(),
        nodes::belongs(ids.last(), index),
        ids.last().doc_id == doc_id,
        forall|j: int|
            i <= j < ids.len() - 1 ==> !(nodes::belongs(#[trigger] ids[j], index)
                && ids[j].doc_id == doc_id),
    ensures
        nodes::slot_from(ids, index, doc_id, i) == Some(ids.last().slot),
    decreases ids.len() - i,
{
    if i < ids.len() - 1 {
        assert(!(nodes::belongs(ids[i], index) && ids[i].doc_id == doc_id));
        lemma_slot_last(ids, index, doc_id, i + 1);
    }
}

proof fn lemma_no_code(slots: Seq<u32>, slot: u32)
    ensures
        !state::without_code_in(slots, slot).contains(slot),
    decreases slots.len(),
{
    if slots.len() > 0 {
        lemma_no_code(slots.drop_last(), slot);
        let rest = state::without_code_in(slots.drop_last(), slot);
        if slots.last() != slot {
            let all = rest.push(slots.last());
            if all.contains(slot) {
                let k = all.index_of(slot);
                assert(all[k] == slot);
                if k < rest.len() {
                    assert(rest[k] == slot);
                }
            }
        }
    }
}

/// The position that an index has once a vector is in it.
proof fn lemma_grown(s: VectorView, index: Seq<char>, dim: usize) -> (b: int)
    ensures
        0 <= b < nodes::grown(s.buckets, index, dim).len(),
        state::bucket_at(nodes::grown(s.buckets, index, dim), index) == Some(b),
        nodes::grown(s.buckets, index, dim)[b].deleted == (match state::bucket_at(
            s.buckets,
            index,
        ) {
            Some(b) => s.buckets[b].deleted,
            None => Seq::empty(),
        }).push(false),
        state::bucket_at(s.buckets, index) matches Some(a) ==> a == b,
{
    let mid = nodes::grown(s.buckets, index, dim);
    nodes::lemma_bucket_from(s.buckets, index, 0);
    let b = match state::bucket_at(s.buckets, index) {
        Some(b) => b,
        None => s.buckets.len() as int,
    };
    assert(mid[b].key == index);
    nodes::lemma_same_position(s.buckets, mid, index, b);
    assert(seq![false] =~= Seq::<bool>::empty().push(false));
    b
}

proof fn lemma_bound_once(s: VectorView, index: Seq<char>, doc_id: Seq<char>, dim: usize)
    ensures
        bound_once(
            nodes::with_node_replaced(s, index, doc_id, dim).ids,
            index,
            doc_id,
            nodes::next_slot(s.buckets, index) as u32,
        ),
        nodes::slot_of(nodes::with_node_replaced(s, index, doc_id, dim).ids, index, doc_id) == Some(
            nodes::next_slot(s.buckets, index) as u32,
        ),
{
    let slot = nodes::next_slot(s.buckets, index) as u32;
    let ids = nodes::with_node_replaced(s, index, doc_id, dim).ids;
    let kept = nodes::evicted(s.ids, index, doc_id, slot);
    nodes::lemma_evicted(s.ids, index, doc_id, slot);
    let last = ids.len() - 1;
    assert(ids[last].slot == slot && nodes::belongs(ids[last], index));
    assert forall|j: int|
        0 <= j < ids.len() && nodes::belongs(#[trigger] ids[j], index) && ids[j].doc_id
            == doc_id implies j == last by {
        if j < last {
            assert(ids[j] == kept[j]);
            assert(!nodes::superseded_by(kept[j], index, doc_id, slot));
        }
    }
    lemma_slot_last(ids, index, doc_id, 0);
}

/// A vector that takes the place of a live one leaves the number of live slots
/// as it is. The document is bound once, to the new slot, which is live; the old
/// slot is deleted and its code is gone, so no search answers with the document
/// twice.
pub proof fn replaced_vector_keeps_the_count(
    s: VectorView,
    index: Seq<char>,
    doc_id: Seq<char>,
    dim: usize,
    previous: u32,
)
    requires
        nodes::next_slot(s.buckets, index) <= u32::MAX,
        holds(s, index, doc_id, previous),
    ensures
        ({
            let after = nodes::with_node_replaced(s, index, doc_id, dim);
            let slot = nodes::next_slot(s.buckets, index) as u32;
            &&& live_slots(after, index) == live_slots(s, index)
            &&& holds(after, index, doc_id, slot)
            &&& bound_once(after.ids, index, doc_id, slot)
            &&& state::bucket_at(after.buckets, index) matches Some(b) && state::gone(
                after.buckets[b].deleted,
                previous,
            )
            &&& forall|i: int|
                0 <= i < after.sidecars.len() && (#[trigger] after.sidecars[i]).key == index
                    ==> !after.sidecars[i].slots.contains(previous)
        }),
{
    let slot = nodes::next_slot(s.buckets, index) as u32;
    let mid = nodes::grown(s.buckets, index, dim);
    let after = nodes::with_node_replaced(s, index, doc_id, dim);
    let b = lemma_grown(s, index, dim);
    let old_slots = s.buckets[b].deleted;
    lemma_live_push(old_slots);
    assert(mid[b].deleted == old_slots.push(false));
    nodes::lemma_bucket_from(mid, index, 0);
    assert(after.buckets[b].key == index);
    nodes::lemma_same_position(mid, after.buckets, index, b);
    lemma_live_delete(old_slots.push(false), previous as int);
    lemma_bound_once(s, index, doc_id, dim);
    assert forall|i: int|
        0 <= i < after.sidecars.len() && (#[trigger] after.sidecars[i]).key
            == index implies !after.sidecars[i].slots.contains(previous) by {
        let before = state::without_code(s.sidecars, index, previous)[i];
        lemma_no_code(s.sidecars[i].slots, previous);
        assert(after.sidecars[i].slots == before.slots.push(slot));
        if after.sidecars[i].slots.contains(previous) {
            let k = after.sidecars[i].slots.index_of(previous);
            assert(after.sidecars[i].slots[k] == previous);
            if k < before.slots.len() {
                assert(before.slots[k] == previous);
            }
        }
    }
}

/// A vector that was just inserted is held by its index, whatever the state was
/// before.
pub proof fn inserted_vector_is_held(
    s: VectorView,
    index: Seq<char>,
    doc_id: Seq<char>,
    dim: usize,
)
    requires
        nodes::next_slot(s.buckets, index) <= u32::MAX,
    ensures
        holds(
            nodes::with_node_replaced(s, index, doc_id, dim),
            index,
            doc_id,
            nodes::next_slot(s.buckets, index) as u32,
        ),
{
    let slot = nodes::next_slot(s.buckets, index) as u32;
    let mid = nodes::grown(s.buckets, index, dim);
    let after = nodes::with_node_replaced(s, index, doc_id, dim);
    let b = lemma_grown(s, index, dim);
    nodes::lemma_bucket_from(mid, index, 0);
    assert(after.buckets[b].key == index);
    nodes::lemma_same_position(mid, after.buckets, index, b);
    assert(!after.buckets[b].deleted[slot as int]);
    lemma_bound_once(s, index, doc_id, dim);
}

/// Two inserts for one document leave as many live slots as the first did.
pub proof fn second_insert_keeps_the_count(
    s: VectorView,
    index: Seq<char>,
    doc_id: Seq<char>,
    first: usize,
    second: usize,
)
    requires
        nodes::next_slot(s.buckets, index) < u32::MAX,
    ensures
        ({
            let once = nodes::with_node_replaced(s, index, doc_id, first);
            let twice = nodes::with_node_replaced(once, index, doc_id, second);
            &&& live_slots(twice, index) == live_slots(once, index)
            &&& bound_once(
                twice.ids,
                index,
                doc_id,
                nodes::next_slot(once.buckets, index) as u32,
            )
            &&& state::bucket_at(twice.buckets, index) matches Some(b) && state::gone(
                twice.buckets[b].deleted,
                nodes::next_slot(s.buckets, index) as u32,
            )
        }),
{
    let once = nodes::with_node_replaced(s, index, doc_id, first);
    let slot = nodes::next_slot(s.buckets, index) as u32;
    inserted_vector_is_held(s, index, doc_id, first);
    let mid = nodes::grown(s.buckets, index, first);
    let b = lemma_grown(s, index, first);
    nodes::lemma_bucket_from(mid, index, 0);
    assert(once.buckets[b].key == index);
    nodes::lemma_same_position(mid, once.buckets, index, b);
    assert(nodes::next_slot(once.buckets, index) == nodes::next_slot(s.buckets, index) + 1);
    replaced_vector_keeps_the_count(once, index, doc_id, second, slot);
}

/// The delete of a vector that its index holds marks that very slot deleted:
/// every other slot of the index, and every other index, stays as it is.
pub proof fn deleted_vector_takes_its_slot_alone(
    s: VectorView,
    collection: Seq<char>,
    id: Seq<char>,
    slot: u32,
    outbound: bool,
)
    requires
        holds(s, collection, id, slot),
    ensures
        writes::delete_vector_steps(
            collection,
            id,
            nodes::slot_of(s.ids, collection, id),
            outbound,
        )[1] == (StepView::DeleteNode { index: collection, slot }),
        ({
            let after = state::without_slot(s.buckets, collection, slot);
            &&& after.len() == s.buckets.len()
            &&& state::bucket_at(s.buckets, collection) matches Some(b) && {
                &&& after[b].key == collection && state::gone(after[b].deleted, slot)
                &&& forall|i: int|
                    0 <= i < after[b].deleted.len() && i != slot ==> #[trigger] after[b].deleted[i]
                        == s.buckets[b].deleted[i]
                &&& forall|i: int|
                    0 <= i < after.len() && i != b ==> #[trigger] after[i] == s.buckets[i]
            }
        }),
{
    nodes::lemma_bucket_from(s.buckets, collection, 0);
}

proof fn lemma_evicted_distinct(ids: Seq<IdView>, index: Seq<char>, doc_id: Seq<char>, slot: u32)
    requires
        state::distinct_ids(ids),
    ensures
        state::distinct_ids(nodes::evicted(ids, index, doc_id, slot)),
    decreases ids.len(),
{
    if ids.len() > 0 {
        let less = ids.drop_last();
        lemma_evicted_distinct(less, index, doc_id, slot);
        nodes::lemma_evicted(less, index, doc_id, slot);
        let rest = nodes::evicted(less, index, doc_id, slot);
        assert forall|i: int| 0 <= i < rest.len() implies (#[trigger] rest[i]).key
            != ids.last().key by {
            assert(less.contains(rest[i]));
            let k = choose|k: int| 0 <= k < less.len() && less[k] == rest[i];
            assert(ids[k].key != ids[ids.len() - 1].key);
        }
    }
}

proof fn lemma_cleared_distinct(ids: Seq<IdView>, index: Seq<char>)
    requires
        state::distinct_ids(ids),
    ensures
        state::distinct_ids(nodes::cleared(ids, index)),
        forall|i: int|
            0 <= i < nodes::cleared(ids, index).len() ==> ids.contains(
                #[trigger] nodes::cleared(ids, index)[i],
            ),
    decreases ids.len(),
{
    if ids.len() > 0 {
        let less = ids.drop_last();
        lemma_cleared_distinct(less, index);
        let rest = nodes::cleared(less, index);
        let all = nodes::cleared(ids, index);
        assert forall|i: int| 0 <= i < rest.len() implies (#[trigger] rest[i]).key
            != ids.last().key && ids.contains(rest[i]) by {
            assert(less.contains(rest[i]));
            let k = choose|k: int| 0 <= k < less.len() && less[k] == rest[i];
            assert(ids[k].key != ids[ids.len() - 1].key);
        }
        assert forall|i: int| 0 <= i < all.len() implies ids.contains(#[trigger] all[i]) by {
            if i < rest.len() {
                assert(all[i] == rest[i]);
            } else {
                assert(all[i] == ids[ids.len() - 1]);
            }
        }
    }
}

proof fn lemma_unbound_distinct(ids: Seq<IdView>, index: Seq<char>, slot: u32)
    requires
        state::distinct_ids(ids),
    ensures
        state::distinct_ids(state::unbound(ids, index, slot)),
        forall|i: int|
            0 <= i < state::unbound(ids, index, slot).len() ==> ids.contains(
                #[trigger] state::unbound(ids, index, slot)[i],
            ),
    decreases ids.len(),
{
    if ids.len() > 0 {
        let less = ids.drop_last();
        lemma_unbound_distinct(less, index, slot);
        let rest = state::unbound(less, index, slot);
        let all = state::unbound(ids, index, slot);
        assert forall|i: int| 0 <= i < rest.len() implies (#[trigger] rest[i]).key
            != ids.last().key && ids.contains(rest[i]) by {
            assert(less.contains(rest[i]));
            let k = choose|k: int| 0 <= k < less.len() && less[k] == rest[i];
            assert(ids[k].key != ids[ids.len() - 1].key);
        }
        assert forall|i: int| 0 <= i < all.len() implies ids.contains(#[trigger] all[i]) by {
            if i < rest.len() {
                assert(all[i] == rest[i]);
            } else {
                assert(all[i] == ids[ids.len() - 1]);
            }
        }
    }
}

proof fn lemma_sidecars_distinct(sidecars: Seq<SidecarView>, index: Seq<char>)
    requires
        state::distinct_sidecars(sidecars),
    ensures
        state::distinct_sidecars(nodes::without_sidecar(sidecars, index)),
        forall|i: int|
            0 <= i < nodes::without_sidecar(sidecars, index).len() ==> sidecars.contains(
                #[trigger] nodes::without_sidecar(sidecars, index)[i],
            ),
    decreases sidecars.len(),
{
    if sidecars.len() > 0 {
        let less = sidecars.drop_last();
        lemma_sidecars_distinct(less, index);
        let rest = nodes::without_sidecar(less, index);
        let all = nodes::without_sidecar(sidecars, index);
        assert forall|i: int| 0 <= i < rest.len() implies (#[trigger] rest[i]).key
            != sidecars.last().key && sidecars.contains(rest[i]) by {
            assert(less.contains(rest[i]));
            let k = choose|k: int| 0 <= k < less.len() && less[k] == rest[i];
            assert(sidecars[k].key != sidecars[sidecars.len() - 1].key);
        }
        assert forall|i: int| 0 <= i < all.len() implies sidecars.contains(#[trigger] all[i]) by {
            if i < rest.len() {
                assert(all[i] == rest[i]);
            } else {
                assert(all[i] == sidecars[sidecars.len() - 1]);
            }
        }
    }
}

proof fn lemma_buckets_distinct(s: VectorView, index: Seq<char>, dim: usize, slot: u32)
    requires
        state::distinct_buckets(s.buckets),
    ensures
        state::distinct_buckets(nodes::grown(s.buckets, index, dim)),
        state::distinct_buckets(state::without_slot(s.buckets, index, slot)),
        state::distinct_buckets(nodes::with_index_reset(s, index).buckets),
        state::distinct_buckets(nodes::without_index(s, index).buckets),
{
    nodes::lemma_bucket_from(s.buckets, index, 0);
}

/// Each change of the vector state keeps a key of its own for every index,
/// binding and sidecar: a binding, an encoded slot, an inserted or replaced
/// vector, a deleted slot, a dropped binding or code, and an index that is
/// emptied or dropped.
pub proof fn keys_stay_distinct(
    s: VectorView,
    index: Seq<char>,
    doc_id: Seq<char>,
    dim: usize,
    slot: u32,
)
    requires
        state::distinct_keys(s),
    ensures
        state::distinct_keys(
            (VectorView { ids: nodes::bound(s.ids, index, doc_id, slot), ..s }),
        ),
        state::distinct_keys(
            (VectorView { sidecars: nodes::with_code(s.sidecars, index, slot), ..s }),
        ),
        state::distinct_keys(nodes::with_node(s, index, doc_id, dim)),
        state::distinct_keys(nodes::with_node_replaced(s, index, doc_id, dim)),
        state::distinct_keys(
            (VectorView { buckets: state::without_slot(s.buckets, index, slot), ..s }),
        ),
        state::distinct_keys((VectorView { ids: state::unbound(s.ids, index, slot), ..s })),
        state::distinct_keys(
            (VectorView { sidecars: state::without_code(s.sidecars, index, slot), ..s }),
        ),
        state::distinct_keys(state::without_node(s, index, doc_id)),
        state::distinct_keys((VectorView { ids: nodes::cleared(s.ids, index), ..s })),
        state::distinct_keys(
            (VectorView { sidecars: nodes::without_sidecar(s.sidecars, index), ..s }),
        ),
        state::distinct_keys(nodes::with_index_reset(s, index)),
        state::distinct_keys(nodes::without_index(s, index)),
{
    let next = nodes::next_slot(s.buckets, index) as u32;
    lemma_bound_distinct(s.ids, index, doc_id, slot);
    lemma_bound_distinct(s.ids, index, doc_id, next);
    lemma_cleared_distinct(s.ids, index);
    lemma_unbound_distinct(s.ids, index, slot);
    lemma_sidecars_distinct(s.sidecars, index);
    lemma_buckets_distinct(s, index, dim, slot);
    let after = nodes::with_node(s, index, doc_id, dim);
    if let Some(previous) = nodes::slot_of(s.ids, index, doc_id) {
        lemma_buckets_distinct(after, index, dim, previous);
    }
    if let Some(live) = state::live_slot(s, index, doc_id) {
        lemma_unbound_distinct(s.ids, index, live);
        lemma_buckets_distinct(s, index, dim, live);
    }
}

proof fn lemma_bound_distinct(ids: Seq<IdView>, index: Seq<char>, doc_id: Seq<char>, slot: u32)
    requires
        state::distinct_ids(ids),
    ensures
        state::distinct_ids(nodes::bound(ids, index, doc_id, slot)),
{
    lemma_evicted_distinct(ids, index, doc_id, slot);
    nodes::lemma_evicted(ids, index, doc_id, slot);
    let kept = nodes::evicted(ids, index, doc_id, slot);
    assert forall|i: int| 0 <= i < kept.len() implies (#[trigger] kept[i]).key != state::slot_key(
        index,
        slot,
    ) by {
        assert(!nodes::superseded_by(kept[i], index, doc_id, slot));
    }
}

proof fn lemma_all_reset_distinct(s: VectorView, keys: Seq<Seq<char>>)
    requires
        state::distinct_keys(s),
    ensures
        state::distinct_keys(writes::all_reset(s, keys)),
    decreases keys.len(),
{
    if keys.len() > 0 {
        lemma_all_reset_distinct(s, keys.drop_last());
        keys_stay_distinct(
            writes::all_reset(s, keys.drop_last()),
            keys.last(),
            Seq::empty(),
            0,
            0,
        );
    }
}

/// Emptying every index of a collection keeps the keys distinct too.
pub proof fn cleared_keys_stay_distinct(
    before: VectorView,
    after: VectorView,
    collection: Seq<char>,
    configured: Seq<Seq<char>>,
    durable: Seq<Seq<char>>,
    plan: Seq<StepView>,
)
    requires
        state::distinct_keys(before),
        writes::indexes_cleared(before, after, collection, configured, durable, plan),
    ensures
        state::distinct_keys(after),
{
    let live = writes::bucket_keys(before.buckets);
    let keys = choose|keys: Seq<Seq<char>>|
        {
            &&& #[trigger] writes::index_list(keys, collection, live, configured)
            &&& after == writes::all_reset(before, keys)
            &&& plan == writes::removals(collection, durable) + writes::checkpoint_drops(keys)
        };
    lemma_all_reset_distinct(before, keys);
}

} // verus!
