//! What holds of the key-value engine across several requests.
use crate::error::ErrorView;
use crate::kv::codec;
use crate::kv::fields;
use crate::kv::fields::Funds;
use crate::kv::writes;
use crate::persist::digits;
use crate::query::engine;
use crate::result::PlanView;
use crate::storage;
use crate::storage::{Namespace, OpView};
use crate::value::DatumView;
use crate::wire;
use vstd::prelude::*;

verus! {

/// What the store holds for an entry.
pub open spec fn entry_at(store: storage::Store, collection: Seq<char>, key: Seq<u8>) -> Option<
    Seq<u8>,
> {
    let place = (Namespace::Kv, codec::stored_key(collection, key));
    if store.dom().contains(place) {
        Some(store[place])
    } else {
        None
    }
}

/// A write without a time to live is seen by every later reader, at any time.
pub proof fn put_is_read_back(
    store: storage::Store,
    collection: Seq<char>,
    key: Seq<u8>,
    value: Seq<u8>,
    now_ms: u64,
    later_ms: u64,
)
    ensures
        codec::live_entry(
            entry_at(
                storage::apply_ops(
                    store,
                    writes::put_plan(collection, key, value, 0, now_ms).ops,
                ),
                collection,
                key,
            ),
            later_ms,
        ) == Some((0u64, value)),
{
    let ops = writes::put_plan(collection, key, value, 0, now_ms).ops;
    codec::value_round_trip(0, value);
    assert(ops.drop_last() =~= Seq::empty());
    reveal_with_fuel(storage::apply_ops, 2);
}

/// A write with a time to live is seen until its deadline and not after it.
pub proof fn put_with_ttl_expires(
    store: storage::Store,
    collection: Seq<char>,
    key: Seq<u8>,
    value: Seq<u8>,
    ttl_ms: u64,
    now_ms: u64,
    later_ms: u64,
)
    requires
        ttl_ms > 0,
    ensures
        ({
            let deadline = codec::saturating_sum(now_ms, ttl_ms);
            codec::live_entry(
                entry_at(
                    storage::apply_ops(
                        store,
                        writes::put_plan(collection, key, value, ttl_ms, now_ms).ops,
                    ),
                    collection,
                    key,
                ),
                later_ms,
            ) == if later_ms < deadline {
                Some((deadline, value))
            } else {
                None
            }
        }),
{
    let ops = writes::put_plan(collection, key, value, ttl_ms, now_ms).ops;
    codec::value_round_trip(codec::saturating_sum(now_ms, ttl_ms), value);
    assert(ops.drop_last() =~= Seq::empty());
    reveal_with_fuel(storage::apply_ops, 2);
}

/// A deleted entry is gone, and the delete leaves every other place alone.
pub proof fn delete_removes(
    store: storage::Store,
    collection: Seq<char>,
    keys: Seq<Vec<u8>>,
    i: int,
    other: (Namespace, Seq<u8>),
)
    requires
        0 <= i < keys.len(),
    ensures
        entry_at(
            storage::apply_ops(store, writes::delete_ops(collection, keys)),
            collection,
            keys[i]@,
        ) is None,
        (forall|j: int|
            0 <= j < keys.len() ==> other != (
                Namespace::Kv,
                codec::stored_key(collection, (#[trigger] keys[j])@),
            )) ==> {
            let after = storage::apply_ops(store, writes::delete_ops(collection, keys));
            &&& after.dom().contains(other) == store.dom().contains(other)
            &&& store.dom().contains(other) ==> after[other] == store[other]
        },
    decreases keys.len(),
{
    let ops = writes::delete_ops(collection, keys);
    let place = (Namespace::Kv, codec::stored_key(collection, keys[i]@));
    assert(ops.drop_last() =~= writes::delete_ops(collection, keys.drop_last()));
    assert(ops.last() == OpView::Delete {
        ns: Namespace::Kv,
        key: codec::stored_key(collection, keys.last()@),
    });
    if i < keys.len() - 1 {
        delete_removes(store, collection, keys.drop_last(), i, other);
        assert(keys.drop_last()[i] == keys[i]);
    }
    if forall|j: int|
        0 <= j < keys.len() ==> other != (
            Namespace::Kv,
            codec::stored_key(collection, (#[trigger] keys[j])@),
        ) {
        assert forall|j: int| 0 <= j < ops.len() implies storage::op_target(#[trigger] ops[j])
            != other by {
            assert(other != (Namespace::Kv, codec::stored_key(collection, keys[j]@)));
        }
        storage::apply_ops_frame(store, ops, other);
    }
}

/// An update of a row that is absent or expired writes nothing, whatever the
/// updates are.
pub proof fn update_of_absent_row_writes_nothing(
    stored: Option<Seq<u8>>,
    key: Seq<u8>,
    updates: Seq<(Seq<char>, Seq<u8>)>,
    now_ms: u64,
    r: Result<PlanView, ErrorView>,
)
    requires
        fields::field_set_spec(stored, key, updates, true, now_ms, r),
        r is Ok,
        codec::live_entry(stored, now_ms) is None,
    ensures
        r->Ok_0.ops.len() == 0,
        r->Ok_0.result.rows_affected == 0,
{
}

/// A compare-and-swap that succeeded leaves the new value, and fails when it is
/// run again with the same expectation, unless it expected the value that it
/// wrote.
pub proof fn cas_succeeds_once(
    store: storage::Store,
    collection: Seq<char>,
    key: Seq<u8>,
    expected: Seq<u8>,
    new_value: Seq<u8>,
    now_ms: u64,
)
    requires
        writes::swap_base(entry_at(store, collection, key), now_ms).0 == expected,
        expected != new_value,
    ensures
        ({
            let first = writes::cas_plan(
                entry_at(store, collection, key),
                collection,
                key,
                expected,
                new_value,
                now_ms,
            );
            let after = storage::apply_ops(store, first.ops);
            let second = writes::cas_plan(
                entry_at(after, collection, key),
                collection,
                key,
                expected,
                new_value,
                now_ms,
            );
            &&& first.result.rows_affected == 1
            &&& writes::swap_base(entry_at(after, collection, key), now_ms).0 == new_value
            &&& second.result.rows_affected == 0
            &&& second.ops.len() == 0
        }),
{
    let deadline = writes::swap_base(entry_at(store, collection, key), now_ms).1;
    let ops = seq![
        OpView::Put {
            ns: Namespace::Kv,
            key: codec::stored_key(collection, key),
            value: codec::stored_value(deadline, new_value),
        },
    ];
    codec::value_round_trip(deadline, new_value);
    assert(ops.drop_last() =~= Seq::empty());
    reveal_with_fuel(storage::apply_ops, 2);
}

/// The value that a replacement sets is the one that a reader then sees, whatever
/// was stored before, an expired entry too. The answer holds what a reader saw
/// before.
pub proof fn replaced_value_is_read_back(
    store: storage::Store,
    collection: Seq<char>,
    key: Seq<u8>,
    new_value: Seq<u8>,
    now_ms: u64,
)
    ensures
        ({
            let before = codec::live_entry(entry_at(store, collection, key), now_ms);
            let plan = writes::get_set_plan(
                entry_at(store, collection, key),
                collection,
                key,
                new_value,
                now_ms,
            );
            let after = storage::apply_ops(store, plan.ops);
            &&& codec::live_entry(entry_at(after, collection, key), now_ms) == Some(
                (
                    match before {
                        Some((deadline, _)) => deadline,
                        None => 0u64,
                    },
                    new_value,
                ),
            )
            &&& plan.result.rows[0][0] == match before {
                Some((_, value)) => DatumView::Bytes(value),
                None => DatumView::Null,
            }
        }),
{
    let (_, deadline) = writes::replaced(entry_at(store, collection, key), now_ms);
    let ops = writes::get_set_plan(
        entry_at(store, collection, key),
        collection,
        key,
        new_value,
        now_ms,
    ).ops;
    codec::value_round_trip(deadline, new_value);
    assert(ops.drop_last() =~= Seq::empty());
    reveal_with_fuel(storage::apply_ops, 2);
}

/// Whether keys are listed in order from the place where a collection starts.
pub open spec fn listed_from(collection: Seq<char>, scanned: Seq<Vec<u8>>) -> bool {
    let start = vstd::utf8::encode_utf8(collection) + seq![0u8];
    &&& forall|i: int, j: int|
        0 <= i < j < scanned.len() ==> digits::before(
            (#[trigger] scanned[i])@,
            (#[trigger] scanned[j])@,
        )
    &&& forall|i: int|
        0 <= i < scanned.len() ==> (#[trigger] scanned[i])@ == start || digits::before(
            start,
            scanned[i]@,
        )
}

proof fn lemma_truncate_reaches(collection: Seq<char>, scanned: Seq<Vec<u8>>, at: int)
    requires
        listed_from(collection, scanned),
        0 <= at < scanned.len(),
        writes::in_collection(scanned[at]@, collection),
    ensures
        writes::truncate_ops(collection, scanned).contains(
            OpView::Delete { ns: Namespace::Kv, key: scanned[at]@ },
        ),
    decreases scanned.len(),
{
    let name = vstd::utf8::encode_utf8(collection);
    let start = name + seq![0u8];
    let key = choose|key: Seq<u8>|
        scanned[at]@ == name + seq![0u8] + key && !name.contains(0);
    let op = OpView::Delete { ns: Namespace::Kv, key: scanned[at]@ };
    let rest = scanned.skip(1);
    let later = writes::truncate_ops(collection, rest);
    let first = OpView::Delete { ns: Namespace::Kv, key: scanned[0]@ };
    assert(scanned[at]@.subrange(0, start.len() as int) =~= start);
    assert(scanned[at]@[name.len() as int] == 0);
    if at == 0 {
        assert((seq![first] + later)[0] == op);
    } else {
        assert(digits::before(scanned[0]@, scanned[at]@));
        digits::lemma_between_extensions(start, scanned[0]@, scanned[at]@);
        let tail = scanned[0]@.skip(start.len() as int);
        assert(scanned[0]@ =~= name + seq![0u8] + tail) by {
            assert(scanned[0]@.subrange(0, start.len() as int) == start);
            assert(scanned[0]@ =~= scanned[0]@.subrange(0, start.len() as int) + tail);
        }
        assert(writes::in_collection(scanned[0]@, collection));
        assert(scanned[0]@[name.len() as int] == 0);
        assert(scanned[0]@.contains(0));
        assert forall|i: int, j: int| 0 <= i < j < rest.len() implies digits::before(
            (#[trigger] rest[i])@,
            (#[trigger] rest[j])@,
        ) by {
            assert(digits::before(scanned[i + 1]@, scanned[j + 1]@));
        }
        assert forall|i: int| 0 <= i < rest.len() implies (#[trigger] rest[i])@ == start
            || digits::before(start, rest[i]@) by {
            assert(scanned[i + 1]@ == start || digits::before(start, scanned[i + 1]@));
        }
        assert(rest[at - 1] == scanned[at]);
        lemma_truncate_reaches(collection, rest, at - 1);
        let k = choose|k: int| 0 <= k < later.len() && later[k] == op;
        assert((seq![first] + later)[k + 1] == op);
    }
}

proof fn lemma_truncate_deletes(collection: Seq<char>, scanned: Seq<Vec<u8>>, k: int)
    requires
        0 <= k < writes::truncate_ops(collection, scanned).len(),
    ensures
        writes::truncate_ops(collection, scanned)[k] matches OpView::Delete { ns, key } && ns
            == Namespace::Kv && writes::in_collection(key, collection),
    decreases scanned.len(),
{
    let rest = scanned.skip(1);
    if !scanned[0]@.contains(0) {
        lemma_truncate_deletes(collection, rest, k);
    } else if k > 0 {
        lemma_truncate_deletes(collection, rest, k - 1);
    }
}

proof fn lemma_deleted_stays_away(
    store: storage::Store,
    ops: Seq<OpView>,
    place: (Namespace, Seq<u8>),
)
    requires
        forall|i: int| 0 <= i < ops.len() ==> (#[trigger] ops[i]) is Delete,
        exists|i: int| 0 <= i < ops.len() && storage::op_target(#[trigger] ops[i]) == place,
    ensures
        !storage::apply_ops(store, ops).dom().contains(place),
    decreases ops.len(),
{
    let i = choose|i: int| 0 <= i < ops.len() && storage::op_target(#[trigger] ops[i]) == place;
    let head = ops.drop_last();
    assert(ops[ops.len() - 1] is Delete);
    if i < ops.len() - 1 {
        assert(head[i] == ops[i]);
        assert forall|j: int| 0 <= j < head.len() implies (#[trigger] head[j]) is Delete by {
            assert(head[j] == ops[j]);
        }
        lemma_deleted_stays_away(store, head, place);
    }
}

/// Truncating a collection removes every entry of it that was listed, and no
/// place outside it.
pub proof fn truncate_empties_the_collection(
    store: storage::Store,
    collection: Seq<char>,
    scanned: Seq<Vec<u8>>,
    at: int,
    other: (Namespace, Seq<u8>),
)
    requires
        listed_from(collection, scanned),
        0 <= at < scanned.len(),
        writes::in_collection(scanned[at]@, collection),
        other.0 != Namespace::Kv || !writes::in_collection(other.1, collection),
    ensures
        ({
            let after = storage::apply_ops(store, writes::truncate_ops(collection, scanned));
            &&& !after.dom().contains((Namespace::Kv, scanned[at]@))
            &&& after.dom().contains(other) == store.dom().contains(other)
            &&& store.dom().contains(other) ==> after[other] == store[other]
        }),
{
    let ops = writes::truncate_ops(collection, scanned);
    let place = (Namespace::Kv, scanned[at]@);
    lemma_truncate_reaches(collection, scanned, at);
    let k = choose|k: int|
        0 <= k < ops.len() && ops[k] == (OpView::Delete { ns: Namespace::Kv, key: scanned[at]@ });
    assert(storage::op_target(ops[k]) == place);
    assert forall|i: int| 0 <= i < ops.len() implies (#[trigger] ops[i]) is Delete
        && storage::op_target(ops[i]) != other by {
        lemma_truncate_deletes(collection, scanned, i);
    }
    lemma_deleted_stays_away(store, ops, place);
    storage::apply_ops_frame(store, ops, other);
}

/// Whether a key was listed.
pub open spec fn was_listed(scanned: Seq<Vec<u8>>, key: Seq<u8>) -> bool {
    exists|i: int| 0 <= i < scanned.len() && (#[trigger] scanned[i])@ == key
}

/// The stored keys of a collection.
pub open spec fn keys_of(store: storage::Store, collection: Seq<char>) -> Set<Seq<u8>> {
    Set::new(
        |key: Seq<u8>|
            store.dom().contains((Namespace::Kv, key)) && writes::in_collection(key, collection),
    )
}

/// Whether keys are listed in order from the place where a collection starts:
/// stored keys alone, and every one of the collection.
pub open spec fn lists(
    store: storage::Store,
    collection: Seq<char>,
    scanned: Seq<Vec<u8>>,
) -> bool {
    &&& listed_from(collection, scanned)
    &&& forall|i: int|
        0 <= i < scanned.len() ==> store.dom().contains(
            (Namespace::Kv, (#[trigger] scanned[i])@),
        )
    &&& forall|key: Seq<u8>|
        keys_of(store, collection).contains(key) ==> #[trigger] was_listed(scanned, key)
}

proof fn lemma_truncate_order(collection: Seq<char>, scanned: Seq<Vec<u8>>)
    requires
        forall|i: int, j: int|
            0 <= i < j < scanned.len() ==> digits::before(
                (#[trigger] scanned[i])@,
                (#[trigger] scanned[j])@,
            ),
    ensures
        ({
            let ops = writes::truncate_ops(collection, scanned);
            &&& forall|k: int|
                0 <= k < ops.len() ==> was_listed(scanned, storage::op_target(#[trigger] ops[k]).1)
            &&& forall|k: int, m: int|
                0 <= k < m < ops.len() ==> digits::before(
                    storage::op_target(#[trigger] ops[k]).1,
                    storage::op_target(#[trigger] ops[m]).1,
                )
        }),
    decreases scanned.len(),
{
    if scanned.len() > 0 {
        let rest = scanned.skip(1);
        let later = writes::truncate_ops(collection, rest);
        let ops = writes::truncate_ops(collection, scanned);
        assert forall|i: int, j: int| 0 <= i < j < rest.len() implies digits::before(
            (#[trigger] rest[i])@,
            (#[trigger] rest[j])@,
        ) by {
            assert(digits::before(scanned[i + 1]@, scanned[j + 1]@));
        }
        lemma_truncate_order(collection, rest);
        assert forall|key: Seq<u8>| #[trigger] was_listed(rest, key) implies was_listed(
            scanned,
            key,
        ) && digits::before(scanned[0]@, key) by {
            let i = choose|i: int| 0 <= i < rest.len() && (#[trigger] rest[i])@ == key;
            assert(scanned[i + 1]@ == key);
        }
        assert(was_listed(scanned, scanned[0]@));
        assert forall|k: int| 0 <= k < ops.len() implies was_listed(
            scanned,
            storage::op_target(#[trigger] ops[k]).1,
        ) by {
            if ops.len() == later.len() {
                assert(was_listed(rest, storage::op_target(later[k]).1));
            } else if k > 0 {
                assert(ops[k] == later[k - 1]);
                assert(was_listed(rest, storage::op_target(later[k - 1]).1));
            }
        }
        assert forall|k: int, m: int| 0 <= k < m < ops.len() implies digits::before(
            storage::op_target(#[trigger] ops[k]).1,
            storage::op_target(#[trigger] ops[m]).1,
        ) by {
            if ops.len() != later.len() {
                assert(ops[m] == later[m - 1]);
                assert(was_listed(rest, storage::op_target(later[m - 1]).1));
                if k > 0 {
                    assert(ops[k] == later[k - 1]);
                }
            }
        }
    }
}

/// Truncating a collection answers with the number of its entries. Afterwards
/// it has none, and truncating it again deletes nothing and answers with zero.
pub proof fn truncate_counts_the_entries(
    store: storage::Store,
    collection: Seq<char>,
    scanned: Seq<Vec<u8>>,
    again: Seq<Vec<u8>>,
)
    requires
        lists(store, collection, scanned),
        scanned.len() <= u64::MAX,
        lists(
            storage::apply_ops(store, writes::truncate_ops(collection, scanned)),
            collection,
            again,
        ),
    ensures
        keys_of(store, collection).len() == writes::truncate_plan(
            collection,
            scanned,
        ).result.rows_affected,
        keys_of(
            storage::apply_ops(store, writes::truncate_ops(collection, scanned)),
            collection,
        ) == Set::<Seq<u8>>::empty(),
        writes::truncate_plan(collection, again).ops.len() == 0,
        writes::truncate_plan(collection, again).result.rows_affected == 0,
{
    let ops = writes::truncate_ops(collection, scanned);
    let after = storage::apply_ops(store, ops);
    let keys = ops.map_values(|op: OpView| storage::op_target(op).1);
    lemma_truncate_order(collection, scanned);
    assert forall|k: int, m: int|
        0 <= k < keys.len() && 0 <= m < keys.len() && k != m implies keys[k] != keys[m] by {
        let a: int = if k < m {
            k
        } else {
            m
        };
        let b: int = k + m - a;
        assert(digits::before(storage::op_target(ops[a]).1, storage::op_target(ops[b]).1));
        digits::lemma_not_before_itself(keys[a]);
    }
    keys.unique_seq_to_set();
    assert forall|key: Seq<u8>| keys.to_set().contains(key) == keys_of(
        store,
        collection,
    ).contains(key) by {
        if keys.to_set().contains(key) {
            let k = choose|k: int| 0 <= k < keys.len() && keys[k] == key;
            assert(storage::op_target(ops[k]).1 == key);
            lemma_truncate_deletes(collection, scanned, k);
            assert(was_listed(scanned, key));
            let i = choose|i: int| 0 <= i < scanned.len() && (#[trigger] scanned[i])@ == key;
            assert(store.dom().contains((Namespace::Kv, scanned[i]@)));
        }
        if keys_of(store, collection).contains(key) {
            assert(was_listed(scanned, key));
            let i = choose|i: int| 0 <= i < scanned.len() && (#[trigger] scanned[i])@ == key;
            lemma_truncate_reaches(collection, scanned, i);
            let op = OpView::Delete { ns: Namespace::Kv, key };
            let k = choose|k: int| 0 <= k < ops.len() && ops[k] == op;
            assert(keys[k] == key);
        }
    }
    assert(keys.to_set() =~= keys_of(store, collection));
    lemma_truncate_bound(collection, scanned);
    assert forall|key: Seq<u8>| !keys_of(after, collection).contains(key) by {
        if keys_of(after, collection).contains(key) {
            if keys_of(store, collection).contains(key) {
                assert(was_listed(scanned, key));
                let i = choose|i: int| 0 <= i < scanned.len() && (#[trigger] scanned[i])@ == key;
                lemma_truncate_reaches(collection, scanned, i);
                let op = OpView::Delete { ns: Namespace::Kv, key };
                let k = choose|k: int| 0 <= k < ops.len() && ops[k] == op;
                assert(storage::op_target(ops[k]) == (Namespace::Kv, key));
                assert forall|m: int| 0 <= m < ops.len() implies (#[trigger] ops[m]) is Delete by {
                    lemma_truncate_deletes(collection, scanned, m);
                }
                lemma_deleted_stays_away(store, ops, (Namespace::Kv, key));
            } else {
                assert forall|m: int| 0 <= m < ops.len() implies storage::op_target(
                    #[trigger] ops[m],
                ) != (Namespace::Kv, key) by {
                    assert(keys[m] == storage::op_target(ops[m]).1);
                    assert(keys.to_set().contains(keys[m]));
                }
                storage::apply_ops_frame(store, ops, (Namespace::Kv, key));
            }
        }
    }
    assert(keys_of(after, collection) =~= Set::empty());
    let second = writes::truncate_ops(collection, again);
    if second.len() > 0 {
        lemma_truncate_order(collection, again);
        lemma_truncate_deletes(collection, again, 0);
        let key = storage::op_target(second[0]).1;
        assert(was_listed(again, key));
        let i = choose|i: int| 0 <= i < again.len() && (#[trigger] again[i])@ == key;
        assert(after.dom().contains((Namespace::Kv, again[i]@)));
        assert(keys_of(after, collection).contains(key));
    }
}

proof fn lemma_truncate_bound(collection: Seq<char>, scanned: Seq<Vec<u8>>)
    ensures
        writes::truncate_ops(collection, scanned).len() <= scanned.len(),
    decreases scanned.len(),
{
    if scanned.len() > 0 {
        lemma_truncate_bound(collection, scanned.skip(1));
    }
}

/// A moved item is found where it was moved to, without a deadline, and no
/// longer where it was.
pub proof fn transferred_item_moves(
    store: storage::Store,
    source_collection: Seq<char>,
    dest_collection: Seq<char>,
    item_key: Seq<u8>,
    dest_key: Seq<u8>,
    now_ms: u64,
    later_ms: u64,
)
    requires
        codec::live_entry(entry_at(store, source_collection, item_key), now_ms) is Some,
    ensures
        ({
            let item = codec::live_entry(entry_at(store, source_collection, item_key), now_ms)->Some_0.1;
            let r = fields::transfer_item_spec(
                entry_at(store, source_collection, item_key),
                source_collection,
                dest_collection,
                item_key,
                dest_key,
                now_ms,
            );
            let after = storage::apply_ops(store, r->Ok_0.ops);
            &&& r is Ok
            &&& codec::live_entry(entry_at(after, dest_collection, dest_key), later_ms) == Some(
                (0u64, item),
            )
            &&& codec::stored_key(source_collection, item_key) != codec::stored_key(
                dest_collection,
                dest_key,
            ) ==> entry_at(after, source_collection, item_key) is None
        }),
{
    let stored = entry_at(store, source_collection, item_key);
    let item = codec::live_entry(stored, now_ms)->Some_0.1;
    let ops = fields::transfer_item_spec(
        stored,
        source_collection,
        dest_collection,
        item_key,
        dest_key,
        now_ms,
    )->Ok_0.ops;
    codec::value_round_trip(0, item);
    assert(ops.drop_last() =~= seq![ops[0]]);
    assert(seq![ops[0]].drop_last() =~= Seq::empty());
    reveal_with_fuel(storage::apply_ops, 3);
}

/// A field that no update names keeps its value.
pub proof fn other_fields_are_kept(
    base: Map<Seq<char>, nodedb_types::Value>,
    updates: Seq<(Seq<char>, Seq<u8>)>,
    field: Seq<char>,
)
    requires
        base.dom().contains(field),
        forall|i: int| 0 <= i < updates.len() ==> (#[trigger] updates[i]).0 != field,
    ensures
        fields::updated(base, updates).dom().contains(field),
        fields::updated(base, updates)[field] == base[field],
    decreases updates.len(),
{
    if updates.len() > 0 {
        let head = updates.drop_last();
        assert forall|i: int| 0 <= i < head.len() implies (#[trigger] head[i]).0 != field by {
            assert(head[i] == updates[i]);
        }
        other_fields_are_kept(base, head, field);
        assert(updates[updates.len() - 1].0 != field);
    }
}

/// Whether an entry holds a map under a deadline.
pub open spec fn holds_fields(
    stored: Option<Seq<u8>>,
    deadline: u64,
    map: Map<Seq<char>, nodedb_types::Value>,
) -> bool {
    &&& stored is Some
    &&& codec::parsed_value(stored->0) is Some
    &&& (codec::parsed_value(stored->0)->0).0 == deadline
    &&& wire::encodes_fields((codec::parsed_value(stored->0)->0).1, map)
}

/// What a field update stores is the map before with the updated fields, under
/// the deadline before. No other entry changes.
pub proof fn updated_fields_are_read_back(
    store: storage::Store,
    collection: Seq<char>,
    key: Seq<u8>,
    updates: Seq<(Seq<char>, Seq<u8>)>,
    if_present: bool,
    now_ms: u64,
    r: Result<PlanView, ErrorView>,
    other: (Namespace, Seq<u8>),
)
    requires
        fields::field_set_spec(
            entry_at(store, collection, key),
            codec::stored_key(collection, key),
            updates,
            if_present,
            now_ms,
            r,
        ),
        r is Ok,
        fields::field_set_base(entry_at(store, collection, key), now_ms)->Ok_0.2 || !if_present,
        other != (Namespace::Kv, codec::stored_key(collection, key)),
    ensures
        ({
            let (deadline, base, _) = fields::field_set_base(
                entry_at(store, collection, key),
                now_ms,
            )->Ok_0;
            let after = storage::apply_ops(store, r->Ok_0.ops);
            &&& fields::all_decode(updates)
            &&& holds_fields(
                entry_at(after, collection, key),
                deadline,
                fields::updated(base, updates),
            )
            &&& after.dom().contains(other) == store.dom().contains(other)
            &&& store.dom().contains(other) ==> after[other] == store[other]
        }),
{
    let ops = r->Ok_0.ops;
    assert(ops.drop_last() =~= Seq::empty());
    reveal_with_fuel(storage::apply_ops, 2);
}

/// A transfer between two entries changes the balance of each and nothing else:
/// their other fields, their deadlines and every other entry stay.
pub proof fn transfer_changes_two_balances(
    store: storage::Store,
    collection: Seq<char>,
    source_key: Seq<u8>,
    dest_key: Seq<u8>,
    field: Seq<char>,
    now_ms: u64,
    source_balance: nodedb_types::Value,
    dest_balance: nodedb_types::Value,
    r: Result<PlanView, ErrorView>,
    other: (Namespace, Seq<u8>),
)
    requires
        source_key != dest_key,
        engine::native_kind_of(source_balance) is Float,
        engine::native_kind_of(dest_balance) is Float,
        fields::transfer_spec(
            entry_at(store, collection, source_key),
            entry_at(store, collection, dest_key),
            collection,
            source_key,
            dest_key,
            field,
            now_ms,
            Funds::Enough { source: source_balance, dest: dest_balance },
            r,
        ),
    ensures
        r is Ok ==> ({
            let after = storage::apply_ops(store, r->Ok_0.ops);
            let source = fields::transfer_source_spec(
                entry_at(store, collection, source_key),
                collection,
                now_ms,
            );
            let dest = fields::transfer_dest_spec(entry_at(store, collection, dest_key));
            &&& source is Ok && dest is Ok
            &&& holds_fields(
                entry_at(after, collection, source_key),
                source->Ok_0.0,
                source->Ok_0.1.insert(field, source_balance),
            )
            &&& holds_fields(
                entry_at(after, collection, dest_key),
                dest->Ok_0.0,
                dest->Ok_0.1.insert(field, dest_balance),
            )
            &&& other != (Namespace::Kv, codec::stored_key(collection, source_key)) && other != (
                Namespace::Kv,
                codec::stored_key(collection, dest_key),
            ) ==> after.dom().contains(other) == store.dom().contains(other) && after[other]
                == store[other]
        }),
{
    if r is Ok {
        let ops = r->Ok_0.ops;
        lemma_keys_differ(collection, source_key, dest_key);
        assert(ops.drop_last() =~= seq![ops[0]]);
        assert(seq![ops[0]].drop_last() =~= Seq::empty());
        reveal_with_fuel(storage::apply_ops, 3);
    }
}

proof fn lemma_keys_differ(collection: Seq<char>, a: Seq<u8>, b: Seq<u8>)
    requires
        a != b,
    ensures
        codec::stored_key(collection, a) != codec::stored_key(collection, b),
{
    let x = codec::stored_key(collection, a);
    let y = codec::stored_key(collection, b);
    if x == y {
        let n = x.len() - a.len();
        assert(x.skip(n) =~= a);
        assert(y.skip(n) =~= b);
    }
}

} // verus!
