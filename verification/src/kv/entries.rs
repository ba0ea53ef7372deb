//! What a reader sees of an entry before and after each request.
use crate::bytes;
use crate::dispatch::kv;
use crate::dispatch::kv::KvOp;
use crate::error::{ErrorView, LiteError};
use crate::kv::codec;
use crate::kv::execute;
use crate::kv::execute::KvRunView;
use crate::kv::fields;
use crate::kv::fields::Funds;
use crate::kv::laws::entry_at;
use crate::kv::writes;
use crate::kv::writes::FloatBase;
use crate::query::engine;
use crate::result::{Plan, PlanView};
use crate::storage;
use crate::storage::{Namespace, OpView, Store};
use crate::value::DatumView;
use crate::wire;
use vstd::prelude::*;
use vstd::utf8::encode_utf8;

verus! {

/// Where an entry is stored: under the name of its collection, a zero byte and
/// its key.
pub open spec fn place(collection: Seq<char>, key: Seq<u8>) -> (Namespace, Seq<u8>) {
    (Namespace::Kv, encode_utf8(collection) + seq![0u8] + key)
}

/// The deadline and the value that a reader sees at a time. What is stored begins
/// with the eight bytes of the deadline, the lowest first. An entry without a
/// deadline is always seen, any other before its deadline.
pub open spec fn seen(store: Store, collection: Seq<char>, key: Seq<u8>, at: u64) -> Option<
    (u64, Seq<u8>),
> {
    let raw = store[place(collection, key)];
    let deadline = bytes::from_le64(raw.take(8));
    if store.dom().contains(place(collection, key)) && raw.len() >= 8 && (deadline == 0 || at
        < deadline) {
        Some((deadline, raw.skip(8)))
    } else {
        None
    }
}

/// The deadline of an entry that is written now: none without a time to live, and
/// the latest time where the sum is later.
pub open spec fn until(now_ms: u64, ttl_ms: u64) -> u64 {
    if ttl_ms == 0 {
        0
    } else if now_ms + ttl_ms > u64::MAX {
        u64::MAX
    } else {
        (now_ms + ttl_ms) as u64
    }
}

/// Whether an entry holds a value under a deadline, and no other place of the
/// store has changed.
pub open spec fn sets(
    store: Store,
    after: Store,
    collection: Seq<char>,
    key: Seq<u8>,
    deadline: u64,
    value: Seq<u8>,
) -> bool {
    &&& forall|at: u64|
        #[trigger] seen(after, collection, key, at) == if deadline == 0 || at < deadline {
            Some((deadline, value))
        } else {
            None
        }
    &&& after.remove(place(collection, key)) == store.remove(place(collection, key))
}

proof fn lemma_put(store: Store, collection: Seq<char>, key: Seq<u8>, d: u64, value: Seq<u8>)
    ensures
        ({
            let raw = bytes::le64(d) + value;
            sets(store, store.insert(place(collection, key), raw), collection, key, d, value)
        }),
        codec::stored_value(d, value) == bytes::le64(d) + value,
{
    let raw = bytes::le64(d) + value;
    let after = store.insert(place(collection, key), raw);
    bytes::le64_round_trip(d);
    assert(raw.take(8) =~= bytes::le64(d));
    assert(raw.skip(8) =~= value);
    assert(after.remove(place(collection, key)) =~= store.remove(place(collection, key)));
}

proof fn lemma_single(store: Store, op: OpView)
    ensures
        storage::apply_ops(store, seq![op]) == storage::apply_op(store, op),
{
    assert(seq![op].drop_last() =~= Seq::empty());
    reveal_with_fuel(storage::apply_ops, 2);
}

/// A put sets the value of its entry until its time to live has passed, for ever
/// without one, and changes nothing else.
pub proof fn put_sets_one_entry(
    store: Store,
    collection: Seq<char>,
    key: Seq<u8>,
    value: Seq<u8>,
    ttl_ms: u64,
    now_ms: u64,
)
    ensures
        ({
            let plan = writes::put_plan(collection, key, value, ttl_ms, now_ms);
            let after = storage::apply_ops(store, plan.ops);
            sets(store, after, collection, key, until(now_ms, ttl_ms), value)
                && plan.result.rows_affected == 1
        }),
{
    let plan = writes::put_plan(collection, key, value, ttl_ms, now_ms);
    lemma_put(store, collection, key, until(now_ms, ttl_ms), value);
    lemma_single(store, plan.ops[0]);
    assert(plan.ops =~= seq![plan.ops[0]]);
}

/// Whether an entry of a batch is the last one that lists its key.
pub open spec fn last_of_its_key(entries: Seq<(Vec<u8>, Vec<u8>)>, i: int) -> bool {
    0 <= i < entries.len() && forall|j: int|
        i < j < entries.len() ==> (#[trigger] entries[j]).0@ != entries[i].0@
}

/// After a batch put the entry of each listed key holds the value that was listed
/// last for it, until the time to live has passed, for ever without one. No place
/// of another key changes, and every listed entry counts.
pub proof fn batch_put_keeps_the_last_value(
    store: Store,
    collection: Seq<char>,
    entries: Seq<(Vec<u8>, Vec<u8>)>,
    ttl_ms: u64,
    now_ms: u64,
    at: u64,
)
    requires
        entries.len() <= u64::MAX,
    ensures
        ({
            let plan = writes::batch_plan(collection, entries, ttl_ms, now_ms);
            let after = storage::apply_ops(store, plan.ops);
            let deadline = until(now_ms, ttl_ms);
            &&& forall|i: int| #[trigger]
                last_of_its_key(entries, i) ==> seen(after, collection, entries[i].0@, at) == if
                    deadline == 0 || at < deadline {
                    Some((deadline, entries[i].1@))
                } else {
                    None
                }
            &&& forall|p: (Namespace, Seq<u8>)|
                (forall|i: int|
                    0 <= i < entries.len() ==> p != place(
                        collection,
                        (#[trigger] entries[i]).0@,
                    )) ==> #[trigger] after.dom().contains(p) == store.dom().contains(p)
                    && after[p] == store[p]
            &&& plan.result.rows_affected == entries.len()
        }),
    decreases entries.len(),
{
    let deadline = until(now_ms, ttl_ms);
    let plan = writes::batch_plan(collection, entries, ttl_ms, now_ms);
    let after = storage::apply_ops(store, plan.ops);
    if entries.len() > 0 {
        let head = entries.drop_last();
        let last = entries.last();
        let less = writes::batch_plan(collection, head, ttl_ms, now_ms);
        let mid = storage::apply_ops(store, less.ops);
        batch_put_keeps_the_last_value(store, collection, head, ttl_ms, now_ms, at);
        assert(plan.ops.drop_last() =~= less.ops);
        lemma_put(mid, collection, last.0@, deadline, last.1@);
        assert(after == mid.insert(
            place(collection, last.0@),
            bytes::le64(deadline) + last.1@,
        ));
        assert(sets(mid, after, collection, last.0@, deadline, last.1@));
        assert forall|i: int| #[trigger] last_of_its_key(entries, i) implies seen(
            after,
            collection,
            entries[i].0@,
            at,
        ) == (if deadline == 0 || at < deadline {
            Some((deadline, entries[i].1@))
        } else {
            None
        }) by {
            if i < head.len() {
                assert(entries[entries.len() - 1].0@ != entries[i].0@);
                assert forall|j: int| i < j < head.len() implies (#[trigger] head[j]).0@
                    != head[i].0@ by {
                    assert(entries[j].0@ != entries[i].0@);
                }
                assert(last_of_its_key(head, i));
                lemma_places_differ(collection, entries[i].0@, last.0@);
            }
        }
        assert forall|p: (Namespace, Seq<u8>)|
            (forall|i: int|
                0 <= i < entries.len() ==> p != place(
                    collection,
                    (#[trigger] entries[i]).0@,
                )) implies #[trigger] after.dom().contains(p) == store.dom().contains(p)
            && after[p] == store[p] by {
            assert(p != place(collection, entries[entries.len() - 1].0@));
            assert forall|i: int| 0 <= i < head.len() implies p != place(
                collection,
                (#[trigger] head[i]).0@,
            ) by {
                assert(p != place(collection, entries[i].0@));
            }
            assert(mid.dom().contains(p) == store.dom().contains(p));
        }
    }
}

proof fn lemma_places_differ(collection: Seq<char>, a: Seq<u8>, b: Seq<u8>)
    requires
        a != b,
    ensures
        place(collection, a) != place(collection, b),
{
    let x = place(collection, a).1;
    let y = place(collection, b).1;
    if x == y {
        let n = x.len() - a.len();
        assert(x.skip(n) =~= a);
        assert(y.skip(n) =~= b);
    }
}

/// The store after several puts, one request each.
pub open spec fn put_each(
    store: Store,
    collection: Seq<char>,
    entries: Seq<(Vec<u8>, Vec<u8>)>,
    ttl_ms: u64,
    now_ms: u64,
) -> Store
    decreases entries.len(),
{
    if entries.len() == 0 {
        store
    } else {
        storage::apply_ops(
            put_each(store, collection, entries.drop_last(), ttl_ms, now_ms),
            writes::put_plan(
                collection,
                entries.last().0@,
                entries.last().1@,
                ttl_ms,
                now_ms,
            ).ops,
        )
    }
}

/// A batch put leaves the store as putting its entries one by one does.
pub proof fn batch_put_is_one_put_each(
    store: Store,
    collection: Seq<char>,
    entries: Seq<(Vec<u8>, Vec<u8>)>,
    ttl_ms: u64,
    now_ms: u64,
)
    ensures
        storage::apply_ops(store, writes::batch_plan(collection, entries, ttl_ms, now_ms).ops)
            == put_each(store, collection, entries, ttl_ms, now_ms),
    decreases entries.len(),
{
    let ops = writes::batch_plan(collection, entries, ttl_ms, now_ms).ops;
    if entries.len() > 0 {
        let head = entries.drop_last();
        batch_put_is_one_put_each(store, collection, head, ttl_ms, now_ms);
        assert(ops.drop_last() =~= writes::batch_plan(collection, head, ttl_ms, now_ms).ops);
        let put = writes::put_plan(
            collection,
            entries.last().0@,
            entries.last().1@,
            ttl_ms,
            now_ms,
        ).ops;
        assert(put =~= seq![ops.last()]);
        lemma_single(put_each(store, collection, head, ttl_ms, now_ms), ops.last());
    }
}

/// An insert of an entry that a reader sees is refused, and one that is to be
/// passed over writes nothing. Any other insert sets the entry as a put does.
pub proof fn insert_keeps_what_is_seen(
    store: Store,
    collection: Seq<char>,
    key: Seq<u8>,
    value: Seq<u8>,
    ttl_ms: u64,
    now_ms: u64,
)
    ensures
        ({
            let stored = entry_at(store, collection, key);
            let strict = writes::insert_plan(stored, collection, key, value, ttl_ms, now_ms);
            let lenient = writes::absent_plan(stored, collection, key, value, ttl_ms, now_ms);
            if seen(store, collection, key, now_ms) is Some {
                &&& strict is Err
                &&& strict->Err_0 is BadRequest
                &&& storage::apply_ops(store, lenient.ops) == store
                &&& lenient.result.rows_affected == 0
            } else {
                &&& strict is Ok
                &&& strict->Ok_0.result.rows_affected == 1
                &&& lenient.result.rows_affected == 1
                &&& sets(
                    store,
                    storage::apply_ops(store, strict->Ok_0.ops),
                    collection,
                    key,
                    until(now_ms, ttl_ms),
                    value,
                )
                &&& sets(
                    store,
                    storage::apply_ops(store, lenient.ops),
                    collection,
                    key,
                    until(now_ms, ttl_ms),
                    value,
                )
            }
        }),
{
    lemma_seen(store, collection, key, now_ms);
    put_sets_one_entry(store, collection, key, value, ttl_ms, now_ms);
}

proof fn lemma_seen(store: Store, collection: Seq<char>, key: Seq<u8>, at: u64)
    ensures
        codec::live_entry(entry_at(store, collection, key), at) == seen(store, collection, key, at),
{
}

/// Whether an entry is stored with a deadline and a value, seen or not.
pub open spec fn stored_as(
    store: Store,
    collection: Seq<char>,
    key: Seq<u8>,
    deadline: u64,
    value: Seq<u8>,
) -> bool {
    let raw = store[place(collection, key)];
    store.dom().contains(place(collection, key)) && raw.len() >= 8 && bytes::from_le64(raw.take(8))
        == deadline && raw.skip(8) == value
}

/// Expiring a stored entry keeps its value and lets it be seen for its new time to
/// live; persisting it keeps its value for ever. Nothing else changes. Where
/// nothing is stored, nothing is written and nothing counts.
pub proof fn expire_and_persist_keep_the_value(
    store: Store,
    collection: Seq<char>,
    key: Seq<u8>,
    deadline: u64,
    value: Seq<u8>,
    ttl_ms: u64,
    now_ms: u64,
)
    ensures
        ({
            let stored = entry_at(store, collection, key);
            let later = codec::saturating_sum(now_ms, ttl_ms);
            let expire = writes::redate_plan(stored, collection, key, later);
            let persist = writes::redate_plan(stored, collection, key, 0);
            &&& later == if now_ms + ttl_ms > u64::MAX {
                u64::MAX as int
            } else {
                now_ms + ttl_ms
            }
            &&& stored_as(store, collection, key, deadline, value) ==> {
                &&& expire is Ok && expire->Ok_0.result.rows_affected == 1
                &&& persist is Ok && persist->Ok_0.result.rows_affected == 1
                &&& sets(
                    store,
                    storage::apply_ops(store, expire->Ok_0.ops),
                    collection,
                    key,
                    later,
                    value,
                )
                &&& sets(
                    store,
                    storage::apply_ops(store, persist->Ok_0.ops),
                    collection,
                    key,
                    0,
                    value,
                )
            }
            &&& !store.dom().contains(place(collection, key)) ==> {
                &&& expire is Ok && expire->Ok_0.result.rows_affected == 0
                &&& persist is Ok && persist->Ok_0.result.rows_affected == 0
                &&& storage::apply_ops(store, expire->Ok_0.ops) == store
                &&& storage::apply_ops(store, persist->Ok_0.ops) == store
            }
        }),
{
    let stored = entry_at(store, collection, key);
    let later = codec::saturating_sum(now_ms, ttl_ms);
    if stored_as(store, collection, key, deadline, value) {
        let expire = writes::redate_plan(stored, collection, key, later)->Ok_0.ops;
        let persist = writes::redate_plan(stored, collection, key, 0)->Ok_0.ops;
        lemma_put(store, collection, key, later, value);
        lemma_put(store, collection, key, 0, value);
        lemma_single(store, expire[0]);
        lemma_single(store, persist[0]);
        assert(expire =~= seq![expire[0]]);
        assert(persist =~= seq![persist[0]]);
    }
}

/// An increment adds to the integer that a reader sees, or to zero where none is
/// seen. The sum is answered and stored, under a new deadline where a time to live
/// is given, else under the one before. A sum that is no 64-bit integer is
/// refused, and so is a value that is no integer.
pub proof fn increment_adds_to_what_is_seen(
    store: Store,
    collection: Seq<char>,
    key: Seq<u8>,
    delta: i64,
    ttl_ms: u64,
    now_ms: u64,
)
    requires
        store.dom().contains(place(collection, key)) ==> store[place(collection, key)].len() >= 8,
    ensures
        ({
            let entry = seen(store, collection, key, now_ms);
            let r = writes::incr_plan(
                entry_at(store, collection, key),
                collection,
                key,
                delta,
                ttl_ms,
                now_ms,
            );
            let number = match entry {
                Some((_, value)) => wire::decoded_i64(value),
                None => Some(0i64),
            };
            let kept = match entry {
                Some((deadline, _)) => deadline,
                None => 0u64,
            };
            match number {
                None => r is Err && r->Err_0 is TypeMismatch,
                Some(n) => if i64::MIN <= n + delta <= i64::MAX {
                    &&& r is Ok
                    &&& sets(
                        store,
                        storage::apply_ops(store, r->Ok_0.ops),
                        collection,
                        key,
                        if ttl_ms > 0 {
                            until(now_ms, ttl_ms)
                        } else {
                            kept
                        },
                        wire::encoded_i64((n + delta) as i64),
                    )
                    &&& r->Ok_0.result.rows[0][0] == DatumView::Integer((n + delta) as i64)
                } else {
                    r is Err && r->Err_0 is BadRequest
                },
            }
        }),
{
    lemma_seen(store, collection, key, now_ms);
    let r = writes::incr_plan(
        entry_at(store, collection, key),
        collection,
        key,
        delta,
        ttl_ms,
        now_ms,
    );
    if let Ok(p) = r {
        let (n, kept) = writes::counter(entry_at(store, collection, key), now_ms)->Ok_0;
        let d = if ttl_ms > 0 {
            until(now_ms, ttl_ms)
        } else {
            kept
        };
        lemma_put(store, collection, key, d, wire::encoded_i64((n + delta) as i64));
        lemma_single(store, p.ops[0]);
        assert(p.ops =~= seq![p.ops[0]]);
    }
}

/// A compare-and-swap sets the new value where a reader sees the expected one, and
/// keeps its deadline. Where another value is seen, nothing is written. An entry
/// that is not seen counts as empty. The answer says whether it was set, and what
/// was seen.
pub proof fn swap_compares_with_what_is_seen(
    store: Store,
    collection: Seq<char>,
    key: Seq<u8>,
    expected: Seq<u8>,
    new_value: Seq<u8>,
    now_ms: u64,
)
    ensures
        ({
            let (kept, current) = match seen(store, collection, key, now_ms) {
                Some((deadline, value)) => (deadline, value),
                None => (0u64, Seq::<u8>::empty()),
            };
            let plan = writes::cas_plan(
                entry_at(store, collection, key),
                collection,
                key,
                expected,
                new_value,
                now_ms,
            );
            let after = storage::apply_ops(store, plan.ops);
            &&& plan.result.rows[0][0] == DatumView::Bool(current == expected)
            &&& plan.result.rows[0][1] == DatumView::Bytes(current)
            &&& current == expected ==> sets(store, after, collection, key, kept, new_value)
                && plan.result.rows_affected == 1
            &&& current != expected ==> after == store && plan.result.rows_affected == 0
        }),
{
    lemma_seen(store, collection, key, now_ms);
    let (current, kept) = writes::swap_base(entry_at(store, collection, key), now_ms);
    let plan = writes::cas_plan(
        entry_at(store, collection, key),
        collection,
        key,
        expected,
        new_value,
        now_ms,
    );
    if current == expected {
        lemma_put(store, collection, key, kept, new_value);
        lemma_single(store, plan.ops[0]);
        assert(plan.ops =~= seq![plan.ops[0]]);
    }
}

/// A replacement sets the new value, keeps the deadline of the entry that was
/// seen, and answers with its value, null where none was seen.
pub proof fn replacement_answers_with_what_was_seen(
    store: Store,
    collection: Seq<char>,
    key: Seq<u8>,
    new_value: Seq<u8>,
    now_ms: u64,
)
    ensures
        ({
            let entry = seen(store, collection, key, now_ms);
            let plan = writes::get_set_plan(
                entry_at(store, collection, key),
                collection,
                key,
                new_value,
                now_ms,
            );
            &&& sets(
                store,
                storage::apply_ops(store, plan.ops),
                collection,
                key,
                match entry {
                    Some((deadline, _)) => deadline,
                    None => 0u64,
                },
                new_value,
            )
            &&& plan.result.rows[0][0] == match entry {
                Some((_, value)) => DatumView::Bytes(value),
                None => DatumView::Null,
            }
        }),
{
    lemma_seen(store, collection, key, now_ms);
    let plan = writes::get_set_plan(
        entry_at(store, collection, key),
        collection,
        key,
        new_value,
        now_ms,
    );
    let (_, kept) = writes::replaced(entry_at(store, collection, key), now_ms);
    lemma_put(store, collection, key, kept, new_value);
    lemma_single(store, plan.ops[0]);
    assert(plan.ops =~= seq![plan.ops[0]]);
}

/// A delete takes every listed entry away and no other place, and counts each
/// listed key.
pub proof fn delete_takes_the_listed_entries(
    store: Store,
    collection: Seq<char>,
    keys: Seq<Vec<u8>>,
    p: (Namespace, Seq<u8>),
)
    requires
        keys.len() <= u64::MAX,
    ensures
        ({
            let plan = writes::delete_plan(collection, keys);
            let after = storage::apply_ops(store, plan.ops);
            let listed = exists|i: int|
                0 <= i < keys.len() && p == place(collection, (#[trigger] keys[i])@);
            &&& plan.result.rows_affected == keys.len()
            &&& listed ==> !after.dom().contains(p)
            &&& !listed ==> after.dom().contains(p) == store.dom().contains(p) && after[p]
                == store[p]
        }),
    decreases keys.len(),
{
    if keys.len() > 0 {
        let head = keys.drop_last();
        delete_takes_the_listed_entries(store, collection, head, p);
        let ops = writes::delete_plan(collection, keys).ops;
        assert(ops.drop_last() =~= writes::delete_plan(collection, head).ops);
        let listed = exists|i: int|
            0 <= i < keys.len() && p == place(collection, (#[trigger] keys[i])@);
        if listed {
            let i = choose|i: int|
                0 <= i < keys.len() && p == place(collection, (#[trigger] keys[i])@);
            if i < head.len() {
                assert(p == place(collection, head[i]@));
            }
        } else {
            assert(p != place(collection, keys[keys.len() - 1]@));
            assert forall|i: int| 0 <= i < head.len() implies p != place(
                collection,
                (#[trigger] head[i])@,
            ) by {
                assert(p != place(collection, keys[i]@));
            }
        }
    }
}

/// Whether an update is the last one that names its field.
pub open spec fn last_of_its_field(updates: Seq<(Seq<char>, Seq<u8>)>, i: int) -> bool {
    0 <= i < updates.len() && forall|j: int|
        i < j < updates.len() ==> (#[trigger] updates[j]).0 != updates[i].0
}

/// Whether an update names a field.
pub open spec fn named(updates: Seq<(Seq<char>, Seq<u8>)>, field: Seq<char>) -> bool {
    exists|i: int| 0 <= i < updates.len() && (#[trigger] updates[i]).0 == field
}

/// Whether fields are those before with the updates made: each field that is named
/// holds the value that was named last for it, and every other field is as before.
pub open spec fn merges(
    before: Map<Seq<char>, nodedb_types::Value>,
    updates: Seq<(Seq<char>, Seq<u8>)>,
    after: Map<Seq<char>, nodedb_types::Value>,
) -> bool {
    &&& forall|i: int| #[trigger]
        last_of_its_field(updates, i) ==> after.dom().contains(updates[i].0)
            && wire::decoded_native(updates[i].1) == Ok::<nodedb_types::Value, Seq<char>>(
            after[updates[i].0],
        )
    &&& forall|field: Seq<char>|
        !named(updates, field) ==> #[trigger] after.dom().contains(field) == before.dom().contains(
            field,
        ) && after[field] == before[field]
}

/// Updates of fields, made in order, leave each field with the value that was
/// named last for it.
pub proof fn updates_merge(
    before: Map<Seq<char>, nodedb_types::Value>,
    updates: Seq<(Seq<char>, Seq<u8>)>,
)
    requires
        fields::all_decode(updates),
    ensures
        merges(before, updates, fields::updated(before, updates)),
    decreases updates.len(),
{
    if updates.len() > 0 {
        let head = updates.drop_last();
        let n = updates.len() - 1;
        assert forall|j: int| 0 <= j < head.len() implies wire::decoded_native(
            (#[trigger] head[j]).1,
        ) is Ok by {
            assert(wire::decoded_native(updates[j].1) is Ok);
        }
        updates_merge(before, head);
        let mid = fields::updated(before, head);
        let after = fields::updated(before, updates);
        assert(wire::decoded_native(updates[n].1) is Ok);
        assert forall|i: int| #[trigger] last_of_its_field(updates, i) implies after.dom().contains(
            updates[i].0,
        ) && wire::decoded_native(updates[i].1) == Ok::<nodedb_types::Value, Seq<char>>(
            after[updates[i].0],
        ) by {
            if i < n {
                assert(updates[n].0 != updates[i].0);
                assert forall|j: int| i < j < head.len() implies (#[trigger] head[j]).0
                    != head[i].0 by {
                    assert(updates[j].0 != updates[i].0);
                }
                assert(last_of_its_field(head, i));
            }
        }
        assert forall|field: Seq<char>|
            !named(updates, field) implies #[trigger] after.dom().contains(field)
            == before.dom().contains(field) && after[field] == before[field] by {
            assert(updates[n].0 != field);
            assert(!named(head, field)) by {
                if named(head, field) {
                    let i = choose|i: int| 0 <= i < head.len() && (#[trigger] head[i]).0 == field;
                    assert(updates[i].0 == field);
                }
            }
            assert(mid.dom().contains(field) == before.dom().contains(field));
        }
    }
}

/// Whether an entry holds a map of fields under a deadline, as a reader decodes
/// it, and no other place of the store has changed.
pub open spec fn sets_fields(
    store: Store,
    after: Store,
    collection: Seq<char>,
    key: Seq<u8>,
    deadline: u64,
    map: Map<Seq<char>, nodedb_types::Value>,
) -> bool {
    exists|value: Seq<u8>| #[trigger]
        sets(store, after, collection, key, deadline, value) && wire::encodes_fields(value, map)
}

proof fn lemma_stores(
    store: Store,
    plan: PlanView,
    collection: Seq<char>,
    key: Seq<u8>,
    deadline: u64,
    map: Map<Seq<char>, nodedb_types::Value>,
)
    requires
        plan.ops.len() == 1,
        plan.ops[0] matches OpView::Put { ns, key: k, value } && ns == Namespace::Kv && k == place(
            collection,
            key,
        ).1 && {
            &&& value.len() >= 8
            &&& bytes::from_le64(value.take(8)) == deadline
            &&& wire::encodes_fields(value.skip(8), map)
        },
    ensures
        sets_fields(
            store,
            storage::apply_ops(store, plan.ops),
            collection,
            key,
            deadline,
            map,
        ),
{
    let value = plan.ops[0]->Put_value;
    let after = storage::apply_ops(store, plan.ops);
    lemma_single(store, plan.ops[0]);
    assert(plan.ops =~= seq![plan.ops[0]]);
    assert(after.remove(place(collection, key)) =~= store.remove(place(collection, key)));
    assert(sets(store, after, collection, key, deadline, value.skip(8)));
}

/// A field update merges into the fields of the entry that a reader sees, under
/// its deadline. Where none is seen, it writes a new entry without a deadline, or
/// nothing where the entry has to be there. An update that cannot be decoded is
/// refused.
pub proof fn field_update_merges_into_what_is_seen(
    store: Store,
    collection: Seq<char>,
    key: Seq<u8>,
    updates: Seq<(Seq<char>, Seq<u8>)>,
    if_present: bool,
    now_ms: u64,
    r: Result<PlanView, ErrorView>,
)
    requires
        fields::field_set_spec(
            entry_at(store, collection, key),
            codec::stored_key(collection, key),
            updates,
            if_present,
            now_ms,
            r,
        ),
        store.dom().contains(place(collection, key)) ==> store[place(collection, key)].len() >= 8,
    ensures
        match seen(store, collection, key, now_ms) {
            Some((deadline, value)) => match wire::decoded_fields(value) {
                Err(_) => r is Err,
                Ok(before) => if fields::all_decode(updates) {
                    &&& r is Ok && r->Ok_0.result.rows_affected == 1
                    &&& exists|after: Map<Seq<char>, nodedb_types::Value>| #[trigger]
                        merges(before, updates, after) && sets_fields(
                            store,
                            storage::apply_ops(store, r->Ok_0.ops),
                            collection,
                            key,
                            deadline,
                            after,
                        )
                } else {
                    r is Err
                },
            },
            None => if if_present {
                r is Ok && r->Ok_0.result.rows_affected == 0 && storage::apply_ops(
                    store,
                    r->Ok_0.ops,
                ) == store
            } else if fields::all_decode(updates) {
                &&& r is Ok && r->Ok_0.result.rows_affected == 1
                &&& exists|after: Map<Seq<char>, nodedb_types::Value>| #[trigger]
                    merges(Map::empty(), updates, after) && sets_fields(
                        store,
                        storage::apply_ops(store, r->Ok_0.ops),
                        collection,
                        key,
                        0,
                        after,
                    )
            } else {
                r is Err
            },
        },
{
    lemma_seen(store, collection, key, now_ms);
    match fields::field_set_base(entry_at(store, collection, key), now_ms) {
        Err(_) => {},
        Ok((deadline, base, present)) => {
            if (present || !if_present) && r is Ok {
                updates_merge(base, updates);
                lemma_stores(
                    store,
                    r->Ok_0,
                    collection,
                    key,
                    deadline,
                    fields::updated(base, updates),
                );
                assert(merges(base, updates, fields::updated(base, updates)));
            }
            if (present || !if_present) && r is Err {
                let i = choose|i: int| #[trigger] fields::first_bad(updates, i);
                assert(wire::decoded_native(updates[i].1) is Err);
            }
        },
    }
}

/// An insert with conflict updates puts the value where no entry is seen, and
/// merges the updates into the fields of the entry where one is. Its deadline
/// changes only where a time to live is given.
pub proof fn conflict_update_merges_into_what_is_seen(
    store: Store,
    collection: Seq<char>,
    key: Seq<u8>,
    value: Seq<u8>,
    ttl_ms: u64,
    updates: Seq<(Seq<char>, Seq<u8>)>,
    now_ms: u64,
    r: Result<PlanView, ErrorView>,
)
    requires
        fields::conflict_update_spec(
            entry_at(store, collection, key),
            collection,
            key,
            value,
            ttl_ms,
            updates,
            now_ms,
            r,
        ),
    ensures
        match seen(store, collection, key, now_ms) {
            None => r is Ok && r->Ok_0.result.rows_affected == 1 && sets(
                store,
                storage::apply_ops(store, r->Ok_0.ops),
                collection,
                key,
                until(now_ms, ttl_ms),
                value,
            ),
            Some((deadline, old_value)) => match wire::decoded_fields(old_value) {
                Err(_) => r is Err,
                Ok(before) => if fields::all_decode(updates) {
                    &&& r is Ok && r->Ok_0.result.rows_affected == 1
                    &&& exists|after: Map<Seq<char>, nodedb_types::Value>| #[trigger]
                        merges(before, updates, after) && sets_fields(
                            store,
                            storage::apply_ops(store, r->Ok_0.ops),
                            collection,
                            key,
                            if ttl_ms > 0 {
                                until(now_ms, ttl_ms)
                            } else {
                                deadline
                            },
                            after,
                        )
                } else {
                    r is Err
                },
            },
        },
{
    lemma_seen(store, collection, key, now_ms);
    match seen(store, collection, key, now_ms) {
        None => {
            put_sets_one_entry(store, collection, key, value, ttl_ms, now_ms);
        },
        Some((deadline, old_value)) => {
            if let Ok(base) = wire::decoded_fields(old_value) {
                if r is Ok {
                    updates_merge(base, updates);
                    lemma_stores(
                        store,
                        r->Ok_0,
                        collection,
                        key,
                        if ttl_ms > 0 {
                            until(now_ms, ttl_ms)
                        } else {
                            deadline
                        },
                        fields::updated(base, updates),
                    );
                    assert(merges(base, updates, fields::updated(base, updates)));
                } else {
                    let i = choose|i: int| #[trigger] fields::first_bad(updates, i);
                    assert(wire::decoded_native(updates[i].1) is Err);
                }
            }
        },
    }
}

/// Whether an entry holds a map of fields under a deadline, as a reader decodes it.
pub open spec fn holds_map(
    store: Store,
    collection: Seq<char>,
    key: Seq<u8>,
    deadline: u64,
    map: Map<Seq<char>, nodedb_types::Value>,
) -> bool {
    exists|value: Seq<u8>| #[trigger]
        stored_as(store, collection, key, deadline, value) && wire::encodes_fields(value, map)
}

/// A transfer between two entries of numbers, where the source is seen and holds
/// enough, gives each entry its new balance under the field. Their other fields and
/// deadlines and every other place stay. A destination that is not stored starts
/// without fields and deadline.
pub proof fn transfer_moves_between_what_is_stored(
    store: Store,
    collection: Seq<char>,
    source_key: Seq<u8>,
    dest_key: Seq<u8>,
    field: Seq<char>,
    now_ms: u64,
    deadline: u64,
    source: Seq<u8>,
    dest_deadline: u64,
    dest: Seq<u8>,
    source_balance: nodedb_types::Value,
    dest_balance: nodedb_types::Value,
    r: Result<PlanView, ErrorView>,
)
    requires
        source_key != dest_key,
        engine::native_kind_of(source_balance) is Float,
        engine::native_kind_of(dest_balance) is Float,
        seen(store, collection, source_key, now_ms) == Some((deadline, source)),
        wire::decoded_fields(source) is Ok,
        wire::decoded_fields(source)->Ok_0.dom().contains(field) ==> engine::native_kind_of(
            wire::decoded_fields(source)->Ok_0[field],
        ) is Float || engine::native_kind_of(wire::decoded_fields(source)->Ok_0[field]) is Integer,
        store.dom().contains(place(collection, dest_key)) ==> stored_as(
            store,
            collection,
            dest_key,
            dest_deadline,
            dest,
        ) && wire::decoded_fields(dest) is Ok,
        fields::transfer_spec(
            entry_at(store, collection, source_key),
            entry_at(store, collection, dest_key),
            collection,
            source_key,
            dest_key,
            field,
            now_ms,
            Funds::Enough { source: source_balance, dest: dest_balance },
            r,
        ),
    ensures
        r is Ok,
        r->Ok_0.result.rows_affected == 2,
        ({
            let after = storage::apply_ops(store, r->Ok_0.ops);
            let known = store.dom().contains(place(collection, dest_key));
            &&& holds_map(
                after,
                collection,
                source_key,
                deadline,
                wire::decoded_fields(source)->Ok_0.insert(field, source_balance),
            )
            &&& holds_map(
                after,
                collection,
                dest_key,
                if known {
                    dest_deadline
                } else {
                    0
                },
                if known {
                    wire::decoded_fields(dest)->Ok_0.insert(field, dest_balance)
                } else {
                    map![field => dest_balance]
                },
            )
            &&& after.remove(place(collection, source_key)).remove(place(collection, dest_key))
                == store.remove(place(collection, source_key)).remove(place(collection, dest_key))
        }),
{
    lemma_seen(store, collection, source_key, now_ms);
    lemma_places_differ(collection, source_key, dest_key);
    let ops = r->Ok_0.ops;
    let after = storage::apply_ops(store, ops);
    assert(ops.drop_last() =~= seq![ops[0]]);
    assert(seq![ops[0]].drop_last() =~= Seq::empty());
    reveal_with_fuel(storage::apply_ops, 3);
    let a = ops[0]->Put_value;
    let b = ops[1]->Put_value;
    assert(stored_as(after, collection, source_key, deadline, a.skip(8)));
    let known = store.dom().contains(place(collection, dest_key));
    let d = if known {
        dest_deadline
    } else {
        0
    };
    assert(stored_as(after, collection, dest_key, d, b.skip(8)));
    assert(map![field => dest_balance] =~= Map::<Seq<char>, nodedb_types::Value>::empty().insert(
        field,
        dest_balance,
    ));
    assert(after.remove(place(collection, source_key)).remove(place(collection, dest_key))
        =~= store.remove(place(collection, source_key)).remove(place(collection, dest_key)));
}

/// A transfer that the source cannot cover, from a source that is not seen or
/// whose field is no number, is refused.
pub proof fn uncovered_transfer_is_refused(
    store: Store,
    collection: Seq<char>,
    source_key: Seq<u8>,
    dest_key: Seq<u8>,
    field: Seq<char>,
    now_ms: u64,
    funds: Funds,
    r: Result<PlanView, ErrorView>,
)
    requires
        fields::transfer_spec(
            entry_at(store, collection, source_key),
            entry_at(store, collection, dest_key),
            collection,
            source_key,
            dest_key,
            field,
            now_ms,
            funds,
            r,
        ),
        funds is Insufficient || seen(store, collection, source_key, now_ms) is None || ({
            let map = wire::decoded_fields(seen(store, collection, source_key, now_ms)->Some_0.1);
            map is Err || (map->Ok_0.dom().contains(field) && !(engine::native_kind_of(
                map->Ok_0[field],
            ) is Float || engine::native_kind_of(map->Ok_0[field]) is Integer))
        }),
    ensures
        r is Err,
{
    lemma_seen(store, collection, source_key, now_ms);
}

/// Moving an item that a reader sees takes it from its place and sets it, for
/// ever, where it goes. An item that is not seen is refused.
pub proof fn moved_item_is_seen_where_it_went(
    store: Store,
    source_collection: Seq<char>,
    dest_collection: Seq<char>,
    item_key: Seq<u8>,
    dest_key: Seq<u8>,
    now_ms: u64,
)
    ensures
        ({
            let from = place(source_collection, item_key);
            let r = fields::transfer_item_spec(
                entry_at(store, source_collection, item_key),
                source_collection,
                dest_collection,
                item_key,
                dest_key,
                now_ms,
            );
            match seen(store, source_collection, item_key, now_ms) {
                None => r is Err,
                Some((_, item)) => r is Ok && r->Ok_0.result.rows_affected == 1 && sets(
                    store.remove(from),
                    storage::apply_ops(store, r->Ok_0.ops),
                    dest_collection,
                    dest_key,
                    0,
                    item,
                ),
            }
        }),
{
    lemma_seen(store, source_collection, item_key, now_ms);
    if let Some((_, item)) = seen(store, source_collection, item_key, now_ms) {
        let from = place(source_collection, item_key);
        let ops = fields::transfer_item_spec(
            entry_at(store, source_collection, item_key),
            source_collection,
            dest_collection,
            item_key,
            dest_key,
            now_ms,
        )->Ok_0.ops;
        assert(ops.drop_last() =~= seq![ops[0]]);
        assert(seq![ops[0]].drop_last() =~= Seq::empty());
        reveal_with_fuel(storage::apply_ops, 3);
        lemma_put(store.remove(from), dest_collection, dest_key, 0, item);
    }
}

/// Whether the outcome of running an operation is a plan that sets one entry.
pub open spec fn run_sets(
    store: Store,
    r: Result<KvRunView, ErrorView>,
    collection: Seq<char>,
    key: Seq<u8>,
    deadline: u64,
    value: Seq<u8>,
) -> bool {
    r matches Ok(KvRunView::Planned(p)) && p.result.rows_affected == 1 && sets(
        store,
        storage::apply_ops(store, p.ops),
        collection,
        key,
        deadline,
        value,
    )
}

/// The entry that an operation on one entry reads.
pub open spec fn read_entry(store: Store, op: &KvOp) -> Option<Seq<u8>> {
    match op {
        KvOp::Insert { collection, key, .. } => entry_at(store, collection@, key@),
        KvOp::InsertIfAbsent { collection, key, .. } => entry_at(store, collection@, key@),
        KvOp::Expire { collection, key, .. } => entry_at(store, collection@, key@),
        KvOp::Persist { collection, key, .. } => entry_at(store, collection@, key@),
        KvOp::Incr { collection, key, .. } => entry_at(store, collection@, key@),
        KvOp::Cas { collection, key, .. } => entry_at(store, collection@, key@),
        KvOp::GetSet { collection, key, .. } => entry_at(store, collection@, key@),
        _ => None,
    }
}

/// What is to be seen once an operation that is not refused has run: a put, an
/// insert and a batch hold the values that they carry, an expired or persisted
/// entry its own, a counter the sum, and a swapped or replaced entry the new value.
pub open spec fn fulfilled(
    op: &KvOp,
    store: Store,
    now_ms: u64,
    r: Result<KvRunView, ErrorView>,
) -> bool {
    match op {
        KvOp::Put { collection, key, value, ttl_ms, .. } => run_sets(
            store,
            r,
            collection@,
            key@,
            until(now_ms, *ttl_ms),
            value@,
        ),
        KvOp::Insert { collection, key, value, ttl_ms, .. } => if seen(
            store,
            collection@,
            key@,
            now_ms,
        ) is Some {
            r is Err
        } else {
            run_sets(store, r, collection@, key@, until(now_ms, *ttl_ms), value@)
        },
        KvOp::InsertIfAbsent { collection, key, value, ttl_ms, .. } => if seen(
            store,
            collection@,
            key@,
            now_ms,
        ) is Some {
            r matches Ok(KvRunView::Planned(p)) && storage::apply_ops(store, p.ops) == store
                && p.result.rows_affected == 0
        } else {
            run_sets(store, r, collection@, key@, until(now_ms, *ttl_ms), value@)
        },
        KvOp::BatchPut { collection, entries, ttl_ms, .. } => r matches Ok(KvRunView::Planned(p))
            && p.result.rows_affected == entries@.len() && forall|i: int, at: u64|
            last_of_its_key(entries@, i) ==> #[trigger] seen(
                storage::apply_ops(store, p.ops),
                collection@,
                entries@[i].0@,
                at,
            ) == if until(now_ms, *ttl_ms) == 0 || at < until(now_ms, *ttl_ms) {
                Some((until(now_ms, *ttl_ms), entries@[i].1@))
            } else {
                None
            },
        KvOp::Delete { collection, keys, .. } => r matches Ok(KvRunView::Planned(p)) && forall|
            i: int,
        |
            0 <= i < keys@.len() ==> !storage::apply_ops(store, p.ops).dom().contains(
                place(collection@, (#[trigger] keys@[i])@),
            ),
        KvOp::Expire { collection, key, ttl_ms, .. } => forall|deadline: u64, value: Seq<u8>|
            #[trigger] stored_as(store, collection@, key@, deadline, value) ==> run_sets(
                store,
                r,
                collection@,
                key@,
                if now_ms + *ttl_ms > u64::MAX {
                    u64::MAX
                } else {
                    (now_ms + *ttl_ms) as u64
                },
                value,
            ),
        KvOp::Persist { collection, key, .. } => forall|deadline: u64, value: Seq<u8>|
            #[trigger] stored_as(store, collection@, key@, deadline, value) ==> run_sets(
                store,
                r,
                collection@,
                key@,
                0,
                value,
            ),
        KvOp::Incr { collection, key, delta, ttl_ms, .. } => match seen(
            store,
            collection@,
            key@,
            now_ms,
        ) {
            Some((deadline, value)) => match wire::decoded_i64(value) {
                None => r is Err,
                Some(n) => if i64::MIN <= n + *delta <= i64::MAX {
                    run_sets(
                        store,
                        r,
                        collection@,
                        key@,
                        if *ttl_ms > 0 {
                            until(now_ms, *ttl_ms)
                        } else {
                            deadline
                        },
                        wire::encoded_i64((n + *delta) as i64),
                    )
                } else {
                    r is Err
                },
            },
            None => store.dom().contains(place(collection@, key@)) || run_sets(
                store,
                r,
                collection@,
                key@,
                until(now_ms, *ttl_ms),
                wire::encoded_i64(*delta),
            ),
        },
        KvOp::Cas { collection, key, expected, new_value, .. } => {
            let (kept, current) = match seen(store, collection@, key@, now_ms) {
                Some((deadline, value)) => (deadline, value),
                None => (0u64, Seq::<u8>::empty()),
            };
            if current == expected@ {
                run_sets(store, r, collection@, key@, kept, new_value@)
            } else {
                r matches Ok(KvRunView::Planned(p)) && storage::apply_ops(store, p.ops) == store
                    && p.result.rows_affected == 0
            }
        },
        KvOp::GetSet { collection, key, new_value, .. } => run_sets(
            store,
            r,
            collection@,
            key@,
            match seen(store, collection@, key@, now_ms) {
                Some((deadline, _)) => deadline,
                None => 0u64,
            },
            new_value@,
        ),
        _ => true,
    }
}

/// An operation on entries that no policy refuses does what it is for.
pub proof fn operations_are_fulfilled<'a>(
    op: &'a KvOp,
    store: Store,
    scanned: Seq<Vec<u8>>,
    now_ms: u64,
    r: Result<KvRunView<'a>, ErrorView>,
)
    requires
        execute::ran(op, read_entry(store, op), scanned, now_ms, r),
        kv::route(op) is Ok,
        op matches KvOp::BatchPut { entries, .. } ==> entries@.len() <= u64::MAX,
        op matches KvOp::Delete { keys, .. } ==> keys@.len() <= u64::MAX,
    ensures
        fulfilled(op, store, now_ms, r),
{
    match op {
        KvOp::Put { collection, key, value, ttl_ms, .. } => {
            put_sets_one_entry(store, collection@, key@, value@, *ttl_ms, now_ms);
        },
        KvOp::Insert { collection, key, value, ttl_ms, .. } => {
            insert_keeps_what_is_seen(store, collection@, key@, value@, *ttl_ms, now_ms);
        },
        KvOp::InsertIfAbsent { collection, key, value, ttl_ms, .. } => {
            insert_keeps_what_is_seen(store, collection@, key@, value@, *ttl_ms, now_ms);
        },
        KvOp::BatchPut { collection, entries, ttl_ms, .. } => {
            let p = writes::batch_plan(collection@, entries@, *ttl_ms, now_ms);
            batch_put_keeps_the_last_value(store, collection@, entries@, *ttl_ms, now_ms, 0);
            assert forall|i: int, at: u64| last_of_its_key(entries@, i) implies #[trigger] seen(
                storage::apply_ops(store, p.ops),
                collection@,
                entries@[i].0@,
                at,
            ) == (if until(now_ms, *ttl_ms) == 0 || at < until(now_ms, *ttl_ms) {
                Some((until(now_ms, *ttl_ms), entries@[i].1@))
            } else {
                None
            }) by {
                batch_put_keeps_the_last_value(store, collection@, entries@, *ttl_ms, now_ms, at);
            }
        },
        KvOp::Delete { collection, keys, .. } => {
            let p = writes::delete_plan(collection@, keys@);
            assert forall|i: int| 0 <= i < keys@.len() implies !storage::apply_ops(
                store,
                p.ops,
            ).dom().contains(place(collection@, (#[trigger] keys@[i])@)) by {
                delete_takes_the_listed_entries(
                    store,
                    collection@,
                    keys@,
                    place(collection@, keys@[i]@),
                );
            }
        },
        KvOp::Expire { collection, key, ttl_ms, .. } => {
            assert forall|deadline: u64, value: Seq<u8>|
                #[trigger] stored_as(store, collection@, key@, deadline, value) implies run_sets(
                store,
                r,
                collection@,
                key@,
                if now_ms + *ttl_ms > u64::MAX {
                    u64::MAX
                } else {
                    (now_ms + *ttl_ms) as u64
                },
                value,
            ) by {
                expire_and_persist_keep_the_value(
                    store,
                    collection@,
                    key@,
                    deadline,
                    value,
                    *ttl_ms,
                    now_ms,
                );
            }
        },
        KvOp::Persist { collection, key, .. } => {
            assert forall|deadline: u64, value: Seq<u8>|
                #[trigger] stored_as(store, collection@, key@, deadline, value) implies run_sets(
                store,
                r,
                collection@,
                key@,
                0,
                value,
            ) by {
                expire_and_persist_keep_the_value(
                    store,
                    collection@,
                    key@,
                    deadline,
                    value,
                    0,
                    now_ms,
                );
            }
        },
        KvOp::Incr { collection, key, delta, ttl_ms, .. } => {
            if store.dom().contains(place(collection@, key@)) ==> store[place(
                collection@,
                key@,
            )].len() >= 8 {
                increment_adds_to_what_is_seen(
                    store,
                    collection@,
                    key@,
                    *delta,
                    *ttl_ms,
                    now_ms,
                );
                increment_reports_one(store, collection@, key@, *delta, *ttl_ms, now_ms);
            }
        },
        KvOp::Cas { collection, key, expected, new_value, .. } => {
            swap_compares_with_what_is_seen(
                store,
                collection@,
                key@,
                expected@,
                new_value@,
                now_ms,
            );
        },
        KvOp::GetSet { collection, key, new_value, .. } => {
            replacement_answers_with_what_was_seen(
                store,
                collection@,
                key@,
                new_value@,
                now_ms,
            );
        },
        _ => {},
    }
}

/// An increment that succeeds counts one row.
pub proof fn increment_reports_one(
    store: Store,
    collection: Seq<char>,
    key: Seq<u8>,
    delta: i64,
    ttl_ms: u64,
    now_ms: u64,
)
    ensures
        writes::incr_plan(
            entry_at(store, collection, key),
            collection,
            key,
            delta,
            ttl_ms,
            now_ms,
        ) matches Ok(p) ==> p.result.rows_affected == 1,
{
}

/// A float counter starts from the float that a reader sees in its entry and
/// keeps the deadline, or from nothing where no entry is seen. An entry that is
/// seen and holds no float is refused.
pub proof fn float_counter_starts_from_what_is_seen(
    raw: &[u8],
    now_ms: u64,
    r: Result<FloatBase, LiteError>,
)
    requires
        raw@.len() >= 8,
        call_ensures(writes::kv_incr_float, (Some(raw), now_ms), r),
    ensures
        ({
            let deadline = bytes::from_le64(raw@.take(8));
            let live = deadline == 0 || now_ms < deadline;
            &&& !live ==> r is Ok && r->Ok_0.current is None && r->Ok_0.deadline == 0
            &&& live ==> (r is Ok <==> wire::decoded_float(raw@.skip(8)) is Some)
            &&& live && r is Ok ==> r->Ok_0.current == wire::decoded_float(raw@.skip(8))
                && r->Ok_0.deadline == deadline
        }),
{
}

/// The sum of a float counter is stored under the deadline that it had, changes
/// nothing else, and is the answer.
pub proof fn float_sum_is_stored(
    store: Store,
    collection: &str,
    key: &[u8],
    deadline: u64,
    sum: nodedb_types::Value,
    r: Result<Plan, LiteError>,
)
    requires
        call_ensures(writes::kv_incr_float_store, (collection, key, deadline, sum), r),
    ensures
        r is Ok <==> wire::encoded_float(sum) is Some,
        r is Ok ==> sets(
            store,
            storage::apply_ops(store, r->Ok_0@.ops),
            collection@,
            key@,
            deadline,
            wire::encoded_float(sum)->0,
        ) && r->Ok_0@.result.rows == seq![seq![DatumView::Other(sum)]],
{
    if r is Ok {
        let plan = r->Ok_0@;
        lemma_put(store, collection@, key@, deadline, wire::encoded_float(sum)->0);
        lemma_single(store, plan.ops[0]);
        assert(plan.ops =~= seq![plan.ops[0]]);
    }
}

} // verus!
