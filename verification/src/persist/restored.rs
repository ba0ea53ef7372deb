//! What is brought back of the stored state, and what is not.
use crate::bytes;
use crate::error::LiteError;
use crate::persist::restore;
use crate::persist::restore::{FlushCheck, SnapshotPlan, StateEntry, UpdatePlan};
use vstd::prelude::*;
use vstd::utf8::*;

verus! {

/// Whether a list holds exactly the places of the entries that are picked, in
/// ascending order.
pub open spec fn lists(
    found: Seq<usize>,
    entries: Seq<StateEntry>,
    pick: spec_fn(StateEntry) -> bool,
) -> bool {
    &&& forall|a: int, b: int| 0 <= a < b < found.len() ==> found[a] < found[b]
    &&& forall|a: int|
        0 <= a < found.len() ==> (#[trigger] found[a]) < entries.len() && pick(
            entries[found[a] as int],
        )
    &&& forall|i: int|
        0 <= i < entries.len() && pick(#[trigger] entries[i]) ==> found.contains(i as usize)
}

proof fn lemma_places(entries: Seq<StateEntry>, pick: spec_fn(StateEntry) -> bool, n: nat)
    requires
        n <= entries.len() <= usize::MAX,
    ensures
        ({
            let found = restore::places(entries, pick, n);
            &&& forall|a: int, b: int| 0 <= a < b < found.len() ==> found[a] < found[b]
            &&& forall|a: int|
                0 <= a < found.len() ==> (#[trigger] found[a]) < n && pick(
                    entries[found[a] as int],
                )
            &&& forall|i: int|
                0 <= i < n && pick(#[trigger] entries[i]) ==> found.contains(i as usize)
        }),
    decreases n,
{
    if n > 0 {
        let m = (n - 1) as nat;
        lemma_places(entries, pick, m);
        let before = restore::places(entries, pick, m);
        let found = restore::places(entries, pick, n);
        assert forall|i: int| 0 <= i < n && pick(#[trigger] entries[i]) implies found.contains(
            i as usize,
        ) by {
            if i < m {
                let a = choose|a: int| 0 <= a < before.len() && before[a] == i as usize;
                assert(found[a] == i as usize);
            } else {
                assert(found[found.len() - 1] == i as usize);
            }
        }
    }
}

/// Whether an entry is a snapshot of some collection.
pub open spec fn is_snapshot(e: StateEntry) -> bool {
    restore::snapshot_of(e.key@) is Some
}

/// Every snapshot that passes its check is restored, in order. One that does not
/// stops the opening, unless the caller agreed to discard it, and then just these
/// are discarded.
pub proof fn sound_snapshots_are_restored(
    entries: &[StateEntry],
    may_discard: bool,
    r: Result<SnapshotPlan, LiteError>,
)
    requires
        call_ensures(restore::restore_snapshots, (entries, may_discard), r),
    ensures
        r is Err <==> !may_discard && exists|i: int|
            0 <= i < entries@.len() && is_snapshot(#[trigger] entries@[i]) && entries@[i].payload
                is None,
        r is Ok ==> lists(
            r->Ok_0.imports@,
            entries@,
            |e: StateEntry| is_snapshot(e) && e.payload is Some,
        ) && lists(
            r->Ok_0.discards@,
            entries@,
            |e: StateEntry| is_snapshot(e) && e.payload is None,
        ),
{
    assert(entries.len() == entries@.len());
    let good = |e: StateEntry| restore::good_snapshot(e);
    let bad = |e: StateEntry| restore::corrupt_snapshot(e);
    lemma_places(entries@, good, entries@.len());
    lemma_places(entries@, bad, entries@.len());
    if r is Ok {
        let sound = |e: StateEntry| is_snapshot(e) && e.payload is Some;
        let broken = |e: StateEntry| is_snapshot(e) && e.payload is None;
        assert forall|e: StateEntry| #[trigger] sound(e) == good(e) by {}
        assert forall|e: StateEntry| #[trigger] broken(e) == bad(e) by {}
        assert forall|i: int| 0 <= i < entries@.len() && sound(#[trigger] entries@[i]) implies
            r->Ok_0.imports@.contains(i as usize) by {
            assert(good(entries@[i]));
        }
        assert forall|i: int| 0 <= i < entries@.len() && broken(#[trigger] entries@[i]) implies
            r->Ok_0.discards@.contains(i as usize) by {
            assert(bad(entries@[i]));
        }
        assert(lists(r->Ok_0.imports@, entries@, sound));
        assert(lists(r->Ok_0.discards@, entries@, broken));
        if !may_discard {
            assert forall|i: int| 0 <= i < entries@.len() implies !(is_snapshot(
                #[trigger] entries@[i],
            ) && entries@[i].payload is None) by {
                assert(!restore::corrupt_snapshot(entries@[i]));
            }
        }
    } else {
        let i = choose|i: int|
            #![trigger entries@[i]]
            restore::first_at(entries@, bad, i);
        assert(restore::corrupt_snapshot(entries@[i]));
    }
}

/// Whether an entry is an update of a collection that has, or has not, a restored
/// snapshot.
pub open spec fn is_update(e: StateEntry, bases: Seq<String>, based: bool) -> bool {
    restore::update_of(e.key@) is Some && ((exists|i: int|
        0 <= i < bases.len() && (#[trigger] bases[i])@ == (restore::update_of(e.key@)->0).0)
        == based)
}

/// Every update on a restored snapshot is replayed, in order. One that fails its
/// check stops the opening in any case. One without a snapshot stops it too,
/// unless the caller agreed to discard it, and then just these are discarded.
pub proof fn sound_updates_are_replayed(
    entries: &[StateEntry],
    bases: &[String],
    may_discard: bool,
    r: Result<UpdatePlan, LiteError>,
)
    requires
        call_ensures(restore::restore_updates, (entries, bases, may_discard), r),
    ensures
        r is Ok ==> forall|i: int|
            0 <= i < entries@.len() && is_update(#[trigger] entries@[i], bases@, true)
                ==> entries@[i].payload is Some,
        r is Ok && !may_discard ==> forall|i: int|
            0 <= i < entries@.len() ==> !is_update(#[trigger] entries@[i], bases@, false),
        r is Err ==> exists|i: int|
            0 <= i < entries@.len() && (is_update(#[trigger] entries@[i], bases@, true)
                && entries@[i].payload is None || is_update(entries@[i], bases@, false)
                && !may_discard),
        r is Ok ==> lists(
            r->Ok_0.replays@,
            entries@,
            |e: StateEntry| is_update(e, bases@, true) && e.payload is Some,
        ) && lists(
            r->Ok_0.orphans@,
            entries@,
            |e: StateEntry| is_update(e, bases@, false),
        ),
{
    assert(entries.len() == entries@.len());
    let good = |e: StateEntry| restore::good_update(bases@, e);
    let lone = |e: StateEntry| restore::orphan(bases@, e);
    let refused = |e: StateEntry| restore::refused_update(bases@, may_discard, e);
    lemma_places(entries@, good, entries@.len());
    lemma_places(entries@, lone, entries@.len());
    assert forall|e: StateEntry|
        #![trigger is_update(e, bases@, true)]
        #![trigger is_update(e, bases@, false)]
        is_update(e, bases@, false) == restore::orphan(bases@, e) && is_update(e, bases@, true) == (
        restore::update_of(e.key@) is Some && restore::has_base(
            bases@,
            (restore::update_of(e.key@)->0).0,
        )) by {}
    if r is Ok {
        let replayed = |e: StateEntry| is_update(e, bases@, true) && e.payload is Some;
        let orphaned = |e: StateEntry| is_update(e, bases@, false);
        assert forall|i: int| 0 <= i < entries@.len() && replayed(#[trigger] entries@[i]) implies
            r->Ok_0.replays@.contains(i as usize) by {
            assert(good(entries@[i]));
        }
        assert forall|i: int| 0 <= i < entries@.len() && orphaned(#[trigger] entries@[i]) implies
            r->Ok_0.orphans@.contains(i as usize) by {
            assert(lone(entries@[i]));
        }
        assert forall|a: int| 0 <= a < r->Ok_0.replays@.len() implies (
        #[trigger] r->Ok_0.replays@[a]) < entries@.len() && replayed(
            entries@[r->Ok_0.replays@[a] as int],
        ) by {
            assert(good(entries@[r->Ok_0.replays@[a] as int]));
            assert(is_update(entries@[r->Ok_0.replays@[a] as int], bases@, true));
        }
        assert forall|a: int| 0 <= a < r->Ok_0.orphans@.len() implies (
        #[trigger] r->Ok_0.orphans@[a]) < entries@.len() && orphaned(
            entries@[r->Ok_0.orphans@[a] as int],
        ) by {
            assert(lone(entries@[r->Ok_0.orphans@[a] as int]));
            assert(is_update(entries@[r->Ok_0.orphans@[a] as int], bases@, false));
        }
        assert(lists(r->Ok_0.replays@, entries@, replayed));
        assert(lists(r->Ok_0.orphans@, entries@, orphaned));
        assert forall|i: int|
            0 <= i < entries@.len() && is_update(#[trigger] entries@[i], bases@, true) implies
            entries@[i].payload is Some by {
            assert(!restore::refused_update(bases@, may_discard, entries@[i]));
        }
        if !may_discard {
            assert forall|i: int| 0 <= i < entries@.len() implies !is_update(
                #[trigger] entries@[i],
                bases@,
                false,
            ) by {
                assert(!restore::refused_update(bases@, may_discard, entries@[i]));
            }
        }
    } else {
        let i = choose|i: int|
            #![trigger entries@[i]]
            restore::first_at(entries@, refused, i);
        assert(refused(entries@[i]));
        assert(is_update(entries@[i], bases@, true) || !is_update(entries@[i], bases@, true));
    }
}

/// A queue that disagrees with the watermark of the last flush is cleared only
/// with consent. Without entries, or without a watermark, there is nothing to
/// disagree about.
pub proof fn torn_flush_is_not_passed_over(
    pending: usize,
    mark: &[u8],
    newest: u64,
    may_discard: bool,
    r: Result<FlushCheck, LiteError>,
    unmarked: Result<FlushCheck, LiteError>,
)
    requires
        mark@.len() == 8,
        call_ensures(restore::check_partial_flush, (pending, Some(mark), newest, may_discard), r),
        call_ensures(restore::check_partial_flush, (pending, None, newest, may_discard), unmarked),
    ensures
        ({
            let last = bytes::from_le64(mark@);
            let disagrees = pending > 0 && last > 0 && newest > 0 && last != newest;
            &&& !disagrees ==> r is Ok && r->Ok_0 == FlushCheck::Consistent
            &&& disagrees && may_discard ==> r is Ok && r->Ok_0 == FlushCheck::Clear
            &&& disagrees && !may_discard ==> r is Err
        }),
        unmarked is Ok && unmarked->Ok_0 == FlushCheck::Consistent,
{
}

/// A collection keeps history just where its own flag begins with a one.
pub proof fn flags_turn_history_on(
    collection: Seq<char>,
    key: &[u8],
    flag: &[u8],
    r: Option<String>,
)
    requires
        key@ == encode_utf8("document_bitemporal:"@) + encode_utf8(collection),
        call_ensures(restore::bitemporal_collection, (key, flag), r),
    ensures
        r is Some <==> flag@.len() > 0 && flag@[0] == 1,
        r is Some ==> r->0@ == collection,
{
    let prefix = encode_utf8("document_bitemporal:"@);
    assert(key@.take(prefix.len() as int) =~= prefix);
    assert(key@.skip(prefix.len() as int) =~= encode_utf8(collection));
    encode_utf8_valid_utf8(collection);
    encode_utf8_decode_utf8(collection);
}

/// The next update of a collection goes after the last one that is stored, and
/// starts at zero where none is.
pub proof fn next_update_goes_after_the_last(
    entries: Seq<StateEntry>,
    collection: Seq<char>,
    n: nat,
    last: int,
)
    requires
        0 <= last < n <= entries.len(),
        restore::update_of(entries[last].key@) is Some,
        (restore::update_of(entries[last].key@)->0).0 == collection,
        entries[last].payload is Some,
        forall|i: int|
            last < i < n && restore::update_of((#[trigger] entries[i]).key@) is Some ==> (
            restore::update_of(entries[i].key@)->0).0 != collection,
    ensures
        restore::next_number(entries, collection, n) == (restore::update_of(
            entries[last].key@,
        )->0).1 + 1,
    decreases n,
{
    if last < n - 1 {
        assert(!restore::updates_collection(entries[n - 1], collection));
        next_update_goes_after_the_last(entries, collection, (n - 1) as nat, last);
    }
}

} // verus!
