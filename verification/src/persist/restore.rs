//! What is done with each stored entry when a database is opened.
//!
//! State that fails its check is never dropped without the caller's consent.
use crate::bytes;
use crate::error::{ErrorView, LiteError};
use crate::persist::digits;
use crate::persist::keys;
use crate::text;
use crate::value::names_view;
use vstd::prelude::*;
use vstd::slice::*;
use vstd::string::*;
use vstd::utf8::*;

verus! {

/// A stored entry of replicated state.
#[derive(Debug)]
pub struct StateEntry {
    /// Its key.
    pub key: Vec<u8>,
    /// What it holds, `None` where its checksum does not match.
    pub payload: Option<Vec<u8>>,
}

/// The collection whose snapshot a key names.
pub open spec fn snapshot_of(key: Seq<u8>) -> Option<Seq<char>> {
    let prefix = encode_utf8("loro_snapshot:"@);
    if bytes::has_prefix(key, prefix) && valid_utf8(key.skip(prefix.len() as int)) {
        Some(decode_utf8(key.skip(prefix.len() as int)))
    } else {
        None
    }
}

/// The collection and the number of the update that a key names.
pub open spec fn update_of(key: Seq<u8>) -> Option<(Seq<char>, u64)> {
    let prefix = encode_utf8("loro_delta:"@);
    if !bytes::has_prefix(key, prefix) || key.len() < prefix.len() + 21 {
        None
    } else {
        let split = key.len() - 21;
        let name = key.subrange(prefix.len() as int, split);
        match digits::number(key.skip(split + 1), 10) {
            Some(n) => if key[split] == 58 && n <= u64::MAX && valid_utf8(name) {
                Some((decode_utf8(name), n as u64))
            } else {
                None
            },
            None => None,
        }
    }
}

/// The collection whose snapshot a key names.
pub fn collection_from_snapshot_key(key: &[u8]) -> (r: Option<String>)
    ensures
        match r {
            Some(s) => snapshot_of(key@) == Some(s@),
            None => snapshot_of(key@) is None,
        },
{
    let prefix = "loro_snapshot:".as_bytes();
    if !bytes::starts_with(key, prefix) {
        return None;
    }
    let rest = slice_subrange(key, prefix.len(), key.len());
    proof {
        assert(rest@ =~= key@.skip(prefix@.len() as int));
    }
    text::utf8_string(bytes::copy_bytes(rest)).ok()
}

/// The collection and the number of the update that a key names.
pub fn state_delta_from_key(key: &[u8]) -> (r: Option<(String, u64)>)
    ensures
        match r {
            Some((s, n)) => update_of(key@) == Some((s@, n)),
            None => update_of(key@) is None,
        },
{
    let prefix = "loro_delta:".as_bytes();
    if !bytes::starts_with(key, prefix) {
        return None;
    }
    if key.len() - prefix.len() < 21 {
        return None;
    }
    let split: usize = key.len() - 21;
    let name = slice_subrange(key, prefix.len(), split);
    let tail = slice_subrange(key, split + 1, key.len());
    proof {
        assert(name@ =~= key@.subrange(prefix@.len() as int, split as int));
        assert(tail@ =~= key@.skip(split as int + 1));
    }
    match digits::parse_digits(tail, 10) {
        None => None,
        Some(n) => {
            if key[split] != 58 {
                return None;
            }
            match text::utf8_string(bytes::copy_bytes(name)) {
                Ok(s) => Some((s, n)),
                Err(_) => None,
            }
        },
    }
}

/// Whether an entry is a snapshot that fails its check.
pub open spec fn corrupt_snapshot(e: StateEntry) -> bool {
    snapshot_of(e.key@) is Some && e.payload is None
}

/// Whether an entry is a snapshot that can be restored.
pub open spec fn good_snapshot(e: StateEntry) -> bool {
    snapshot_of(e.key@) is Some && e.payload is Some
}

/// The first entries, by place, that satisfy `pick`, in order.
pub open spec fn places(entries: Seq<StateEntry>, pick: spec_fn(StateEntry) -> bool, n: nat) -> Seq<
    usize,
>
    decreases n,
{
    if n == 0 {
        Seq::empty()
    } else if pick(entries[n - 1]) {
        places(entries, pick, (n - 1) as nat).push((n - 1) as usize)
    } else {
        places(entries, pick, (n - 1) as nat)
    }
}

/// Whether the first entry that satisfies `bad` is the one at `i`.
pub open spec fn first_at(
    entries: Seq<StateEntry>,
    bad: spec_fn(StateEntry) -> bool,
    i: int,
) -> bool {
    &&& 0 <= i < entries.len()
    &&& bad(entries[i])
    &&& forall|j: int| 0 <= j < i ==> !bad(#[trigger] entries[j])
}

/// The refusal of a snapshot that fails its check.
pub open spec fn snapshot_refusal(collection: Seq<char>) -> ErrorView {
    ErrorView::Corrupted(
        "CRDT snapshot for collection '"@ + collection
            + "' failed its CRC32C check. The snapshot has been left in place; opening past it would silently empty the collection."@,
    )
}

/// What is done with the stored snapshots, by place in the list.
#[derive(Debug)]
pub struct SnapshotPlan {
    /// Those to restore, in order.
    pub imports: Vec<usize>,
    /// Those to delete.
    pub discards: Vec<usize>,
}

/// Decides on every stored snapshot. A key that names no collection is passed
/// over. A snapshot that fails its check stops the opening unless the caller
/// has agreed to discard such state.
pub fn restore_snapshots(entries: &[StateEntry], may_discard: bool) -> (r: Result<
    SnapshotPlan,
    LiteError,
>)
    ensures
        match r {
            Ok(p) => {
                &&& may_discard || forall|i: int|
                    0 <= i < entries@.len() ==> !corrupt_snapshot(#[trigger] entries@[i])
                &&& p.imports@ == places(
                    entries@,
                    |e: StateEntry| good_snapshot(e),
                    entries@.len(),
                )
                &&& p.discards@ == places(
                    entries@,
                    |e: StateEntry| corrupt_snapshot(e),
                    entries@.len(),
                )
            },
            Err(e) => !may_discard && exists|i: int|
                #![trigger entries@[i]]
                first_at(entries@, |e: StateEntry| corrupt_snapshot(e), i) && e@
                    == snapshot_refusal(snapshot_of(entries@[i].key@)->0),
        },
{
    let ghost good = |e: StateEntry| good_snapshot(e);
    let ghost corrupt = |e: StateEntry| corrupt_snapshot(e);
    let mut imports: Vec<usize> = Vec::new();
    let mut discards: Vec<usize> = Vec::new();
    let mut i: usize = 0;
    while i < entries.len()
        invariant
            i <= entries@.len(),
            good == (|e: StateEntry| good_snapshot(e)),
            corrupt == (|e: StateEntry| corrupt_snapshot(e)),
            imports@ == places(entries@, good, i as nat),
            discards@ == places(entries@, corrupt, i as nat),
            !may_discard ==> forall|j: int|
                0 <= j < i ==> !corrupt_snapshot(#[trigger] entries@[j]),
        decreases entries@.len() - i,
    {
        match collection_from_snapshot_key(&entries[i].key) {
            None => {},
            Some(collection) => {
                if entries[i].payload.is_some() {
                    imports.push(i);
                } else {
                    if !may_discard {
                        let detail = text::concat3(
                            "CRDT snapshot for collection '",
                            collection.as_str(),
                            "' failed its CRC32C check. The snapshot has been left in place; opening past it would silently empty the collection.",
                        );
                        proof {
                            assert(first_at(entries@, corrupt, i as int));
                        }
                        return Err(LiteError::Corrupted { detail });
                    }
                    discards.push(i);
                }
            },
        }
        i = i + 1;
    }
    Ok(SnapshotPlan { imports, discards })
}

/// Whether a snapshot of this collection was restored.
pub open spec fn has_base(bases: Seq<String>, collection: Seq<char>) -> bool {
    exists|i: int| 0 <= i < bases.len() && (#[trigger] bases[i])@ == collection
}

/// Whether an entry is an update without a snapshot to apply to.
pub open spec fn orphan(bases: Seq<String>, e: StateEntry) -> bool {
    update_of(e.key@) is Some && !has_base(bases, (update_of(e.key@)->0).0)
}

/// Whether an entry is an update on a snapshot and fails its check.
pub open spec fn corrupt_update(bases: Seq<String>, e: StateEntry) -> bool {
    update_of(e.key@) is Some && has_base(bases, (update_of(e.key@)->0).0) && e.payload is None
}

/// Whether an entry is an update to replay.
pub open spec fn good_update(bases: Seq<String>, e: StateEntry) -> bool {
    update_of(e.key@) is Some && has_base(bases, (update_of(e.key@)->0).0) && e.payload is Some
}

/// Whether an entry stops the opening. An update that fails its check does so
/// always: without it the collection would silently roll back.
pub open spec fn refused_update(bases: Seq<String>, may_discard: bool, e: StateEntry) -> bool {
    corrupt_update(bases, e) || orphan(bases, e) && !may_discard
}

/// The refusal of an update.
pub open spec fn update_refusal(bases: Seq<String>, e: StateEntry) -> ErrorView {
    let collection = (update_of(e.key@)->0).0;
    let number = text::decimal((update_of(e.key@)->0).1 as nat);
    if orphan(bases, e) {
        ErrorView::Corrupted(
            "CRDT update '"@ + collection + "' #"@ + number
                + " has no base snapshot to apply to, so the writes it carries cannot be replayed. It has been left in place; discarding it would lose them."@,
        )
    } else {
        ErrorView::Corrupted(
            "CRDT update '"@ + collection + "' #"@ + number
                + " failed its CRC32C check; the writes it carries are not in the snapshot behind it, so opening without it would silently roll the collection back"@,
        )
    }
}

/// What is done with the stored updates, by place in the list.
#[derive(Debug)]
pub struct UpdatePlan {
    /// Those to replay, in order.
    pub replays: Vec<usize>,
    /// Those to delete, for want of a snapshot.
    pub orphans: Vec<usize>,
}

fn is_base(bases: &[String], collection: &str) -> (r: bool)
    ensures
        r == has_base(bases@, collection@),
{
    let mut i: usize = 0;
    while i < bases.len()
        invariant
            i <= bases@.len(),
            forall|j: int| 0 <= j < i ==> (#[trigger] bases@[j])@ != collection@,
        decreases bases@.len() - i,
    {
        if text::str_eq(bases[i].as_str(), collection) {
            proof {
                assert(bases@[i as int]@ == collection@);
            }
            return true;
        }
        i = i + 1;
    }
    false
}

/// Decides on every stored update. `bases` lists the collections whose
/// snapshots were restored.
pub fn restore_updates(entries: &[StateEntry], bases: &[String], may_discard: bool) -> (r: Result<
    UpdatePlan,
    LiteError,
>)
    ensures
        match r {
            Ok(p) => {
                &&& forall|i: int|
                    0 <= i < entries@.len() ==> !refused_update(
                        bases@,
                        may_discard,
                        #[trigger] entries@[i],
                    )
                &&& p.replays@ == places(
                    entries@,
                    |e: StateEntry| good_update(bases@, e),
                    entries@.len(),
                )
                &&& p.orphans@ == places(
                    entries@,
                    |e: StateEntry| orphan(bases@, e),
                    entries@.len(),
                )
            },
            Err(e) => exists|i: int|
                #![trigger entries@[i]]
                first_at(entries@, |e: StateEntry| refused_update(bases@, may_discard, e), i) && e@
                    == update_refusal(bases@, entries@[i]),
        },
{
    let ghost good = |e: StateEntry| good_update(bases@, e);
    let ghost lone = |e: StateEntry| orphan(bases@, e);
    let ghost refused = |e: StateEntry| refused_update(bases@, may_discard, e);
    let mut replays: Vec<usize> = Vec::new();
    let mut orphans: Vec<usize> = Vec::new();
    let mut i: usize = 0;
    while i < entries.len()
        invariant
            i <= entries@.len(),
            good == (|e: StateEntry| good_update(bases@, e)),
            lone == (|e: StateEntry| orphan(bases@, e)),
            refused == (|e: StateEntry| refused_update(bases@, may_discard, e)),
            replays@ == places(entries@, good, i as nat),
            orphans@ == places(entries@, lone, i as nat),
            forall|j: int|
                0 <= j < i ==> !refused_update(bases@, may_discard, #[trigger] entries@[j]),
        decreases entries@.len() - i,
    {
        match state_delta_from_key(&entries[i].key) {
            None => {},
            Some((collection, number)) => {
                let shown = text::decimal_string(number);
                if !is_base(bases, collection.as_str()) {
                    if !may_discard {
                        let detail = text::concat5(
                            "CRDT update '",
                            collection.as_str(),
                            "' #",
                            shown.as_str(),
                            " has no base snapshot to apply to, so the writes it carries cannot be replayed. It has been left in place; discarding it would lose them.",
                        );
                        proof {
                            assert(first_at(entries@, refused, i as int));
                        }
                        return Err(LiteError::Corrupted { detail });
                    }
                    orphans.push(i);
                } else if entries[i].payload.is_none() {
                    let detail = text::concat5(
                        "CRDT update '",
                        collection.as_str(),
                        "' #",
                        shown.as_str(),
                        " failed its CRC32C check; the writes it carries are not in the snapshot behind it, so opening without it would silently roll the collection back",
                    );
                    proof {
                        assert(first_at(entries@, refused, i as int));
                    }
                    return Err(LiteError::Corrupted { detail });
                } else {
                    replays.push(i);
                }
            },
        }
        i = i + 1;
    }
    Ok(UpdatePlan { replays, orphans })
}

/// Whether an entry is an update of this collection, with its payload.
pub open spec fn updates_collection(e: StateEntry, collection: Seq<char>) -> bool {
    update_of(e.key@) is Some && (update_of(e.key@)->0).0 == collection && e.payload is Some
}

/// How many bytes the first `n` entries hold of updates to a collection.
pub open spec fn update_bytes(entries: Seq<StateEntry>, collection: Seq<char>, n: nat) -> nat
    decreases n,
{
    if n == 0 {
        0
    } else {
        let head = update_bytes(entries, collection, (n - 1) as nat);
        if updates_collection(entries[n - 1], collection) {
            head + entries[n - 1].payload->0@.len()
        } else {
            head
        }
    }
}

/// The number that the next update of a collection gets.
pub open spec fn next_number(entries: Seq<StateEntry>, collection: Seq<char>, n: nat) -> nat
    decreases n,
{
    if n == 0 {
        0
    } else if updates_collection(entries[n - 1], collection) {
        (update_of(entries[n - 1].key@)->0).1 as nat + 1
    } else {
        next_number(entries, collection, (n - 1) as nat)
    }
}

/// How much a collection has in updates and the number its next update gets,
/// so that the first flush does not rewrite a snapshot that is current.
pub fn update_totals(entries: &[StateEntry], collection: &str) -> (r: (usize, u64))
    requires
        update_bytes(entries@, collection@, entries@.len()) <= usize::MAX,
        next_number(entries@, collection@, entries@.len()) <= u64::MAX,
        forall|i: int|
            0 <= i < entries@.len() && updates_collection(#[trigger] entries@[i], collection@)
                ==> (update_of(entries@[i].key@)->0).1 < u64::MAX,
    ensures
        r.0 == update_bytes(entries@, collection@, entries@.len()),
        r.1 == next_number(entries@, collection@, entries@.len()),
{
    let mut total: usize = 0;
    let mut next: u64 = 0;
    let mut i: usize = 0;
    while i < entries.len()
        invariant
            i <= entries@.len(),
            total == update_bytes(entries@, collection@, i as nat),
            next == next_number(entries@, collection@, i as nat),
            update_bytes(entries@, collection@, entries@.len()) <= usize::MAX,
            forall|i: int|
                0 <= i < entries@.len() && updates_collection(#[trigger] entries@[i], collection@)
                    ==> (update_of(entries@[i].key@)->0).1 < u64::MAX,
        decreases entries@.len() - i,
    {
        if let Some((owner, number)) = state_delta_from_key(&entries[i].key) {
            if text::str_eq(owner.as_str(), collection) {
                if let Some(payload) = &entries[i].payload {
                    proof {
                        assert(updates_collection(entries@[i as int], collection@));
                        lemma_update_bytes_grow(
                            entries@,
                            collection@,
                            i as nat + 1,
                            entries@.len(),
                        );
                    }
                    total = total + payload.len();
                    next = number + 1;
                }
            }
        }
        i = i + 1;
    }
    (total, next)
}

proof fn lemma_update_bytes_grow(entries: Seq<StateEntry>, collection: Seq<char>, n: nat, m: nat)
    requires
        n <= m,
    ensures
        update_bytes(entries, collection, n) <= update_bytes(entries, collection, m),
    decreases m,
{
    if n < m {
        lemma_update_bytes_grow(entries, collection, n, (m - 1) as nat);
    }
}

/// The collection that a history flag enables, if it enables one.
pub open spec fn flagged(key: Seq<u8>, flag: Seq<u8>) -> Option<Seq<char>> {
    let prefix = encode_utf8("document_bitemporal:"@);
    if flag.len() > 0 && flag[0] == 1 && bytes::has_prefix(key, prefix) && valid_utf8(
        key.skip(prefix.len() as int),
    ) {
        Some(decode_utf8(key.skip(prefix.len() as int)))
    } else {
        None
    }
}

/// The collection that a history flag enables. The first byte of the flag must
/// be one.
pub fn bitemporal_collection(key: &[u8], flag: &[u8]) -> (r: Option<String>)
    ensures
        match r {
            Some(s) => flagged(key@, flag@) == Some(s@),
            None => flagged(key@, flag@) is None,
        },
{
    if flag.len() == 0 || flag[0] != 1 {
        return None;
    }
    let prefix = "document_bitemporal:".as_bytes();
    if !bytes::starts_with(key, prefix) {
        return None;
    }
    let rest = slice_subrange(key, prefix.len(), key.len());
    proof {
        assert(rest@ =~= key@.skip(prefix@.len() as int));
    }
    text::utf8_string(bytes::copy_bytes(rest)).ok()
}

/// The collections of the snapshots that can be restored among the first `n`
/// entries, in order.
pub open spec fn base_names(entries: Seq<StateEntry>, n: nat) -> Seq<Seq<char>>
    decreases n,
{
    if n == 0 {
        Seq::empty()
    } else if good_snapshot(entries[n - 1]) {
        base_names(entries, (n - 1) as nat).push(snapshot_of(entries[n - 1].key@)->0)
    } else {
        base_names(entries, (n - 1) as nat)
    }
}

/// The collections whose snapshots are restored.
fn base_collections(entries: &[StateEntry]) -> (r: Vec<String>)
    ensures
        names_view(r@) == base_names(entries@, entries@.len()),
{
    let mut out: Vec<String> = Vec::new();
    let mut i: usize = 0;
    proof {
        assert(names_view(out@) =~= base_names(entries@, 0));
    }
    while i < entries.len()
        invariant
            i <= entries@.len(),
            names_view(out@) == base_names(entries@, i as nat),
        decreases entries@.len() - i,
    {
        let ghost before = names_view(out@);
        match collection_from_snapshot_key(&entries[i].key) {
            None => {},
            Some(collection) => {
                if entries[i].payload.is_some() {
                    let ghost name = collection@;
                    out.push(collection);
                    proof {
                        assert(names_view(out@) =~= before.push(name));
                    }
                }
            },
        }
        i = i + 1;
    }
    out
}

/// What is done with the stored state of every collection.
#[derive(Debug)]
pub struct RestorePlan {
    /// The snapshots to restore, in order.
    pub imports: Vec<usize>,
    /// The collections whose snapshots are restored.
    pub bases: Vec<String>,
    /// What is done with the updates.
    pub updates: UpdatePlan,
}

/// Whether no snapshot stops the opening.
pub open spec fn snapshots_pass(entries: Seq<StateEntry>, may_discard: bool) -> bool {
    may_discard || forall|i: int|
        0 <= i < entries.len() ==> !corrupt_snapshot(#[trigger] entries[i])
}

/// Whether no update stops the opening.
pub open spec fn updates_pass(
    entries: Seq<StateEntry>,
    bases: Seq<String>,
    may_discard: bool,
) -> bool {
    forall|i: int|
        0 <= i < entries.len() ==> !refused_update(bases, may_discard, #[trigger] entries[i])
}

/// Whether an error is the refusal of the first update that stops the opening.
pub open spec fn refuses_update(
    entries: Seq<StateEntry>,
    bases: Seq<String>,
    may_discard: bool,
    e: ErrorView,
) -> bool {
    exists|i: int|
        #![trigger entries[i]]
        first_at(entries, |e: StateEntry| refused_update(bases, may_discard, e), i) && e
            == update_refusal(bases, entries[i])
}

/// Whether an error is the refusal of an update, given the stored snapshots.
pub open spec fn restore_refused(
    snapshots: Seq<StateEntry>,
    updates: Seq<StateEntry>,
    may_discard: bool,
    e: ErrorView,
) -> bool {
    exists|bases: Seq<String>|
        names_view(bases) == base_names(snapshots, snapshots.len()) && #[trigger] refuses_update(
            updates,
            bases,
            may_discard,
            e,
        )
}

/// Decides on the stored state of every collection: first on the snapshots, and
/// then on the updates, which apply to the snapshots that are restored. The answer
/// lists the snapshots to delete, which go even where an update stops the opening
/// afterwards.
pub fn restore_identity_and_crdt(
    snapshots: &[StateEntry],
    updates: &[StateEntry],
    may_discard: bool,
) -> (r: (Vec<usize>, Result<RestorePlan, LiteError>))
    ensures
        r.0@ == if snapshots_pass(snapshots@, may_discard) {
            places(snapshots@, |e: StateEntry| corrupt_snapshot(e), snapshots@.len())
        } else {
            Seq::empty()
        },
        match r.1 {
            Ok(p) => {
                &&& snapshots_pass(snapshots@, may_discard)
                &&& p.imports@ == places(
                    snapshots@,
                    |e: StateEntry| good_snapshot(e),
                    snapshots@.len(),
                )
                &&& names_view(p.bases@) == base_names(snapshots@, snapshots@.len())
                &&& updates_pass(updates@, p.bases@, may_discard)
                &&& p.updates.replays@ == places(
                    updates@,
                    |e: StateEntry| good_update(p.bases@, e),
                    updates@.len(),
                )
                &&& p.updates.orphans@ == places(
                    updates@,
                    |e: StateEntry| orphan(p.bases@, e),
                    updates@.len(),
                )
            },
            Err(e) => if snapshots_pass(snapshots@, may_discard) {
                restore_refused(snapshots@, updates@, may_discard, e@)
            } else {
                exists|i: int|
                    #![trigger snapshots@[i]]
                    first_at(snapshots@, |e: StateEntry| corrupt_snapshot(e), i) && e@
                        == snapshot_refusal(snapshot_of(snapshots@[i].key@)->0)
            },
        },
{
    let plan = match restore_snapshots(snapshots, may_discard) {
        Ok(p) => p,
        Err(e) => return (Vec::new(), Err(e)),
    };
    let bases = base_collections(snapshots);
    match restore_updates(updates, bases.as_slice(), may_discard) {
        Ok(u) => (
            plan.discards,
            Ok(RestorePlan { imports: plan.imports, bases, updates: u }),
        ),
        Err(e) => {
            proof {
                assert(refuses_update(updates@, bases@, may_discard, e@));
                assert(restore_refused(snapshots@, updates@, may_discard, e@));
            }
            (plan.discards, Err(e))
        },
    }
}

/// What the watermark says of the queue.
#[derive(Debug, Clone, Copy, PartialEq, Eq, Structural)]
pub enum FlushCheck {
    /// The queue is as the last flush left it.
    Consistent,
    /// The queue and the state behind it disagree, and the queue is to be
    /// cleared.
    Clear,
}

/// Whether the stored watermark shows that a flush was torn.
pub open spec fn torn(pending: nat, watermark: Option<Seq<u8>>, newest: u64) -> bool {
    &&& pending > 0
    &&& watermark is Some
    &&& watermark->0.len() == 8
    &&& newest > 0
    &&& bytes::from_le64(watermark->0) > 0
    &&& bytes::from_le64(watermark->0) != newest
}

/// The refusal of a torn flush.
pub open spec fn torn_refusal(last_flushed: u64, newest: u64) -> ErrorView {
    ErrorView::Corrupted(
        "partial flush detected: the last flushed mutation is "@ + text::decimal(
            last_flushed as nat,
        ) + " but the queue reaches "@ + text::decimal(newest as nat)
            + ", so the queued mutations and the CRDT state behind them disagree. The queue has been left intact."@,
    )
}

/// Compares the restored queue with the watermark of the last flush.
pub fn check_partial_flush(
    pending: usize,
    watermark: Option<&[u8]>,
    newest: u64,
    may_discard: bool,
) -> (r: Result<FlushCheck, LiteError>)
    ensures
        ({
            let w = match watermark {
                Some(b) => Some(b@),
                None => None,
            };
            match r {
                Ok(FlushCheck::Consistent) => !torn(pending as nat, w, newest),
                Ok(FlushCheck::Clear) => torn(pending as nat, w, newest) && may_discard,
                Err(e) => torn(pending as nat, w, newest) && !may_discard && e@ == torn_refusal(
                    bytes::from_le64(w->0),
                    newest,
                ),
            }
        }),
{
    if pending == 0 {
        return Ok(FlushCheck::Consistent);
    }
    let stored = match watermark {
        None => {
            return Ok(FlushCheck::Consistent);
        },
        Some(b) => b,
    };
    if stored.len() != 8 {
        return Ok(FlushCheck::Consistent);
    }
    let last_flushed: u64 = bytes::u64_from_le(stored);
    if newest > 0 && last_flushed > 0 && newest != last_flushed {
        if !may_discard {
            let a = text::decimal_string(last_flushed);
            let b = text::decimal_string(newest);
            let detail = text::concat5(
                "partial flush detected: the last flushed mutation is ",
                a.as_str(),
                " but the queue reaches ",
                b.as_str(),
                ", so the queued mutations and the CRDT state behind them disagree. The queue has been left intact.",
            );
            return Err(LiteError::Corrupted { detail });
        }
        return Ok(FlushCheck::Clear);
    }
    Ok(FlushCheck::Consistent)
}

/// Without the caller's consent nothing that is stored is dropped: where the
/// opening goes on, every snapshot is restored and every update replayed.
pub proof fn nothing_is_dropped_without_consent(entries: Seq<StateEntry>, bases: Seq<String>)
    requires
        forall|i: int| 0 <= i < entries.len() ==> !corrupt_snapshot(#[trigger] entries[i]),
        forall|i: int|
            0 <= i < entries.len() ==> !refused_update(bases, false, #[trigger] entries[i]),
    ensures
        places(entries, |e: StateEntry| corrupt_snapshot(e), entries.len()).len() == 0,
        places(entries, |e: StateEntry| orphan(bases, e), entries.len()).len() == 0,
        forall|i: int|
            0 <= i < entries.len() && snapshot_of((#[trigger] entries[i]).key@) is Some
                ==> good_snapshot(entries[i]),
        forall|i: int|
            0 <= i < entries.len() && update_of((#[trigger] entries[i]).key@) is Some
                ==> good_update(bases, entries[i]),
{
    lemma_no_places(entries, |e: StateEntry| corrupt_snapshot(e), entries.len());
    assert forall|i: int| 0 <= i < entries.len() implies !orphan(bases, #[trigger] entries[i]) by {
        assert(!refused_update(bases, false, entries[i]));
    }
    lemma_no_places(entries, |e: StateEntry| orphan(bases, e), entries.len());
    assert forall|i: int|
        0 <= i < entries.len() && update_of((#[trigger] entries[i]).key@) is Some implies good_update(
        bases,
        entries[i],
    ) by {
        assert(!refused_update(bases, false, entries[i]));
    }
}

proof fn lemma_no_places(entries: Seq<StateEntry>, pick: spec_fn(StateEntry) -> bool, n: nat)
    requires
        n <= entries.len(),
        forall|i: int| 0 <= i < entries.len() ==> !pick(#[trigger] entries[i]),
    ensures
        places(entries, pick, n).len() == 0,
    decreases n,
{
    if n > 0 {
        lemma_no_places(entries, pick, (n - 1) as nat);
        assert(!pick(entries[n - 1]));
    }
}

proof fn lemma_base_listed(entries: Seq<StateEntry>, n: nat, i: int)
    requires
        0 <= i < n <= entries.len(),
        good_snapshot(entries[i]),
    ensures
        base_names(entries, n).contains(snapshot_of(entries[i].key@)->0),
    decreases n,
{
    let name = snapshot_of(entries[i].key@)->0;
    let all = base_names(entries, n);
    if i == n - 1 {
        assert(all[all.len() - 1] == name);
    } else {
        lemma_base_listed(entries, (n - 1) as nat, i);
        let head = base_names(entries, (n - 1) as nat);
        let k = choose|k: int| 0 <= k < head.len() && head[k] == name;
        assert(all[k] == name);
    }
}

/// Discarding the snapshot of one collection is no concern of another: an update
/// of a collection whose snapshot is restored is never an orphan.
pub proof fn restored_snapshots_keep_their_updates(
    snapshots: Seq<StateEntry>,
    bases: Seq<String>,
    i: int,
    update: StateEntry,
)
    requires
        names_view(bases) == base_names(snapshots, snapshots.len()),
        0 <= i < snapshots.len(),
        good_snapshot(snapshots[i]),
        update_of(update.key@) is Some,
        (update_of(update.key@)->0).0 == snapshot_of(snapshots[i].key@)->0,
    ensures
        !orphan(bases, update),
{
    let name = snapshot_of(snapshots[i].key@)->0;
    lemma_base_listed(snapshots, snapshots.len(), i);
    let k = choose|k: int|
        0 <= k < base_names(snapshots, snapshots.len()).len() && base_names(
            snapshots,
            snapshots.len(),
        )[k] == name;
    assert(names_view(bases)[k] == bases[k]@);
}

/// A queue that is opened as the last flush left it passes the check.
pub proof fn watermark_of_a_flush_is_consistent(pending: nat, newest: u64)
    ensures
        !torn(pending, Some(bytes::le64(newest)), newest),
{
    bytes::le64_round_trip(newest);
}

/// The snapshot of a collection is restored to that collection.
pub proof fn snapshot_key_names_its_collection(collection: Seq<char>)
    ensures
        snapshot_of(keys::snapshot_key(collection)) == Some(collection),
{
    let prefix = encode_utf8("loro_snapshot:"@);
    let key = keys::snapshot_key(collection);
    assert(key.take(prefix.len() as int) =~= prefix);
    assert(key.skip(prefix.len() as int) =~= encode_utf8(collection));
    encode_utf8_valid_utf8(collection);
    encode_utf8_decode_utf8(collection);
}

/// An update is replayed on its collection, with its number.
pub proof fn update_key_names_its_update(collection: Seq<char>, seq_no: u64)
    ensures
        update_of(keys::state_delta_key(collection, seq_no)) == Some((collection, seq_no)),
{
    let prefix = encode_utf8("loro_delta:"@);
    let name = encode_utf8(collection);
    let colon = encode_utf8(":"@);
    let tail = digits::fixed(seq_no as nat, 10, 20);
    let key = keys::state_delta_key(collection, seq_no);
    keys::lemma_twenty_digits();
    digits::fixed_len(seq_no as nat, 10, 20);
    digits::fixed_round_trip(seq_no as nat, 10, 20);
    reveal_strlit(":");
    is_ascii_chars_encode_utf8(":"@);
    assert(colon.len() == 1);
    assert(colon[0] == 58);
    assert(key =~= prefix + name + colon + tail);
    assert(key.take(prefix.len() as int) =~= prefix);
    let split = key.len() - 21;
    assert(split == prefix.len() + name.len());
    assert(key.subrange(prefix.len() as int, split) =~= name);
    assert(key.skip(split + 1) =~= tail);
    assert(key[split] == colon[0]);
    encode_utf8_valid_utf8(collection);
    encode_utf8_decode_utf8(collection);
}

} // verus!
