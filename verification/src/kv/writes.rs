//! Writes of whole entries: put, insert, delete, counters and swaps.
//!
//! Each function takes the stored bytes of the entry it concerns, `None` where
//! nothing is stored, and the current time, and returns the writes to make.
use crate::bytes;
use crate::error;
use crate::error::{ErrorView, LiteError};
use crate::kv::codec;
use crate::result;
use crate::result::{Plan, PlanView, QueryResult, ResultView};
use crate::storage;
use crate::storage::{Namespace, OpView, WriteOp};
use crate::text;
use crate::value::{Datum, DatumView};
use crate::wire;
use vstd::prelude::*;

verus! {

/// The stored bytes of an entry, where there are any.
pub open spec fn stored_bytes(stored: Option<&[u8]>) -> Option<Seq<u8>> {
    match stored {
        Some(raw) => Some(raw@),
        None => None,
    }
}

/// The plan of an unconditional write.
pub open spec fn put_plan(
    collection: Seq<char>,
    key: Seq<u8>,
    value: Seq<u8>,
    ttl_ms: u64,
    now_ms: u64,
) -> PlanView {
    result::single_put(
        Namespace::Kv,
        codec::stored_key(collection, key),
        codec::stored_value(codec::deadline_for(ttl_ms, now_ms, 0), value),
        result::affected_view(1),
    )
}

/// The refusal of an entry that cannot be read.
pub open spec fn corrupt_entry() -> ErrorView {
    ErrorView::Storage("corrupt KV entry"@)
}

/// The live entry, with the deadline and the user's bytes.
fn live(stored: Option<&[u8]>, now_ms: u64) -> (r: Option<(u64, Vec<u8>)>)
    ensures
        match r {
            Some((d, v)) => codec::live_entry(stored_bytes(stored), now_ms) == Some((d, v@)),
            None => codec::live_entry(stored_bytes(stored), now_ms) is None,
        },
{
    match stored {
        None => None,
        Some(raw) => match codec::decode_value(raw) {
            None => None,
            Some((deadline, value)) => if codec::is_expired(deadline, now_ms) {
                None
            } else {
                Some((deadline, value))
            },
        },
    }
}

/// Writes an entry whether or not it exists.
pub fn kv_put(collection: &str, key: &[u8], value: &[u8], ttl_ms: u64, now_ms: u64) -> (r: Plan)
    ensures
        r@ == put_plan(collection@, key@, value@, ttl_ms, now_ms),
{
    let deadline: u64 = codec::deadline_from_ttl(ttl_ms, now_ms, 0);
    Plan::put(
        Namespace::Kv,
        codec::kv_key(collection, key),
        codec::encode_value(deadline, value),
        QueryResult::affected(1),
    )
}

/// The outcome of writing an entry that must not exist.
pub open spec fn insert_plan(
    stored: Option<Seq<u8>>,
    collection: Seq<char>,
    key: Seq<u8>,
    value: Seq<u8>,
    ttl_ms: u64,
    now_ms: u64,
) -> Result<PlanView, ErrorView> {
    if codec::live_entry(stored, now_ms) is Some {
        Err(
            ErrorView::BadRequest(
                "unique_violation: key already exists in collection '"@ + collection + "'"@,
            ),
        )
    } else {
        Ok(put_plan(collection, key, value, ttl_ms, now_ms))
    }
}

/// Writes an entry that does not exist yet. An expired entry does not exist.
pub fn kv_insert(
    stored: Option<&[u8]>,
    collection: &str,
    key: &[u8],
    value: &[u8],
    ttl_ms: u64,
    now_ms: u64,
) -> (r: Result<Plan, LiteError>)
    ensures
        result::outcome(r) == insert_plan(
            stored_bytes(stored),
            collection@,
            key@,
            value@,
            ttl_ms,
            now_ms,
        ),
{
    if live(stored, now_ms).is_some() {
        let detail = text::concat3(
            "unique_violation: key already exists in collection '",
            collection,
            "'",
        );
        return Err(LiteError::BadRequest { detail });
    }
    Ok(kv_put(collection, key, value, ttl_ms, now_ms))
}

/// The plan of writing an entry unless it exists.
pub open spec fn absent_plan(
    stored: Option<Seq<u8>>,
    collection: Seq<char>,
    key: Seq<u8>,
    value: Seq<u8>,
    ttl_ms: u64,
    now_ms: u64,
) -> PlanView {
    if codec::live_entry(stored, now_ms) is Some {
        result::read_only(result::affected_view(0))
    } else {
        put_plan(collection, key, value, ttl_ms, now_ms)
    }
}

/// Writes an entry that does not exist yet, and does nothing where it does.
pub fn kv_insert_if_absent(
    stored: Option<&[u8]>,
    collection: &str,
    key: &[u8],
    value: &[u8],
    ttl_ms: u64,
    now_ms: u64,
) -> (r: Plan)
    ensures
        r@ == absent_plan(stored_bytes(stored), collection@, key@, value@, ttl_ms, now_ms),
{
    if live(stored, now_ms).is_some() {
        return Plan::without_writes(QueryResult::affected(0));
    }
    kv_put(collection, key, value, ttl_ms, now_ms)
}

/// The deletes of several keys.
pub open spec fn delete_ops(collection: Seq<char>, keys: Seq<Vec<u8>>) -> Seq<OpView> {
    keys.map_values(
        |k: Vec<u8>| OpView::Delete { ns: Namespace::Kv, key: codec::stored_key(collection, k@) },
    )
}

/// The plan of deleting several keys.
pub open spec fn delete_plan(collection: Seq<char>, keys: Seq<Vec<u8>>) -> PlanView {
    PlanView {
        ops: delete_ops(collection, keys),
        result: result::affected_view(keys.len() as u64),
    }
}

/// Deletes keys, whether or not they exist. Every listed key counts.
pub fn kv_delete(collection: &str, keys: &[Vec<u8>]) -> (r: Plan)
    ensures
        r@ == delete_plan(collection@, keys@),
{
    let mut ops: Vec<WriteOp> = Vec::new();
    let mut i: usize = 0;
    while i < keys.len()
        invariant
            i <= keys@.len(),
            storage::ops_view(ops@) == delete_ops(collection@, keys@.take(i as int)),
        decreases keys@.len() - i,
    {
        storage::push_delete(&mut ops, Namespace::Kv, codec::kv_key(collection, &keys[i]));
        proof {
            assert(delete_ops(collection@, keys@.take(i as int + 1)) =~= delete_ops(
                collection@,
                keys@.take(i as int),
            ).push(
                OpView::Delete {
                    ns: Namespace::Kv,
                    key: codec::stored_key(collection@, keys@[i as int]@),
                },
            ));
        }
        i = i + 1;
    }
    proof {
        assert(keys@.take(keys@.len() as int) =~= keys@);
    }
    Plan { ops, result: QueryResult::affected(keys.len() as u64) }
}

/// The puts of several entries under one deadline.
pub open spec fn batch_ops(
    collection: Seq<char>,
    entries: Seq<(Vec<u8>, Vec<u8>)>,
    deadline: u64,
) -> Seq<OpView> {
    entries.map_values(
        |e: (Vec<u8>, Vec<u8>)|
            OpView::Put {
                ns: Namespace::Kv,
                key: codec::stored_key(collection, e.0@),
                value: codec::stored_value(deadline, e.1@),
            },
    )
}

/// The plan of writing several entries.
pub open spec fn batch_plan(
    collection: Seq<char>,
    entries: Seq<(Vec<u8>, Vec<u8>)>,
    ttl_ms: u64,
    now_ms: u64,
) -> PlanView {
    PlanView {
        ops: batch_ops(collection, entries, codec::deadline_for(ttl_ms, now_ms, 0)),
        result: result::affected_view(entries.len() as u64),
    }
}

/// Writes several entries in one batch.
pub fn kv_batch_put(
    collection: &str,
    entries: &[(Vec<u8>, Vec<u8>)],
    ttl_ms: u64,
    now_ms: u64,
) -> (r: Plan)
    ensures
        r@ == batch_plan(collection@, entries@, ttl_ms, now_ms),
{
    let deadline: u64 = codec::deadline_from_ttl(ttl_ms, now_ms, 0);
    let mut ops: Vec<WriteOp> = Vec::new();
    let mut i: usize = 0;
    while i < entries.len()
        invariant
            i <= entries@.len(),
            storage::ops_view(ops@) == batch_ops(collection@, entries@.take(i as int), deadline),
        decreases entries@.len() - i,
    {
        storage::push_put(
            &mut ops,
            Namespace::Kv,
            codec::kv_key(collection, &entries[i].0),
            codec::encode_value(deadline, &entries[i].1),
        );
        proof {
            let e = entries@[i as int];
            assert(batch_ops(collection@, entries@.take(i as int + 1), deadline) =~= batch_ops(
                collection@,
                entries@.take(i as int),
                deadline,
            ).push(
                OpView::Put {
                    ns: Namespace::Kv,
                    key: codec::stored_key(collection@, e.0@),
                    value: codec::stored_value(deadline, e.1@),
                },
            ));
        }
        i = i + 1;
    }
    proof {
        assert(entries@.take(entries@.len() as int) =~= entries@);
    }
    Plan { ops, result: QueryResult::affected(entries.len() as u64) }
}

/// The plan that gives a stored entry a new deadline.
pub open spec fn redate_plan(
    stored: Option<Seq<u8>>,
    collection: Seq<char>,
    key: Seq<u8>,
    deadline: u64,
) -> Result<PlanView, ErrorView> {
    match stored {
        None => Ok(result::read_only(result::affected_view(0))),
        Some(raw) => match codec::parsed_value(raw) {
            None => Err(corrupt_entry()),
            Some((_, value)) => Ok(
                result::single_put(
                    Namespace::Kv,
                    codec::stored_key(collection, key),
                    codec::stored_value(deadline, value),
                    result::affected_view(1),
                ),
            ),
        },
    }
}

/// Gives a stored entry a new deadline and keeps its value.
fn redate(stored: Option<&[u8]>, collection: &str, key: &[u8], deadline: u64) -> (r: Result<
    Plan,
    LiteError,
>)
    ensures
        result::outcome(r) == redate_plan(stored_bytes(stored), collection@, key@, deadline),
{
    match stored {
        None => Ok(Plan::without_writes(QueryResult::affected(0))),
        Some(raw) => match codec::decode_value(raw) {
            None => Err(error::storage_error("corrupt KV entry")),
            Some((_, value)) => Ok(
                Plan::put(
                    Namespace::Kv,
                    codec::kv_key(collection, key),
                    codec::encode_value(deadline, &value),
                    QueryResult::affected(1),
                ),
            ),
        },
    }
}

/// Sets the time to live of a stored entry, expired or not.
pub fn kv_expire(
    stored: Option<&[u8]>,
    collection: &str,
    key: &[u8],
    ttl_ms: u64,
    now_ms: u64,
) -> (r: Result<Plan, LiteError>)
    ensures
        result::outcome(r) == redate_plan(
            stored_bytes(stored),
            collection@,
            key@,
            codec::saturating_sum(now_ms, ttl_ms),
        ),
{
    redate(stored, collection, key, now_ms.saturating_add(ttl_ms))
}

/// Makes a stored entry permanent.
pub fn kv_persist(stored: Option<&[u8]>, collection: &str, key: &[u8]) -> (r: Result<
    Plan,
    LiteError,
>)
    ensures
        result::outcome(r) == redate_plan(stored_bytes(stored), collection@, key@, 0),
{
    redate(stored, collection, key, 0)
}

/// Whether a stored key belongs to a collection: the bytes before its first
/// zero byte are the collection's name.
pub open spec fn in_collection(stored: Seq<u8>, collection: Seq<char>) -> bool {
    exists|key: Seq<u8>|
        stored == vstd::utf8::encode_utf8(collection) + seq![0u8] + key
            && !vstd::utf8::encode_utf8(collection).contains(0)
}

/// The deletes of a scan's leading entries in `collection`, passing over keys
/// without a zero byte, up to the first entry of another collection.
pub open spec fn truncate_ops(collection: Seq<char>, scanned: Seq<Vec<u8>>) -> Seq<OpView>
    decreases scanned.len(),
{
    if scanned.len() == 0 {
        Seq::empty()
    } else if !scanned[0]@.contains(0) {
        truncate_ops(collection, scanned.skip(1))
    } else if !in_collection(scanned[0]@, collection) {
        Seq::empty()
    } else {
        seq![OpView::Delete { ns: Namespace::Kv, key: scanned[0]@ }] + truncate_ops(
            collection,
            scanned.skip(1),
        )
    }
}

/// The plan of deleting a whole collection.
pub open spec fn truncate_plan(collection: Seq<char>, scanned: Seq<Vec<u8>>) -> PlanView {
    PlanView {
        ops: truncate_ops(collection, scanned),
        result: result::affected_view(truncate_ops(collection, scanned).len() as u64),
    }
}

/// Deletes every entry of a collection. `scanned` holds the stored keys from
/// the collection's prefix onwards, in order.
pub fn kv_truncate(collection: &str, scanned: &[Vec<u8>]) -> (r: Plan)
    ensures
        r@ == truncate_plan(collection@, scanned@),
{
    let mut ops: Vec<WriteOp> = Vec::new();
    let mut i: usize = 0;
    let mut open: bool = true;
    proof {
        assert(scanned@.skip(0) =~= scanned@);
        assert(storage::ops_view(ops@) + truncate_ops(collection@, scanned@) =~= truncate_ops(
            collection@,
            scanned@,
        ));
    }
    while open && i < scanned.len()
        invariant
            i <= scanned@.len(),
            open ==> storage::ops_view(ops@) + truncate_ops(collection@, scanned@.skip(i as int))
                == truncate_ops(collection@, scanned@),
            !open ==> storage::ops_view(ops@) == truncate_ops(collection@, scanned@),
        decreases scanned@.len() - i,
    {
        let ghost rest = scanned@.skip(i as int);
        let ghost done = storage::ops_view(ops@);
        proof {
            assert(rest[0] == scanned@[i as int]);
            assert(rest.skip(1) =~= scanned@.skip(i as int + 1));
        }
        match codec::split_kv_key(&scanned[i]) {
            None => {},
            Some((owner, rest_key)) => {
                let name = collection.as_bytes();
                proof {
                    lemma_in_collection(scanned@[i as int]@, owner@, rest_key@, collection@);
                    assert(scanned@[i as int]@[owner@.len() as int] == 0);
                }
                if bytes::bytes_eq(&owner, name) {
                    let key = bytes::copy_bytes(&scanned[i]);
                    storage::push_delete(&mut ops, Namespace::Kv, key);
                    proof {
                        let op = OpView::Delete { ns: Namespace::Kv, key: rest[0]@ };
                        assert(done.push(op) + truncate_ops(collection@, rest.skip(1)) =~= done
                            + (seq![op] + truncate_ops(collection@, rest.skip(1))));
                    }
                } else {
                    open = false;
                    proof {
                        assert(done + Seq::<OpView>::empty() =~= done);
                    }
                }
            },
        }
        i = i + 1;
    }
    proof {
        if open {
            assert(scanned@.skip(i as int).len() == 0);
            assert(storage::ops_view(ops@) + Seq::<OpView>::empty() =~= storage::ops_view(ops@));
        }
    }
    let count: u64 = ops.len() as u64;
    Plan { ops, result: QueryResult::affected(count) }
}

/// The owner of a stored key is the collection whose name precedes the first
/// zero byte.
proof fn lemma_in_collection(stored: Seq<u8>, owner: Seq<u8>, key: Seq<u8>, collection: Seq<char>)
    requires
        stored == owner + seq![0u8] + key,
        !owner.contains(0),
    ensures
        in_collection(stored, collection) == (owner == vstd::utf8::encode_utf8(collection)),
{
    let name = vstd::utf8::encode_utf8(collection);
    if owner == name {
        assert(stored == name + seq![0u8] + key);
    }
    if in_collection(stored, collection) {
        let other = choose|k: Seq<u8>| stored == name + seq![0u8] + k && !name.contains(0);
        assert(stored[owner.len() as int] == 0);
        assert(stored[name.len() as int] == 0);
        if owner.len() < name.len() {
            assert(name[owner.len() as int] == stored[owner.len() as int]);
        }
        if name.len() < owner.len() {
            assert(owner[name.len() as int] == stored[name.len() as int]);
        }
        assert(owner =~= stored.take(owner.len() as int));
        assert(name =~= stored.take(name.len() as int));
    }
}

/// The outcome of adding `delta` to a counter.
pub open spec fn incr_plan(
    stored: Option<Seq<u8>>,
    collection: Seq<char>,
    key: Seq<u8>,
    delta: i64,
    ttl_ms: u64,
    now_ms: u64,
) -> Result<PlanView, ErrorView> {
    match counter(stored, now_ms) {
        Err(e) => Err(e),
        Ok((current, deadline)) => if current + delta > i64::MAX || current + delta < i64::MIN {
            Err(ErrorView::BadRequest("Incr: integer overflow"@))
        } else {
            let sum = (current + delta) as i64;
            Ok(
                result::single_put(
                    Namespace::Kv,
                    codec::stored_key(collection, key),
                    codec::stored_value(
                        codec::deadline_for(ttl_ms, now_ms, deadline),
                        wire::encoded_i64(sum),
                    ),
                    ResultView {
                        columns: seq!["value"@],
                        rows: seq![seq![DatumView::Integer(sum)]],
                        rows_affected: 1,
                        command: None,
                    },
                ),
            )
        },
    }
}

/// A counter's value and deadline: zero without a deadline where no live entry
/// is stored.
pub open spec fn counter(stored: Option<Seq<u8>>, now_ms: u64) -> Result<(i64, u64), ErrorView> {
    match stored {
        None => Ok((0i64, 0u64)),
        Some(raw) => match codec::parsed_value(raw) {
            None => Err(corrupt_entry()),
            Some((deadline, value)) => if codec::expired(deadline, now_ms) {
                Ok((0i64, 0u64))
            } else {
                match wire::decoded_i64(value) {
                    None => Err(ErrorView::TypeMismatch("Incr: stored value is not an integer"@)),
                    Some(v) => Ok((v, deadline)),
                }
            },
        },
    }
}

/// The integer that a reader decodes from what a plan wrote, if the plan made
/// a single put with this deadline.
pub open spec fn counter_after(p: PlanView, deadline: u64) -> Option<i64> {
    match p.ops[0] {
        OpView::Put { value, .. } => match codec::parsed_value(value) {
            Some((d, v)) => if d == deadline {
                wire::decoded_i64(v)
            } else {
                None
            },
            None => None,
        },
        OpView::Delete { .. } => None,
    }
}

/// Adds `delta` to a counter that starts at zero. What it stores reads back as
/// the sum, so increments add up.
pub fn kv_incr(
    stored: Option<&[u8]>,
    collection: &str,
    key: &[u8],
    delta: i64,
    ttl_ms: u64,
    now_ms: u64,
) -> (r: Result<Plan, LiteError>)
    ensures
        result::outcome(r) == incr_plan(
            stored_bytes(stored),
            collection@,
            key@,
            delta,
            ttl_ms,
            now_ms,
        ),
        r matches Ok(p) ==> counter_after(p@, codec::deadline_for(
            ttl_ms,
            now_ms,
            counter(stored_bytes(stored), now_ms)->Ok_0.1,
        )) == Some((counter(stored_bytes(stored), now_ms)->Ok_0.0 + delta) as i64),
{
    let mut current: i64 = 0;
    let mut old_deadline: u64 = 0;
    if let Some(raw) = stored {
        match codec::decode_value(raw) {
            None => {
                return Err(error::storage_error("corrupt KV entry"));
            },
            Some((deadline, value)) => {
                if !codec::is_expired(deadline, now_ms) {
                    match wire::decode_i64(&value) {
                        None => {
                            return Err(error::type_mismatch("Incr: stored value is not an integer"));
                        },
                        Some(v) => {
                            current = v;
                            old_deadline = deadline;
                        },
                    }
                }
            },
        }
    }
    match current.checked_add(delta) {
        None => Err(error::bad_request("Incr: integer overflow")),
        Some(sum) => {
            let encoded = match wire::encode_i64(sum) {
                Ok(b) => b,
                Err(e) => {
                    return Err(LiteError::Serialization { detail: text::concat2("Incr encode: ", &e) });
                },
            };
            let deadline: u64 = codec::deadline_from_ttl(ttl_ms, now_ms, old_deadline);
            proof {
                codec::value_round_trip(deadline, encoded@);
            }
            Ok(
                Plan::put(
                    Namespace::Kv,
                    codec::kv_key(collection, key),
                    codec::encode_value(deadline, &encoded),
                    QueryResult::single("value", Datum::Integer(sum), 1),
                ),
            )
        },
    }
}

/// What a float counter starts from.
#[derive(Debug)]
pub struct FloatBase {
    /// The float that is stored, none where no live entry is stored.
    pub current: Option<nodedb_types::Value>,
    /// The deadline to keep.
    pub deadline: u64,
}

/// A float counter's value and deadline: nothing without a deadline where no
/// live entry is stored.
pub open spec fn float_counter(stored: Option<Seq<u8>>, now_ms: u64) -> Result<
    FloatBase,
    ErrorView,
> {
    match stored {
        None => Ok(FloatBase { current: None, deadline: 0 }),
        Some(raw) => match codec::parsed_value(raw) {
            None => Err(corrupt_entry()),
            Some((deadline, value)) => if codec::expired(deadline, now_ms) {
                Ok(FloatBase { current: None, deadline: 0 })
            } else {
                match wire::decoded_float(value) {
                    None => Err(not_a_float()),
                    Some(v) => Ok(FloatBase { current: Some(v), deadline }),
                }
            },
        },
    }
}

/// The refusal of a counter that is no float.
pub open spec fn not_a_float() -> ErrorView {
    ErrorView::BadRequest("IncrFloat: stored value is not a float"@)
}

/// Reads what a float counter starts from.
pub fn kv_incr_float(stored: Option<&[u8]>, now_ms: u64) -> (r: Result<FloatBase, LiteError>)
    ensures
        match (r, float_counter(stored_bytes(stored), now_ms)) {
            (Ok(a), Ok(b)) => a == b,
            (Err(e), Err(f)) => e@ == f,
            _ => false,
        },
{
    if let Some(raw) = stored {
        match codec::decode_value(raw) {
            None => {
                return Err(error::storage_error("corrupt KV entry"));
            },
            Some((deadline, value)) => {
                if !codec::is_expired(deadline, now_ms) {
                    return match wire::decode_float(&value) {
                        None => Err(error::bad_request("IncrFloat: stored value is not a float")),
                        Some(v) => Ok(FloatBase { current: Some(v), deadline }),
                    };
                }
            },
        }
    }
    Ok(FloatBase { current: None, deadline: 0 })
}

/// The outcome of storing the sum of a float counter.
pub open spec fn float_sum_plan(
    collection: Seq<char>,
    key: Seq<u8>,
    deadline: u64,
    sum: nodedb_types::Value,
) -> Result<PlanView, ErrorView> {
    match wire::encoded_float(sum) {
        None => Err(not_a_float()),
        Some(encoded) => Ok(
            result::single_put(
                Namespace::Kv,
                codec::stored_key(collection, key),
                codec::stored_value(deadline, encoded),
                ResultView {
                    columns: seq!["value"@],
                    rows: seq![seq![DatumView::Other(sum)]],
                    rows_affected: 1,
                    command: None,
                },
            ),
        ),
    }
}

/// Whether a plan made a single put whose value starts a float counter at a sum.
pub open spec fn float_reads_back(
    p: PlanView,
    now_ms: u64,
    deadline: u64,
    sum: nodedb_types::Value,
) -> bool {
    match p.ops[0] {
        OpView::Put { value, .. } => float_counter(Some(value), now_ms) == Ok::<FloatBase, ErrorView>(
            FloatBase { current: Some(sum), deadline },
        ),
        OpView::Delete { .. } => false,
    }
}

/// Stores the sum of a float counter under the deadline it had. While that has
/// not passed, the counter then starts from the sum.
pub fn kv_incr_float_store(
    collection: &str,
    key: &[u8],
    deadline: u64,
    sum: nodedb_types::Value,
) -> (r: Result<Plan, LiteError>)
    ensures
        result::outcome(r) == float_sum_plan(collection@, key@, deadline, sum),
        forall|now_ms: u64|
            r is Ok && !codec::expired(deadline, now_ms) ==> #[trigger] float_reads_back(
                r->Ok_0@,
                now_ms,
                deadline,
                sum,
            ),
{
    match wire::encode_float(&sum) {
        None => Err(error::bad_request("IncrFloat: stored value is not a float")),
        Some(encoded) => {
            proof {
                codec::value_round_trip(deadline, encoded@);
            }
            Ok(
                Plan::put(
                    Namespace::Kv,
                    codec::kv_key(collection, key),
                    codec::encode_value(deadline, &encoded),
                    QueryResult::single("value", Datum::Other(sum), 1),
                ),
            )
        },
    }
}

/// The user's bytes and deadline that a swap works against: empty without a
/// deadline where no live entry is stored.
pub open spec fn swap_base(stored: Option<Seq<u8>>, now_ms: u64) -> (Seq<u8>, u64) {
    match codec::live_entry(stored, now_ms) {
        Some((deadline, value)) => (value, deadline),
        None => (Seq::empty(), 0u64),
    }
}

/// The plan of a compare-and-swap.
pub open spec fn cas_plan(
    stored: Option<Seq<u8>>,
    collection: Seq<char>,
    key: Seq<u8>,
    expected: Seq<u8>,
    new_value: Seq<u8>,
    now_ms: u64,
) -> PlanView {
    let (current, deadline) = swap_base(stored, now_ms);
    let success = current == expected;
    let answer = ResultView {
        columns: seq!["success"@, "current_value"@],
        rows: seq![seq![DatumView::Bool(success), DatumView::Bytes(current)]],
        rows_affected: if success {
            1
        } else {
            0
        },
        command: None,
    };
    if success {
        result::single_put(
            Namespace::Kv,
            codec::stored_key(collection, key),
            codec::stored_value(deadline, new_value),
            answer,
        )
    } else {
        result::read_only(answer)
    }
}

/// Replaces the value of an entry if it is still `expected`, and reports
/// whether it was. Nothing stored counts as the empty value.
pub fn kv_cas(
    stored: Option<&[u8]>,
    collection: &str,
    key: &[u8],
    expected: &[u8],
    new_value: &[u8],
    now_ms: u64,
) -> (r: Plan)
    ensures
        r@ == cas_plan(
            stored_bytes(stored),
            collection@,
            key@,
            expected@,
            new_value@,
            now_ms,
        ),
{
    let (current, deadline) = match live(stored, now_ms) {
        Some((d, v)) => (v, d),
        None => (Vec::new(), 0u64),
    };
    let ghost cur = current@;
    let success: bool = bytes::bytes_eq(&current, expected);
    let mut columns: Vec<String> = Vec::new();
    columns.push("success".to_owned());
    columns.push("current_value".to_owned());
    let mut row: Vec<Datum> = Vec::new();
    row.push(Datum::Bool(success));
    row.push(Datum::Bytes(current));
    proof {
        assert(crate::value::row_view(row@) =~= seq![
            DatumView::Bool(success),
            DatumView::Bytes(cur),
        ]);
    }
    let mut rows: Vec<Vec<Datum>> = Vec::new();
    rows.push(row);
    let affected: u64 = if success { 1 } else { 0 };
    let answer = QueryResult { columns, rows, rows_affected: affected, command: None };
    proof {
        assert(cur =~= swap_base(stored_bytes(stored), now_ms).0);
        assert(answer@.columns =~= seq!["success"@, "current_value"@]);
        assert(answer@.rows =~= seq![seq![DatumView::Bool(success), DatumView::Bytes(cur)]]);
    }
    if success {
        Plan::put(
            Namespace::Kv,
            codec::kv_key(collection, key),
            codec::encode_value(deadline, new_value),
            answer,
        )
    } else {
        Plan::without_writes(answer)
    }
}

/// What a reader of the old value gets, and the deadline that is kept.
pub open spec fn replaced(stored: Option<Seq<u8>>, now_ms: u64) -> (DatumView, u64) {
    match stored {
        None => (DatumView::Null, 0u64),
        Some(raw) => match codec::parsed_value(raw) {
            None => (DatumView::Null, 0u64),
            Some((deadline, value)) => if codec::expired(deadline, now_ms) {
                (DatumView::Null, 0u64)
            } else {
                (DatumView::Bytes(value), deadline)
            },
        },
    }
}

/// The plan of replacing a value.
pub open spec fn get_set_plan(
    stored: Option<Seq<u8>>,
    collection: Seq<char>,
    key: Seq<u8>,
    new_value: Seq<u8>,
    now_ms: u64,
) -> PlanView {
    let (old_value, deadline) = replaced(stored, now_ms);
    result::single_put(
        Namespace::Kv,
        codec::stored_key(collection, key),
        codec::stored_value(deadline, new_value),
        ResultView {
            columns: seq!["old_value"@],
            rows: seq![seq![old_value]],
            rows_affected: 1,
            command: None,
        },
    )
}

/// Replaces the value of an entry and returns the old one. The deadline of a
/// live entry is kept; an expired entry counts as absent, so its new value
/// has none.
pub fn kv_get_set(
    stored: Option<&[u8]>,
    collection: &str,
    key: &[u8],
    new_value: &[u8],
    now_ms: u64,
) -> (r: Plan)
    ensures
        r@ == get_set_plan(stored_bytes(stored), collection@, key@, new_value@, now_ms),
{
    let mut old_value = Datum::Null;
    let mut old_deadline: u64 = 0;
    if let Some(raw) = stored {
        if let Some((deadline, value)) = codec::decode_value(raw) {
            if !codec::is_expired(deadline, now_ms) {
                old_value = Datum::Bytes(value);
                old_deadline = deadline;
            }
        }
    }
    Plan::put(
        Namespace::Kv,
        codec::kv_key(collection, key),
        codec::encode_value(old_deadline, new_value),
        QueryResult::single("old_value", old_value, 1),
    )
}

} // verus!
