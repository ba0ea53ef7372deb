//! Running a key-value operation: its policy slots are looked at first, and
//! only then is it planned.
use crate::dispatch::kv;
use crate::dispatch::kv::{KvHandler, KvOp};
use crate::error::{ErrorView, LiteError};
use crate::kv::codec;
use crate::kv::fields;
use crate::kv::writes;
use crate::result;
use crate::result::{Plan, PlanView};
use vstd::prelude::*;

verus! {

/// How an operation is run.
#[derive(Debug)]
pub enum KvRun<'a> {
    /// Its writes are made and its answer given.
    Planned(Plan),
    /// A handler that reads more than one entry, counts in fractions or keeps an
    /// index runs it.
    Handler(KvHandler<'a>),
}

/// What a [`KvRun`] is.
pub enum KvRunView<'a> {
    Planned(PlanView),
    Handler(KvHandler<'a>),
}

impl<'a> View for KvRun<'a> {
    type V = KvRunView<'a>;

    open spec fn view(&self) -> KvRunView<'a> {
        match *self {
            KvRun::Planned(p) => KvRunView::Planned(p@),
            KvRun::Handler(h) => KvRunView::Handler(h),
        }
    }
}

/// What running yields.
pub open spec fn run_outcome<'a>(r: Result<KvRun<'a>, LiteError>) -> Result<
    KvRunView<'a>,
    ErrorView,
> {
    match r {
        Ok(run) => Ok(run@),
        Err(e) => Err(e@),
    }
}

/// A plan or a refusal, as the outcome of an operation.
pub open spec fn planned<'a>(r: Result<PlanView, ErrorView>) -> Result<
    KvRunView<'a>,
    ErrorView,
> {
    match r {
        Ok(p) => Ok(KvRunView::Planned(p)),
        Err(e) => Err(e),
    }
}

/// Whether an outcome is a plan or a refusal that `holds` of.
pub open spec fn planned_by<'a>(
    r: Result<KvRunView<'a>, ErrorView>,
    holds: spec_fn(Result<PlanView, ErrorView>) -> bool,
) -> bool {
    match r {
        Ok(KvRunView::Planned(p)) => holds(Ok(p)),
        Ok(KvRunView::Handler(_)) => false,
        Err(e) => holds(Err(e)),
    }
}

/// What an operation that is not refused does. `stored` is the entry under its
/// key and `scanned` the stored keys from its collection on.
pub open spec fn admitted<'a>(
    op: &'a KvOp,
    handler: KvHandler<'a>,
    stored: Option<Seq<u8>>,
    scanned: Seq<Vec<u8>>,
    now_ms: u64,
    r: Result<KvRunView<'a>, ErrorView>,
) -> bool {
    match op {
        KvOp::Put { collection, key, value, ttl_ms, .. } => r == planned(
            Ok(writes::put_plan(collection@, key@, value@, *ttl_ms, now_ms)),
        ),
        KvOp::Insert { collection, key, value, ttl_ms, .. } => r == planned(
            writes::insert_plan(stored, collection@, key@, value@, *ttl_ms, now_ms),
        ),
        KvOp::InsertIfAbsent { collection, key, value, ttl_ms, .. } => r == planned(
            Ok(writes::absent_plan(stored, collection@, key@, value@, *ttl_ms, now_ms)),
        ),
        KvOp::InsertOnConflictUpdate { collection, key, value, ttl_ms, updates, .. } => planned_by(
            r,
            |p: Result<PlanView, ErrorView>|
                fields::conflict_update_spec(
                    stored,
                    collection@,
                    key@,
                    value@,
                    *ttl_ms,
                    fields::literals(updates@),
                    now_ms,
                    p,
                ),
        ),
        KvOp::Delete { collection, keys, .. } => r == planned(
            Ok(writes::delete_plan(collection@, keys@)),
        ),
        KvOp::BatchPut { collection, entries, ttl_ms, .. } => r == planned(
            Ok(writes::batch_plan(collection@, entries@, *ttl_ms, now_ms)),
        ),
        KvOp::Expire { collection, key, ttl_ms, .. } => r == planned(
            writes::redate_plan(
                stored,
                collection@,
                key@,
                codec::saturating_sum(now_ms, *ttl_ms),
            ),
        ),
        KvOp::Persist { collection, key, .. } => r == planned(
            writes::redate_plan(stored, collection@, key@, 0),
        ),
        KvOp::Truncate { collection } => r == planned(
            Ok(writes::truncate_plan(collection@, scanned)),
        ),
        KvOp::Incr { collection, key, delta, ttl_ms, .. } => r == planned(
            writes::incr_plan(stored, collection@, key@, *delta, *ttl_ms, now_ms),
        ),
        KvOp::Cas { collection, key, expected, new_value, .. } => r == planned(
            Ok(writes::cas_plan(stored, collection@, key@, expected@, new_value@, now_ms)),
        ),
        KvOp::GetSet { collection, key, new_value, .. } => r == planned(
            Ok(writes::get_set_plan(stored, collection@, key@, new_value@, now_ms)),
        ),
        KvOp::FieldSet { collection, key, assignments, if_present, .. } => planned_by(
            r,
            |p: Result<PlanView, ErrorView>|
                fields::field_set_spec(
                    stored,
                    codec::stored_key(collection@, key@),
                    fields::assignments(assignments@),
                    *if_present,
                    now_ms,
                    p,
                ),
        ),
        KvOp::TransferItem { source_collection, dest_collection, item_key, dest_key, .. } => r
            == planned(
            fields::transfer_item_spec(
                stored,
                source_collection@,
                dest_collection@,
                item_key@,
                dest_key@,
                now_ms,
            ),
        ),
        _ => r == Ok::<KvRunView, ErrorView>(KvRunView::Handler(handler)),
    }
}

/// What an operation does: it is refused, or does what it was made for.
pub open spec fn ran<'a>(
    op: &'a KvOp,
    stored: Option<Seq<u8>>,
    scanned: Seq<Vec<u8>>,
    now_ms: u64,
    r: Result<KvRunView<'a>, ErrorView>,
) -> bool {
    match kv::route(op) {
        Err(e) => r == Err::<KvRunView, ErrorView>(e),
        Ok(handler) => admitted(op, handler, stored, scanned, now_ms, r),
    }
}

/// Whether an operation holds only updates that its handler can make.
pub open spec fn runnable(op: &KvOp, stored: Option<Seq<u8>>, now_ms: u64) -> bool {
    match op {
        KvOp::InsertOnConflictUpdate { updates, .. } => codec::live_entry(stored, now_ms) is Some
            ==> fields::all_literal(updates@),
        _ => true,
    }
}

fn run_of<'a>(r: Result<Plan, LiteError>) -> (out: Result<KvRun<'a>, LiteError>)
    ensures
        run_outcome(out) == planned(result::outcome(r)),
{
    match r {
        Ok(p) => Ok(KvRun::Planned(p)),
        Err(e) => Err(e),
    }
}

/// Runs a key-value operation.
pub fn run<'a>(
    op: &'a KvOp,
    stored: Option<&[u8]>,
    scanned: &[Vec<u8>],
    now_ms: u64,
) -> (r: Result<KvRun<'a>, LiteError>)
    requires
        runnable(op, writes::stored_bytes(stored), now_ms),
    ensures
        ran(op, writes::stored_bytes(stored), scanned@, now_ms, run_outcome(r)),
{
    let handler = match kv::dispatch(op) {
        Ok(h) => h,
        Err(e) => return Err(e),
    };
    match op {
        KvOp::Put { collection, key, value, ttl_ms, .. } => Ok(
            KvRun::Planned(writes::kv_put(collection, key, value, *ttl_ms, now_ms)),
        ),
        KvOp::Insert { collection, key, value, ttl_ms, .. } => run_of(
            writes::kv_insert(stored, collection, key, value, *ttl_ms, now_ms),
        ),
        KvOp::InsertIfAbsent { collection, key, value, ttl_ms, .. } => Ok(
            KvRun::Planned(
                writes::kv_insert_if_absent(stored, collection, key, value, *ttl_ms, now_ms),
            ),
        ),
        KvOp::InsertOnConflictUpdate { collection, key, value, ttl_ms, updates, .. } => run_of(
            fields::kv_insert_on_conflict_update(
                stored,
                collection,
                key,
                value,
                *ttl_ms,
                updates.as_slice(),
                now_ms,
            ),
        ),
        KvOp::Delete { collection, keys, .. } => Ok(
            KvRun::Planned(writes::kv_delete(collection, keys.as_slice())),
        ),
        KvOp::BatchPut { collection, entries, ttl_ms, .. } => Ok(
            KvRun::Planned(writes::kv_batch_put(collection, entries.as_slice(), *ttl_ms, now_ms)),
        ),
        KvOp::Expire { collection, key, ttl_ms, .. } => run_of(
            writes::kv_expire(stored, collection, key, *ttl_ms, now_ms),
        ),
        KvOp::Persist { collection, key, .. } => run_of(
            writes::kv_persist(stored, collection, key),
        ),
        KvOp::Truncate { collection } => Ok(
            KvRun::Planned(writes::kv_truncate(collection, scanned)),
        ),
        KvOp::Incr { collection, key, delta, ttl_ms, .. } => run_of(
            writes::kv_incr(stored, collection, key, *delta, *ttl_ms, now_ms),
        ),
        KvOp::Cas { collection, key, expected, new_value, .. } => Ok(
            KvRun::Planned(writes::kv_cas(stored, collection, key, expected, new_value, now_ms)),
        ),
        KvOp::GetSet { collection, key, new_value, .. } => Ok(
            KvRun::Planned(writes::kv_get_set(stored, collection, key, new_value, now_ms)),
        ),
        KvOp::FieldSet { collection, key, assignments, if_present, .. } => run_of(
            fields::kv_field_set(
                stored,
                collection,
                key,
                assignments.as_slice(),
                *if_present,
                now_ms,
            ),
        ),
        KvOp::TransferItem { source_collection, dest_collection, item_key, dest_key, .. } => run_of(
            fields::kv_transfer_item(
                stored,
                source_collection,
                dest_collection,
                item_key,
                dest_key,
                now_ms,
            ),
        ),
        _ => Ok(KvRun::Handler(handler)),
    }
}

/// An operation that a policy refuses writes nothing.
pub proof fn refused_operations_write_nothing<'a>(
    op: &'a KvOp,
    stored: Option<Seq<u8>>,
    scanned: Seq<Vec<u8>>,
    now_ms: u64,
    r: Result<KvRunView<'a>, ErrorView>,
)
    requires
        ran(op, stored, scanned, now_ms, r),
        kv::route(op) is Err,
    ensures
        r is Err,
{
}

} // verus!
