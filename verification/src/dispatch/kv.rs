//! Routing of key-value operations.
use crate::error::{ErrorView, LiteError};
use crate::kv::fields::UpdateValue;
use crate::policy;
use crate::policy::RlsWriteCheck;
use crate::text;
use vstd::prelude::*;
use vstd::string::*;

verus! {

/// A key-value operation of a physical plan.
#[derive(Debug)]
pub enum KvOp {
    /// Reads an entry.
    Get {
        collection: String,
        key: Vec<u8>,
        rls_filters: Vec<u8>,
        surrogate_ceiling: Option<u32>,
    },
    /// Scans a collection.
    Scan {
        collection: String,
        cursor: Vec<u8>,
        count: usize,
        match_pattern: Option<String>,
        surrogate_ceiling: Option<u32>,
    },
    /// Reads the time an entry has left.
    GetTtl { collection: String, key: Vec<u8> },
    /// Reads several entries.
    BatchGet { collection: String, keys: Vec<Vec<u8>>, rls_filters: Vec<u8> },
    /// Reads fields of an entry.
    FieldGet { collection: String, key: Vec<u8>, fields: Vec<String>, rls_filters: Vec<u8> },
    /// Scans a collection for materialisation.
    MaterializeScan { collection: String, cursor: Vec<u8>, count: usize },
    /// Writes an entry.
    Put {
        collection: String,
        key: Vec<u8>,
        value: Vec<u8>,
        ttl_ms: u64,
        returning: bool,
        rls_filters: Vec<u8>,
    },
    /// Writes an entry that must not exist.
    Insert {
        collection: String,
        key: Vec<u8>,
        value: Vec<u8>,
        ttl_ms: u64,
        returning: bool,
        rls_filters: Vec<u8>,
    },
    /// Writes an entry unless it exists.
    InsertIfAbsent {
        collection: String,
        key: Vec<u8>,
        value: Vec<u8>,
        ttl_ms: u64,
        returning: bool,
        rls_filters: Vec<u8>,
    },
    /// Writes an entry or updates its fields.
    InsertOnConflictUpdate {
        collection: String,
        key: Vec<u8>,
        value: Vec<u8>,
        ttl_ms: u64,
        updates: Vec<(String, UpdateValue)>,
        rls_write_check: RlsWriteCheck,
        returning: bool,
        rls_filters: Vec<u8>,
    },
    /// Deletes entries.
    Delete {
        collection: String,
        keys: Vec<Vec<u8>>,
        rls_write_check: RlsWriteCheck,
        returning: bool,
        rls_filters: Vec<u8>,
    },
    /// Writes several entries.
    BatchPut {
        collection: String,
        entries: Vec<(Vec<u8>, Vec<u8>)>,
        ttl_ms: u64,
        returning: bool,
        rls_filters: Vec<u8>,
    },
    /// Sets a time to live.
    Expire { collection: String, key: Vec<u8>, ttl_ms: u64, rls_write_check: RlsWriteCheck },
    /// Removes a time to live.
    Persist { collection: String, key: Vec<u8>, rls_write_check: RlsWriteCheck },
    /// Deletes a whole collection.
    Truncate { collection: String },
    /// Adds to an integer counter.
    Incr {
        collection: String,
        key: Vec<u8>,
        delta: i64,
        ttl_ms: u64,
        rls_write_check: RlsWriteCheck,
    },
    /// Adds to a fractional counter.
    IncrFloat { collection: String, key: Vec<u8>, rls_write_check: RlsWriteCheck },
    /// Compares and swaps.
    Cas {
        collection: String,
        key: Vec<u8>,
        expected: Vec<u8>,
        new_value: Vec<u8>,
        rls_write_check: RlsWriteCheck,
    },
    /// Replaces a value and returns the old one.
    GetSet {
        collection: String,
        key: Vec<u8>,
        new_value: Vec<u8>,
        rls_filters: Vec<u8>,
        rls_write_check: RlsWriteCheck,
    },
    /// Sets fields of an entry.
    FieldSet {
        collection: String,
        key: Vec<u8>,
        assignments: Vec<(String, Vec<u8>)>,
        if_present: bool,
        rls_write_check: RlsWriteCheck,
        returning: bool,
        rls_filters: Vec<u8>,
    },
    /// Moves an amount between two entries.
    Transfer {
        collection: String,
        source_key: Vec<u8>,
        dest_key: Vec<u8>,
        field: String,
        rls_write_check: RlsWriteCheck,
    },
    /// Moves an item between two collections.
    TransferItem {
        source_collection: String,
        dest_collection: String,
        item_key: Vec<u8>,
        dest_key: Vec<u8>,
        source_rls_write_check: RlsWriteCheck,
        dest_rls_write_check: RlsWriteCheck,
    },
    /// Creates an index.
    RegisterIndex { collection: String, field: String, backfill: bool },
    /// Drops an index.
    DropIndex { collection: String, field: String },
    /// Creates a sorted index.
    RegisterSortedIndex {
        index_name: String,
        window_type: String,
        window_timestamp_column: String,
        window_start_ms: u64,
        window_end_ms: u64,
    },
    /// Drops a sorted index.
    DropSortedIndex { index_name: String },
    /// Ranks a key in a sorted index.
    SortedIndexRank { index_name: String, primary_key: Vec<u8> },
    /// Lists the first keys of a sorted index.
    SortedIndexTopK { index_name: String, k: u32 },
    /// Lists a range of a sorted index.
    SortedIndexRange { index_name: String, score_min: Option<Vec<u8>>, score_max: Option<Vec<u8>> },
    /// Counts a sorted index.
    SortedIndexCount { index_name: String },
    /// Reads a score in a sorted index.
    SortedIndexScore { index_name: String, primary_key: Vec<u8> },
    /// Resolves a governed write for replication.
    ResolveWrite,
    /// Replays a resolved governed write.
    ResolvedWrite,
    /// Updates the rows that a predicate selects.
    PredicateUpdate { collection: String },
    /// Deletes the rows that a predicate selects.
    PredicateDelete { collection: String },
}

/// The handler of a key-value operation, with what it is given. A write of entries is
/// planned from the operation itself.
#[derive(Debug, Clone, Copy)]
pub enum KvHandler<'a> {
    Get { collection: &'a String, key: &'a Vec<u8>, surrogate_ceiling: Option<u32> },
    Scan {
        collection: &'a String,
        cursor: &'a Vec<u8>,
        count: usize,
        match_pattern: &'a Option<String>,
        surrogate_ceiling: Option<u32>,
    },
    GetTtl { collection: &'a String, key: &'a Vec<u8> },
    BatchGet { collection: &'a String, keys: &'a Vec<Vec<u8>> },
    FieldGet { collection: &'a String, key: &'a Vec<u8>, fields: &'a Vec<String> },
    MaterializeScan { collection: &'a String, cursor: &'a Vec<u8>, count: usize },
    Put,
    Insert,
    InsertIfAbsent,
    InsertOnConflictUpdate,
    Delete,
    BatchPut,
    Expire,
    Persist,
    Truncate,
    Incr,
    IncrFloat { collection: &'a String, key: &'a Vec<u8> },
    Cas,
    GetSet,
    FieldSet,
    Transfer {
        collection: &'a String,
        source_key: &'a Vec<u8>,
        dest_key: &'a Vec<u8>,
        field: &'a String,
    },
    TransferItem,
    RegisterIndex { collection: &'a String, field: &'a String, backfill: bool },
    DropIndex { collection: &'a String, field: &'a String },
    RegisterSortedIndex {
        index_name: &'a String,
        window_type: &'a String,
        window_timestamp_column: &'a String,
        window_start_ms: u64,
        window_end_ms: u64,
    },
    DropSortedIndex { index_name: &'a String },
    SortedIndexRank { index_name: &'a String, primary_key: &'a Vec<u8> },
    SortedIndexTopK { index_name: &'a String, k: u32 },
    SortedIndexRange {
        index_name: &'a String,
        score_min: &'a Option<Vec<u8>>,
        score_max: &'a Option<Vec<u8>>,
    },
    SortedIndexCount { index_name: &'a String },
    SortedIndexScore { index_name: &'a String, primary_key: &'a Vec<u8> },
}

/// The refusal of an operation of the governed write path.
pub open spec fn governed_write_refusal(op: Seq<char>) -> ErrorView {
    ErrorView::Unsupported(
        op
            + ": the governed resolve/apply write path belongs to the Origin Control Plane and has no equivalent on the single-node Lite engine"@,
    )
}

/// The refusal of an operation that selects rows by a predicate.
pub open spec fn predicate_refusal(op: Seq<char>, collection: Seq<char>) -> ErrorView {
    ErrorView::Unsupported(
        op + " on '"@ + collection
            + "': predicates are resolved to keys before a key-value operation is built; unsupported on the Lite engine"@,
    )
}

/// The handler, unless the operation is refused.
pub open spec fn unless<'a>(
    refusal: Option<ErrorView>,
    handler: KvHandler<'a>,
) -> Result<KvHandler<'a>, ErrorView> {
    match refusal {
        Some(e) => Err(e),
        None => Ok(handler),
    }
}

/// Where an operation goes.
pub open spec fn route<'a>(op: &'a KvOp) -> Result<KvHandler<'a>, ErrorView> {
    match op {
        KvOp::Get { collection, key, rls_filters, surrogate_ceiling } => unless(
            policy::gate_refusal("KvOp::Get"@, false, rls_filters@, RlsWriteCheck::NoPolicyApplies),
            KvHandler::Get { collection, key, surrogate_ceiling: *surrogate_ceiling },
        ),
        KvOp::Scan { collection, cursor, count, match_pattern, surrogate_ceiling } => Ok(
            KvHandler::Scan {
                collection,
                cursor,
                count: *count,
                match_pattern,
                surrogate_ceiling: *surrogate_ceiling,
            },
        ),
        KvOp::GetTtl { collection, key } => Ok(KvHandler::GetTtl { collection, key }),
        KvOp::BatchGet { collection, keys, rls_filters } => unless(
            policy::gate_refusal(
                "KvOp::BatchGet"@,
                false,
                rls_filters@,
                RlsWriteCheck::NoPolicyApplies,
            ),
            KvHandler::BatchGet { collection, keys },
        ),
        KvOp::FieldGet { collection, key, fields, rls_filters } => unless(
            policy::gate_refusal(
                "KvOp::FieldGet"@,
                false,
                rls_filters@,
                RlsWriteCheck::NoPolicyApplies,
            ),
            KvHandler::FieldGet { collection, key, fields },
        ),
        KvOp::MaterializeScan { collection, cursor, count } => Ok(
            KvHandler::MaterializeScan { collection, cursor, count: *count },
        ),
        KvOp::Put { returning, rls_filters, .. } => unless(
            policy::gate_refusal(
                "KvOp::Put"@,
                *returning,
                rls_filters@,
                RlsWriteCheck::NoPolicyApplies,
            ),
            KvHandler::Put,
        ),
        KvOp::Insert { returning, rls_filters, .. } => unless(
            policy::gate_refusal(
                "KvOp::Insert"@,
                *returning,
                rls_filters@,
                RlsWriteCheck::NoPolicyApplies,
            ),
            KvHandler::Insert,
        ),
        KvOp::InsertIfAbsent { returning, rls_filters, .. } => unless(
            policy::gate_refusal(
                "KvOp::InsertIfAbsent"@,
                *returning,
                rls_filters@,
                RlsWriteCheck::NoPolicyApplies,
            ),
            KvHandler::InsertIfAbsent,
        ),
        KvOp::InsertOnConflictUpdate { rls_write_check, returning, rls_filters, .. } => unless(
            policy::gate_refusal(
                "KvOp::InsertOnConflictUpdate"@,
                *returning,
                rls_filters@,
                *rls_write_check,
            ),
            KvHandler::InsertOnConflictUpdate,
        ),
        KvOp::Delete { rls_write_check, returning, rls_filters, .. } => unless(
            policy::gate_refusal("KvOp::Delete"@, *returning, rls_filters@, *rls_write_check),
            KvHandler::Delete,
        ),
        KvOp::BatchPut { returning, rls_filters, .. } => unless(
            policy::gate_refusal(
                "KvOp::BatchPut"@,
                *returning,
                rls_filters@,
                RlsWriteCheck::NoPolicyApplies,
            ),
            KvHandler::BatchPut,
        ),
        KvOp::Expire { rls_write_check, .. } => unless(
            policy::gate_refusal("KvOp::Expire"@, false, Seq::empty(), *rls_write_check),
            KvHandler::Expire,
        ),
        KvOp::Persist { rls_write_check, .. } => unless(
            policy::gate_refusal("KvOp::Persist"@, false, Seq::empty(), *rls_write_check),
            KvHandler::Persist,
        ),
        KvOp::Truncate { .. } => Ok(KvHandler::Truncate),
        KvOp::Incr { rls_write_check, .. } => unless(
            policy::gate_refusal("KvOp::Incr"@, false, Seq::empty(), *rls_write_check),
            KvHandler::Incr,
        ),
        KvOp::IncrFloat { collection, key, rls_write_check } => unless(
            policy::gate_refusal("KvOp::IncrFloat"@, false, Seq::empty(), *rls_write_check),
            KvHandler::IncrFloat { collection, key },
        ),
        KvOp::Cas { rls_write_check, .. } => unless(
            policy::gate_refusal("KvOp::Cas"@, false, Seq::empty(), *rls_write_check),
            KvHandler::Cas,
        ),
        KvOp::GetSet { rls_filters, rls_write_check, .. } => unless(
            policy::gate_refusal("KvOp::GetSet"@, false, rls_filters@, *rls_write_check),
            KvHandler::GetSet,
        ),
        KvOp::FieldSet { rls_write_check, returning, rls_filters, .. } => unless(
            policy::gate_refusal("KvOp::FieldSet"@, *returning, rls_filters@, *rls_write_check),
            KvHandler::FieldSet,
        ),
        KvOp::Transfer { collection, source_key, dest_key, field, rls_write_check } => unless(
            policy::gate_refusal("KvOp::Transfer"@, false, Seq::empty(), *rls_write_check),
            KvHandler::Transfer { collection, source_key, dest_key, field },
        ),
        KvOp::TransferItem {
            source_rls_write_check,
            dest_rls_write_check,
            ..
        } => if source_rls_write_check.admits() && dest_rls_write_check.admits() {
            Ok(KvHandler::TransferItem)
        } else {
            Err(policy::rls_refusal("KvOp::TransferItem"@))
        },
        KvOp::RegisterIndex { collection, field, backfill } => Ok(
            KvHandler::RegisterIndex { collection, field, backfill: *backfill },
        ),
        KvOp::DropIndex { collection, field } => Ok(KvHandler::DropIndex { collection, field }),
        KvOp::RegisterSortedIndex {
            index_name,
            window_type,
            window_timestamp_column,
            window_start_ms,
            window_end_ms,
        } => Ok(
            KvHandler::RegisterSortedIndex {
                index_name,
                window_type,
                window_timestamp_column,
                window_start_ms: *window_start_ms,
                window_end_ms: *window_end_ms,
            },
        ),
        KvOp::DropSortedIndex { index_name } => Ok(KvHandler::DropSortedIndex { index_name }),
        KvOp::SortedIndexRank { index_name, primary_key } => Ok(
            KvHandler::SortedIndexRank { index_name, primary_key },
        ),
        KvOp::SortedIndexTopK { index_name, k } => Ok(
            KvHandler::SortedIndexTopK { index_name, k: *k },
        ),
        KvOp::SortedIndexRange { index_name, score_min, score_max } => Ok(
            KvHandler::SortedIndexRange { index_name, score_min, score_max },
        ),
        KvOp::SortedIndexCount { index_name } => Ok(KvHandler::SortedIndexCount { index_name }),
        KvOp::SortedIndexScore { index_name, primary_key } => Ok(
            KvHandler::SortedIndexScore { index_name, primary_key },
        ),
        KvOp::ResolveWrite => Err(governed_write_refusal("KvOp::ResolveWrite"@)),
        KvOp::ResolvedWrite => Err(governed_write_refusal("KvOp::ResolvedWrite"@)),
        KvOp::PredicateUpdate { collection } => Err(
            predicate_refusal("KvOp::PredicateUpdate"@, collection@),
        ),
        KvOp::PredicateDelete { collection } => Err(
            predicate_refusal("KvOp::PredicateDelete"@, collection@),
        ),
    }
}

/// What dispatching yields.
pub open spec fn outcome<'a>(r: Result<KvHandler<'a>, LiteError>) -> Result<
    KvHandler<'a>,
    ErrorView,
> {
    match r {
        Ok(h) => Ok(h),
        Err(e) => Err(e@),
    }
}

fn refuse_governed_write(op: &str) -> (r: LiteError)
    ensures
        r@ == governed_write_refusal(op@),
{
    let detail = text::concat2(
        op,
        ": the governed resolve/apply write path belongs to the Origin Control Plane and has no equivalent on the single-node Lite engine",
    );
    LiteError::Unsupported { detail }
}

fn refuse_predicate(op: &str, collection: &str) -> (r: LiteError)
    ensures
        r@ == predicate_refusal(op@, collection@),
{
    let mut detail = text::concat3(op, " on '", collection);
    detail.append(
        "': predicates are resolved to keys before a key-value operation is built; unsupported on the Lite engine",
    );
    LiteError::Unsupported { detail }
}

/// Passes an operation on to its handler once its policy slots are seen to be
/// empty.
fn pass<'a>(
    op: &str,
    returning: bool,
    rls: &[u8],
    check: &RlsWriteCheck,
    handler: KvHandler<'a>,
) -> (r: Result<KvHandler<'a>, LiteError>)
    ensures
        outcome(r) == unless(policy::gate_refusal(op@, returning, rls@, *check), handler),
{
    match policy::deny_gate(op, returning, rls, check) {
        Ok(_) => Ok(handler),
        Err(e) => Err(e),
    }
}

/// Chooses the handler of a key-value operation, or refuses it.
pub fn dispatch<'a>(op: &'a KvOp) -> (r: Result<KvHandler<'a>, LiteError>)
    ensures
        outcome(r) == route(op),
{
    let open = RlsWriteCheck::NoPolicyApplies;
    let no_filter: Vec<u8> = Vec::new();
    proof {
        assert(no_filter@ =~= Seq::empty());
    }
    match op {
        KvOp::Get { collection, key, rls_filters, surrogate_ceiling } => pass(
            "KvOp::Get",
            false,
            rls_filters,
            &open,
            KvHandler::Get { collection, key, surrogate_ceiling: *surrogate_ceiling },
        ),
        KvOp::Scan { collection, cursor, count, match_pattern, surrogate_ceiling } => Ok(
            KvHandler::Scan {
                collection,
                cursor,
                count: *count,
                match_pattern,
                surrogate_ceiling: *surrogate_ceiling,
            },
        ),
        KvOp::GetTtl { collection, key } => Ok(KvHandler::GetTtl { collection, key }),
        KvOp::BatchGet { collection, keys, rls_filters } => pass(
            "KvOp::BatchGet",
            false,
            rls_filters,
            &open,
            KvHandler::BatchGet { collection, keys },
        ),
        KvOp::FieldGet { collection, key, fields, rls_filters } => pass(
            "KvOp::FieldGet",
            false,
            rls_filters,
            &open,
            KvHandler::FieldGet { collection, key, fields },
        ),
        KvOp::MaterializeScan { collection, cursor, count } => Ok(
            KvHandler::MaterializeScan { collection, cursor, count: *count },
        ),
        KvOp::Put { returning, rls_filters, .. } => pass(
            "KvOp::Put",
            *returning,
            rls_filters,
            &open,
            KvHandler::Put,
        ),
        KvOp::Insert { returning, rls_filters, .. } => pass(
            "KvOp::Insert",
            *returning,
            rls_filters,
            &open,
            KvHandler::Insert,
        ),
        KvOp::InsertIfAbsent { returning, rls_filters, .. } => pass(
            "KvOp::InsertIfAbsent",
            *returning,
            rls_filters,
            &open,
            KvHandler::InsertIfAbsent,
        ),
        KvOp::InsertOnConflictUpdate { rls_write_check, returning, rls_filters, .. } => pass(
            "KvOp::InsertOnConflictUpdate",
            *returning,
            rls_filters,
            rls_write_check,
            KvHandler::InsertOnConflictUpdate,
        ),
        KvOp::Delete { rls_write_check, returning, rls_filters, .. } => pass(
            "KvOp::Delete",
            *returning,
            rls_filters,
            rls_write_check,
            KvHandler::Delete,
        ),
        KvOp::BatchPut { returning, rls_filters, .. } => pass(
            "KvOp::BatchPut",
            *returning,
            rls_filters,
            &open,
            KvHandler::BatchPut,
        ),
        KvOp::Expire { rls_write_check, .. } => pass(
            "KvOp::Expire",
            false,
            &no_filter,
            rls_write_check,
            KvHandler::Expire,
        ),
        KvOp::Persist { rls_write_check, .. } => pass(
            "KvOp::Persist",
            false,
            &no_filter,
            rls_write_check,
            KvHandler::Persist,
        ),
        KvOp::Truncate { .. } => Ok(KvHandler::Truncate),
        KvOp::Incr { rls_write_check, .. } => pass(
            "KvOp::Incr",
            false,
            &no_filter,
            rls_write_check,
            KvHandler::Incr,
        ),
        KvOp::IncrFloat { collection, key, rls_write_check } => pass(
            "KvOp::IncrFloat",
            false,
            &no_filter,
            rls_write_check,
            KvHandler::IncrFloat { collection, key },
        ),
        KvOp::Cas { rls_write_check, .. } => pass(
            "KvOp::Cas",
            false,
            &no_filter,
            rls_write_check,
            KvHandler::Cas,
        ),
        KvOp::GetSet { rls_filters, rls_write_check, .. } => pass(
            "KvOp::GetSet",
            false,
            rls_filters,
            rls_write_check,
            KvHandler::GetSet,
        ),
        KvOp::FieldSet { rls_write_check, returning, rls_filters, .. } => pass(
            "KvOp::FieldSet",
            *returning,
            rls_filters,
            rls_write_check,
            KvHandler::FieldSet,
        ),
        KvOp::Transfer { collection, source_key, dest_key, field, rls_write_check } => pass(
            "KvOp::Transfer",
            false,
            &no_filter,
            rls_write_check,
            KvHandler::Transfer { collection, source_key, dest_key, field },
        ),
        KvOp::TransferItem { source_rls_write_check, dest_rls_write_check, .. } => {
            match pass(
                "KvOp::TransferItem",
                false,
                &no_filter,
                source_rls_write_check,
                KvHandler::TransferItem,
            ) {
                Ok(_) => pass(
                    "KvOp::TransferItem",
                    false,
                    &no_filter,
                    dest_rls_write_check,
                    KvHandler::TransferItem,
                ),
                Err(e) => Err(e),
            }
        },
        KvOp::RegisterIndex { collection, field, backfill } => Ok(
            KvHandler::RegisterIndex { collection, field, backfill: *backfill },
        ),
        KvOp::DropIndex { collection, field } => Ok(KvHandler::DropIndex { collection, field }),
        KvOp::RegisterSortedIndex {
            index_name,
            window_type,
            window_timestamp_column,
            window_start_ms,
            window_end_ms,
        } => Ok(
            KvHandler::RegisterSortedIndex {
                index_name,
                window_type,
                window_timestamp_column,
                window_start_ms: *window_start_ms,
                window_end_ms: *window_end_ms,
            },
        ),
        KvOp::DropSortedIndex { index_name } => Ok(KvHandler::DropSortedIndex { index_name }),
        KvOp::SortedIndexRank { index_name, primary_key } => Ok(
            KvHandler::SortedIndexRank { index_name, primary_key },
        ),
        KvOp::SortedIndexTopK { index_name, k } => Ok(
            KvHandler::SortedIndexTopK { index_name, k: *k },
        ),
        KvOp::SortedIndexRange { index_name, score_min, score_max } => Ok(
            KvHandler::SortedIndexRange { index_name, score_min, score_max },
        ),
        KvOp::SortedIndexCount { index_name } => Ok(KvHandler::SortedIndexCount { index_name }),
        KvOp::SortedIndexScore { index_name, primary_key } => Ok(
            KvHandler::SortedIndexScore { index_name, primary_key },
        ),
        KvOp::ResolveWrite => Err(refuse_governed_write("KvOp::ResolveWrite")),
        KvOp::ResolvedWrite => Err(refuse_governed_write("KvOp::ResolvedWrite")),
        KvOp::PredicateUpdate { collection } => Err(
            refuse_predicate("KvOp::PredicateUpdate", collection),
        ),
        KvOp::PredicateDelete { collection } => Err(
            refuse_predicate("KvOp::PredicateDelete", collection),
        ),
    }
}

} // verus!
