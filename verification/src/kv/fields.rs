//! Writes that look inside an entry or touch two entries: field updates and
//! transfers.
use crate::error;
use crate::error::{ErrorView, LiteError};
use crate::kv::codec;
use crate::kv::writes;
use crate::query::engine;
use crate::query::engine::{NativeKind, NativeKindView};
use crate::result;
use crate::result::{Plan, PlanView, QueryResult, ResultView};
use crate::storage;
use crate::storage::{Namespace, OpView, WriteOp};
use crate::text;
use crate::wire;
use vstd::prelude::*;

verus! {

/// The new value of a field.
#[derive(Debug)]
pub enum UpdateValue {
    /// An encoded literal.
    Literal(Vec<u8>),
    /// An expression over the row.
    Expr(nodedb_query::expr::SqlExpr),
}

/// Whether every update is a literal.
pub open spec fn all_literal(updates: Seq<(String, UpdateValue)>) -> bool {
    forall|i: int| 0 <= i < updates.len() ==> (#[trigger] updates[i]).1 is Literal
}

/// The field names and encoded values of literal updates.
pub open spec fn literals(updates: Seq<(String, UpdateValue)>) -> Seq<(Seq<char>, Seq<u8>)> {
    updates.map_values(|u: (String, UpdateValue)| (u.0@, u.1->Literal_0@))
}

/// The field names and encoded values of updates.
pub open spec fn assignments(updates: Seq<(String, Vec<u8>)>) -> Seq<(Seq<char>, Seq<u8>)> {
    updates.map_values(|u: (String, Vec<u8>)| (u.0@, u.1@))
}

/// Whether the first update that cannot be decoded is the one at `i`.
pub open spec fn first_bad(updates: Seq<(Seq<char>, Seq<u8>)>, i: int) -> bool {
    &&& 0 <= i < updates.len()
    &&& wire::decoded_native(updates[i].1) is Err
    &&& forall|j: int| 0 <= j < i ==> wire::decoded_native((#[trigger] updates[j]).1) is Ok
}

/// Whether every update can be decoded.
pub open spec fn all_decode(updates: Seq<(Seq<char>, Seq<u8>)>) -> bool {
    forall|j: int| 0 <= j < updates.len() ==> wire::decoded_native((#[trigger] updates[j]).1) is Ok
}

/// A map after updates, made in order.
pub open spec fn updated(
    base: Map<Seq<char>, nodedb_types::Value>,
    updates: Seq<(Seq<char>, Seq<u8>)>,
) -> Map<Seq<char>, nodedb_types::Value>
    decreases updates.len(),
{
    if updates.len() == 0 {
        base
    } else {
        updated(base, updates.drop_last()).insert(
            updates.last().0,
            wire::decoded_native(updates.last().1)->Ok_0,
        )
    }
}

/// Applies one encoded update.
fn apply_update(
    fields: &mut Vec<(String, nodedb_types::Value)>,
    name: &str,
    encoded: &[u8],
) -> (r: Result<(), String>)
    requires
        wire::distinct_names(old(fields)@),
        wire::all_storable(old(fields)@),
    ensures
        wire::distinct_names(final(fields)@),
        wire::all_storable(final(fields)@),
        match r {
            Ok(_) => wire::decoded_native(encoded@) is Ok && wire::fields_map(final(fields)@)
                == wire::fields_map(old(fields)@).insert(
                name@,
                wire::decoded_native(encoded@)->Ok_0,
            ),
            Err(e) => wire::decoded_native(encoded@) == Err::<nodedb_types::Value, Seq<char>>(e@),
        },
{
    match wire::decode_native(encoded) {
        Ok(v) => {
            wire::set_field(fields, name, v);
            Ok(())
        },
        Err(e) => Err(e),
    }
}

/// A write that stores an encoding of `map` under one key.
pub open spec fn stores_fields(
    p: PlanView,
    key: Seq<u8>,
    deadline: u64,
    map: Map<Seq<char>, nodedb_types::Value>,
    answer: ResultView,
) -> bool {
    &&& p.result == answer
    &&& p.ops.len() == 1
    &&& p.ops[0] matches OpView::Put { ns, key: k, value } && ns == Namespace::Kv && k == key && {
        &&& codec::parsed_value(value) is Some
        &&& (codec::parsed_value(value)->0).0 == deadline
        &&& wire::encodes_fields((codec::parsed_value(value)->0).1, map)
    }
}

/// Stores a field map under one key.
fn store_fields(
    collection: &str,
    key: &[u8],
    deadline: u64,
    fields: Vec<(String, nodedb_types::Value)>,
    encode_failure: &str,
    answer: QueryResult,
) -> (r: Result<Plan, LiteError>)
    requires
        wire::distinct_names(fields@),
        wire::all_storable(fields@),
    ensures
        match r {
            Ok(p) => stores_fields(
                p@,
                codec::stored_key(collection@, key@),
                deadline,
                wire::fields_map(fields@),
                answer@,
            ),
            Err(_) => false,
        },
{
    match wire::encode_fields(fields) {
        Ok(encoded) => {
            proof {
                codec::value_round_trip(deadline, encoded@);
            }
            Ok(
                Plan::put(
                    Namespace::Kv,
                    codec::kv_key(collection, key),
                    codec::encode_value(deadline, &encoded),
                    answer,
                ),
            )
        },
        Err(e) => Err(LiteError::Serialization { detail: text::concat2(encode_failure, &e) }),
    }
}

/// Sets fields of an entry that holds a map.
///
/// With `if_present` an absent or expired entry is left alone and no row is
/// affected. Without it the entry is created from nothing.
pub fn kv_field_set(
    stored: Option<&[u8]>,
    collection: &str,
    key: &[u8],
    updates: &[(String, Vec<u8>)],
    if_present: bool,
    now_ms: u64,
) -> (r: Result<Plan, LiteError>)
    ensures
        field_set_spec(
            writes::stored_bytes(stored),
            codec::stored_key(collection@, key@),
            assignments(updates@),
            if_present,
            now_ms,
            result::outcome(r),
        ),
{
    let mut deadline: u64 = 0;
    let mut fields: Vec<(String, nodedb_types::Value)> = Vec::new();
    let mut present: bool = false;
    if let Some(raw) = stored {
        match codec::decode_value(raw) {
            None => {
                return Err(error::storage_error("corrupt KV entry"));
            },
            Some((d, value)) => {
                if !codec::is_expired(d, now_ms) {
                    match wire::decode_fields(&value) {
                        Err(e) => {
                            return Err(
                                LiteError::Serialization {
                                    detail: text::concat2("FieldSet: decode existing value: ", &e),
                                },
                            );
                        },
                        Ok(f) => {
                            deadline = d;
                            fields = f;
                            present = true;
                        },
                    }
                }
            },
        }
    }
    if !present && if_present {
        return Ok(Plan::without_writes(QueryResult::tagged(0, "UPDATE")));
    }
    let ghost base = field_set_base(writes::stored_bytes(stored), now_ms)->Ok_0.1;
    let ghost all = assignments(updates@);
    proof {
        if !present {
            assert(wire::fields_map(fields@) =~= Map::empty());
        }
        assert(all.take(0) =~= Seq::empty());
    }
    let mut i: usize = 0;
    while i < updates.len()
        invariant
            i <= updates@.len(),
            all == assignments(updates@),
            wire::distinct_names(fields@),
            wire::all_storable(fields@),
            wire::fields_map(fields@) == updated(base, all.take(i as int)),
            forall|j: int| 0 <= j < i ==> wire::decoded_native((#[trigger] all[j]).1) is Ok,
            field_set_base(writes::stored_bytes(stored), now_ms) == Ok::<
                (u64, Map<Seq<char>, nodedb_types::Value>, bool),
                ErrorView,
            >((deadline, base, present)),
            if_present ==> present,
        decreases updates@.len() - i,
    {
        proof {
            assert(all[i as int] == (updates@[i as int].0@, updates@[i as int].1@));
            assert(all.take(i as int + 1).drop_last() =~= all.take(i as int));
        }
        if let Err(e) = apply_update(&mut fields, updates[i].0.as_str(), &updates[i].1) {
            let detail = text::concat5(
                "FieldSet decode field '",
                updates[i].0.as_str(),
                "': ",
                &e,
                "",
            );
            proof {
                assert(first_bad(all, i as int));
                reveal_strlit("");
                assert(detail@ =~= bad_field(all, i as int));
            }
            return Err(LiteError::Serialization { detail });
        }
        i = i + 1;
    }
    proof {
        assert(all.take(all.len() as int) =~= all);
    }
    store_fields(
        collection,
        key,
        deadline,
        fields,
        "FieldSet encode: ",
        QueryResult::tagged(1, "UPDATE"),
    )
}

/// What a field update starts from: the deadline, the fields, and whether a
/// live entry holds them.
pub open spec fn field_set_base(stored: Option<Seq<u8>>, now_ms: u64) -> Result<
    (u64, Map<Seq<char>, nodedb_types::Value>, bool),
    ErrorView,
> {
    match stored {
        None => Ok((0u64, Map::empty(), false)),
        Some(raw) => match codec::parsed_value(raw) {
            None => Err(writes::corrupt_entry()),
            Some((deadline, value)) => if codec::expired(deadline, now_ms) {
                Ok((0u64, Map::empty(), false))
            } else {
                match wire::decoded_fields(value) {
                    Err(e) => Err(
                        ErrorView::Serialization("FieldSet: decode existing value: "@ + e),
                    ),
                    Ok(m) => Ok((deadline, m, true)),
                }
            },
        },
    }
}

/// The refusal of an update that cannot be decoded.
pub open spec fn bad_field(updates: Seq<(Seq<char>, Seq<u8>)>, i: int) -> Seq<char> {
    "FieldSet decode field '"@ + updates[i].0 + "': "@ + wire::decoded_native(updates[i].1)->Err_0
}

/// What a field update does.
pub open spec fn field_set_spec(
    stored: Option<Seq<u8>>,
    stored_key: Seq<u8>,
    updates: Seq<(Seq<char>, Seq<u8>)>,
    if_present: bool,
    now_ms: u64,
    r: Result<PlanView, ErrorView>,
) -> bool {
    match field_set_base(stored, now_ms) {
        Err(e) => r == Err::<PlanView, ErrorView>(e),
        Ok((deadline, base, present)) => if if_present && !present {
            r == Ok::<PlanView, ErrorView>(
                result::read_only(result::tagged_view(0, "UPDATE"@)),
            )
        } else {
            match r {
                Ok(p) => all_decode(updates) && stores_fields(
                    p,
                    stored_key,
                    deadline,
                    updated(base, updates),
                    result::tagged_view(1, "UPDATE"@),
                ),
                Err(e) => exists|i: int| #[trigger]
                    first_bad(updates, i) && e == ErrorView::Serialization(bad_field(updates, i)),
            }
        },
    }
}

/// The refusal of a conflict update that cannot be decoded.
pub open spec fn bad_literal(updates: Seq<(Seq<char>, Seq<u8>)>, i: int) -> Seq<char> {
    "InsertOnConflictUpdate: decode update literal for '"@ + updates[i].0 + "': "@
        + wire::decoded_native(updates[i].1)->Err_0
}

/// What an insert with conflict updates does.
pub open spec fn conflict_update_spec(
    stored: Option<Seq<u8>>,
    collection: Seq<char>,
    key: Seq<u8>,
    value: Seq<u8>,
    ttl_ms: u64,
    updates: Seq<(Seq<char>, Seq<u8>)>,
    now_ms: u64,
    r: Result<PlanView, ErrorView>,
) -> bool {
    match codec::live_entry(stored, now_ms) {
        None => r == Ok::<PlanView, ErrorView>(
            writes::put_plan(collection, key, value, ttl_ms, now_ms),
        ),
        Some((deadline, old_value)) => match wire::decoded_fields(old_value) {
            Err(e) => r == Err::<PlanView, ErrorView>(
                ErrorView::Serialization("InsertOnConflictUpdate: decode existing value: "@ + e),
            ),
            Ok(base) => match r {
                Ok(p) => all_decode(updates) && stores_fields(
                    p,
                    codec::stored_key(collection, key),
                    codec::deadline_for(ttl_ms, now_ms, deadline),
                    updated(base, updates),
                    result::affected_view(1),
                ),
                Err(e) => exists|i: int| #[trigger]
                    first_bad(updates, i) && e == ErrorView::Serialization(bad_literal(updates, i)),
            },
        },
    }
}

/// Writes an entry that does not exist yet, or sets fields of the one that
/// does. A new deadline is set only where a time to live is given.
pub fn kv_insert_on_conflict_update(
    stored: Option<&[u8]>,
    collection: &str,
    key: &[u8],
    value: &[u8],
    ttl_ms: u64,
    updates: &[(String, UpdateValue)],
    now_ms: u64,
) -> (r: Result<Plan, LiteError>)
    requires
        codec::live_entry(writes::stored_bytes(stored), now_ms) is Some ==> all_literal(updates@),
    ensures
        conflict_update_spec(
            writes::stored_bytes(stored),
            collection@,
            key@,
            value@,
            ttl_ms,
            literals(updates@),
            now_ms,
            result::outcome(r),
        ),
{
    let raw = match stored {
        None => {
            return Ok(writes::kv_put(collection, key, value, ttl_ms, now_ms));
        },
        Some(raw) => raw,
    };
    let (old_deadline, old_value) = match codec::decode_value(raw) {
        None => {
            return Ok(writes::kv_put(collection, key, value, ttl_ms, now_ms));
        },
        Some((d, v)) => {
            if codec::is_expired(d, now_ms) {
                return Ok(writes::kv_put(collection, key, value, ttl_ms, now_ms));
            }
            (d, v)
        },
    };
    let mut fields = match wire::decode_fields(&old_value) {
        Ok(f) => f,
        Err(e) => {
            return Err(
                LiteError::Serialization {
                    detail: text::concat2("InsertOnConflictUpdate: decode existing value: ", &e),
                },
            );
        },
    };
    let ghost base = wire::fields_map(fields@);
    let ghost all = literals(updates@);
    proof {
        assert(all.take(0) =~= Seq::empty());
        assert(codec::live_entry(writes::stored_bytes(stored), now_ms) == Some(
            (old_deadline, old_value@),
        ));
    }
    let mut i: usize = 0;
    while i < updates.len()
        invariant
            i <= updates@.len(),
            all == literals(updates@),
            all_literal(updates@),
            wire::distinct_names(fields@),
            wire::all_storable(fields@),
            wire::fields_map(fields@) == updated(base, all.take(i as int)),
            forall|j: int| 0 <= j < i ==> wire::decoded_native((#[trigger] all[j]).1) is Ok,
            codec::live_entry(writes::stored_bytes(stored), now_ms) == Some(
                (old_deadline, old_value@),
            ),
            wire::decoded_fields(old_value@) == Ok::<
                Map<Seq<char>, nodedb_types::Value>,
                Seq<char>,
            >(base),
        decreases updates@.len() - i,
    {
        proof {
            assert(updates@[i as int].1 is Literal);
            assert(all[i as int] == (updates@[i as int].0@, updates@[i as int].1->Literal_0@));
            assert(all.take(i as int + 1).drop_last() =~= all.take(i as int));
        }
        if let UpdateValue::Literal(encoded) = &updates[i].1 {
            if let Err(e) = apply_update(&mut fields, updates[i].0.as_str(), encoded) {
                let detail = text::concat5(
                    "InsertOnConflictUpdate: decode update literal for '",
                    updates[i].0.as_str(),
                    "': ",
                    &e,
                    "",
                );
                proof {
                    assert(first_bad(all, i as int));
                    reveal_strlit("");
                    assert(detail@ =~= bad_literal(all, i as int));
                }
                return Err(LiteError::Serialization { detail });
            }
        }
        i = i + 1;
    }
    proof {
        assert(all.take(all.len() as int) =~= all);
    }
    store_fields(
        collection,
        key,
        codec::deadline_from_ttl(ttl_ms, now_ms, old_deadline),
        fields,
        "encode updated KV value: ",
        QueryResult::affected(1),
    )
}

/// An entry that holds a map, taken apart.
#[derive(Debug)]
pub struct FieldEntry {
    /// The expiry deadline.
    pub deadline: u64,
    /// The fields, with distinct names.
    pub fields: Vec<(String, nodedb_types::Value)>,
}

/// The deadline and the fields of an entry.
pub open spec fn entry_view(e: FieldEntry) -> (u64, Map<Seq<char>, nodedb_types::Value>) {
    (e.deadline, wire::fields_map(e.fields@))
}

/// What a transfer finds in its source, before it looks at the balance.
pub open spec fn transfer_source_spec(
    stored: Option<Seq<u8>>,
    collection: Seq<char>,
    now_ms: u64,
) -> Result<(u64, Map<Seq<char>, nodedb_types::Value>), ErrorView> {
    match stored {
        None => Err(
            ErrorView::BadRequest("Transfer: source key not found in '"@ + collection + "'"@),
        ),
        Some(raw) => match codec::parsed_value(raw) {
            None => Err(ErrorView::Storage("corrupt KV entry: source"@)),
            Some((deadline, value)) => if codec::expired(deadline, now_ms) {
                Err(ErrorView::BadRequest("Transfer: source key is expired"@))
            } else {
                match wire::decoded_fields(value) {
                    Err(e) => Err(ErrorView::Serialization("Transfer: decode source: "@ + e)),
                    Ok(m) => Ok((deadline, m)),
                }
            },
        },
    }
}

/// Reads the source of a transfer.
pub fn kv_transfer_source(stored: Option<&[u8]>, collection: &str, now_ms: u64) -> (r: Result<
    FieldEntry,
    LiteError,
>)
    ensures
        match r {
            Ok(e) => wire::distinct_names(e.fields@) && wire::all_storable(e.fields@)
                && transfer_source_spec(
                writes::stored_bytes(stored),
                collection@,
                now_ms,
            ) == Ok::<(u64, Map<Seq<char>, nodedb_types::Value>), ErrorView>(entry_view(e)),
            Err(e) => transfer_source_spec(writes::stored_bytes(stored), collection@, now_ms)
                == Err::<(u64, Map<Seq<char>, nodedb_types::Value>), ErrorView>(e@),
        },
{
    let raw = match stored {
        None => {
            let detail = text::concat3("Transfer: source key not found in '", collection, "'");
            return Err(LiteError::BadRequest { detail });
        },
        Some(raw) => raw,
    };
    match codec::decode_value(raw) {
        None => Err(error::storage_error("corrupt KV entry: source")),
        Some((deadline, value)) => {
            if codec::is_expired(deadline, now_ms) {
                return Err(error::bad_request("Transfer: source key is expired"));
            }
            match wire::decode_fields(&value) {
                Err(e) => Err(
                    LiteError::Serialization {
                        detail: text::concat2("Transfer: decode source: ", &e),
                    },
                ),
                Ok(fields) => Ok(FieldEntry { deadline, fields }),
            }
        },
    }
}

/// What a transfer finds in its destination. Its deadline is not looked at.
pub open spec fn transfer_dest_spec(stored: Option<Seq<u8>>) -> Result<
    (u64, Map<Seq<char>, nodedb_types::Value>),
    ErrorView,
> {
    match stored {
        None => Ok((0u64, Map::empty())),
        Some(raw) => match codec::parsed_value(raw) {
            None => Err(ErrorView::Storage("corrupt KV entry: dest"@)),
            Some((deadline, value)) => match wire::decoded_fields(value) {
                Err(e) => Err(
                    ErrorView::Serialization("Transfer: decode destination value: "@ + e),
                ),
                Ok(m) => Ok((deadline, m)),
            },
        },
    }
}

/// An entry that holds nothing yet.
fn new_entry() -> (r: FieldEntry)
    ensures
        wire::distinct_names(r.fields@),
        wire::all_storable(r.fields@),
        entry_view(r) == (0u64, Map::<Seq<char>, nodedb_types::Value>::empty()),
{
    let fields: Vec<(String, nodedb_types::Value)> = Vec::new();
    proof {
        assert(wire::fields_map(fields@) =~= Map::empty());
    }
    FieldEntry { deadline: 0, fields }
}

/// Reads the destination of a transfer, which need not exist. Its deadline is
/// not looked at.
pub fn kv_transfer_dest(stored: Option<&[u8]>) -> (r: Result<FieldEntry, LiteError>)
    ensures
        match r {
            Ok(e) => wire::distinct_names(e.fields@) && wire::all_storable(e.fields@)
                && transfer_dest_spec(writes::stored_bytes(stored)) == Ok::<
                (u64, Map<Seq<char>, nodedb_types::Value>),
                ErrorView,
            >(entry_view(e)),
            Err(e) => transfer_dest_spec(writes::stored_bytes(stored)) == Err::<
                (u64, Map<Seq<char>, nodedb_types::Value>),
                ErrorView,
            >(e@),
        },
{
    match stored {
        None => Ok(new_entry()),
        Some(raw) => match codec::decode_value(raw) {
            None => Err(error::storage_error("corrupt KV entry: dest")),
            Some((deadline, value)) => match wire::decode_fields(&value) {
                Err(e) => Err(
                    LiteError::Serialization {
                        detail: text::concat2("Transfer: decode destination value: ", &e),
                    },
                ),
                Ok(fields) => Ok(FieldEntry { deadline, fields }),
            },
        },
    }
}

/// A balance that a transfer counts with.
#[derive(Debug)]
pub enum Balance {
    /// A float, as a dynamic value.
    Float(nodedb_types::Value),
    /// An integer.
    Integer(i64),
    /// The field is absent and counts as zero.
    Missing,
}

/// The balance in a field.
pub open spec fn balance_spec(map: Map<Seq<char>, nodedb_types::Value>, field: Seq<char>) -> Result<
    Balance,
    ErrorView,
> {
    if !map.dom().contains(field) {
        Ok(Balance::Missing)
    } else {
        match engine::native_kind_of(map[field]) {
            NativeKindView::Float(f) => Ok(Balance::Float(f)),
            NativeKindView::Integer(i) => Ok(Balance::Integer(i)),
            _ => Err(ErrorView::BadRequest("Transfer: field '"@ + field + "' is not numeric"@)),
        }
    }
}

/// Whether a read balance is the specified one.
pub open spec fn balance_outcome(r: Result<Balance, LiteError>) -> Result<Balance, ErrorView> {
    match r {
        Ok(b) => Ok(b),
        Err(e) => Err(e@),
    }
}

/// Reads the balance of a transfer's source.
pub fn extract_balance(fields: &Vec<(String, nodedb_types::Value)>, field: &str) -> (r: Result<
    Balance,
    LiteError,
>)
    requires
        wire::distinct_names(fields@),
    ensures
        balance_outcome(r) == balance_spec(wire::fields_map(fields@), field@),
{
    let mut i: usize = 0;
    while i < fields.len()
        invariant
            i <= fields@.len(),
            wire::distinct_names(fields@),
            forall|j: int| 0 <= j < i ==> (#[trigger] fields@[j]).0@ != field@,
        decreases fields@.len() - i,
    {
        if text::str_eq(fields[i].0.as_str(), field) {
            proof {
                wire::lemma_fields_at(fields@, i as int);
            }
            return match engine::native_kind(&fields[i].1) {
                NativeKind::Float(f) => Ok(Balance::Float(f)),
                NativeKind::Integer(n) => Ok(Balance::Integer(n)),
                _ => Err(
                    LiteError::BadRequest {
                        detail: text::concat3("Transfer: field '", field, "' is not numeric"),
                    },
                ),
            };
        }
        i = i + 1;
    }
    Ok(Balance::Missing)
}

/// Reads the balance of a transfer's destination, where a field that is no
/// number counts as absent.
pub fn extract_dest_balance(fields: &Vec<(String, nodedb_types::Value)>, field: &str) -> (r:
    Balance)
    requires
        wire::distinct_names(fields@),
    ensures
        r == match balance_spec(wire::fields_map(fields@), field@) {
            Ok(b) => b,
            Err(_) => Balance::Missing,
        },
{
    match extract_balance(fields, field) {
        Ok(b) => b,
        Err(_) => Balance::Missing,
    }
}

/// Whether `op` stores, under `key` with `deadline`, an encoding of `map` with a
/// new balance in a field. A balance is a float.
pub open spec fn puts_balance(
    op: OpView,
    key: Seq<u8>,
    deadline: u64,
    map: Map<Seq<char>, nodedb_types::Value>,
    field: Seq<char>,
    balance: nodedb_types::Value,
) -> bool {
    op matches OpView::Put { ns, key: k, value } && ns == Namespace::Kv && k == key && {
        &&& codec::parsed_value(value) is Some
        &&& (codec::parsed_value(value)->0).0 == deadline
        &&& wire::storable(balance) ==> wire::encodes_fields(
            (codec::parsed_value(value)->0).1,
            map.insert(field, balance),
        )
    }
}

/// Writes the two new balances of a transfer: both entries in one batch, each with
/// its old deadline and its other fields unchanged.
fn write_balances(
    collection: &str,
    source_key: &[u8],
    dest_key: &[u8],
    field: &str,
    source: FieldEntry,
    dest: FieldEntry,
    source_balance: nodedb_types::Value,
    dest_balance: nodedb_types::Value,
) -> (r: Result<Plan, LiteError>)
    requires
        wire::distinct_names(source.fields@),
        wire::distinct_names(dest.fields@),
        wire::all_storable(source.fields@),
        wire::all_storable(dest.fields@),
    ensures
        match r {
            Ok(p) => {
                &&& p@.result == result::affected_view(2)
                &&& p@.ops.len() == 2
                &&& puts_balance(
                    p@.ops[0],
                    codec::stored_key(collection@, source_key@),
                    source.deadline,
                    wire::fields_map(source.fields@),
                    field@,
                    source_balance,
                )
                &&& puts_balance(
                    p@.ops[1],
                    codec::stored_key(collection@, dest_key@),
                    dest.deadline,
                    wire::fields_map(dest.fields@),
                    field@,
                    dest_balance,
                )
            },
            Err(_) => false,
        },
{
    let mut source_fields = source.fields;
    let mut dest_fields = dest.fields;
    wire::set_field(&mut source_fields, field, source_balance);
    wire::set_field(&mut dest_fields, field, dest_balance);
    let source_bytes = match wire::encode_fields(source_fields) {
        Ok(b) => b,
        Err(e) => {
            return Err(
                LiteError::Serialization { detail: text::concat2("Transfer encode source: ", &e) },
            );
        },
    };
    let dest_bytes = match wire::encode_fields(dest_fields) {
        Ok(b) => b,
        Err(e) => {
            return Err(
                LiteError::Serialization { detail: text::concat2("Transfer encode dest: ", &e) },
            );
        },
    };
    let mut ops: Vec<WriteOp> = Vec::new();
    storage::push_put(
        &mut ops,
        Namespace::Kv,
        codec::kv_key(collection, source_key),
        codec::encode_value(source.deadline, &source_bytes),
    );
    storage::push_put(
        &mut ops,
        Namespace::Kv,
        codec::kv_key(collection, dest_key),
        codec::encode_value(dest.deadline, &dest_bytes),
    );
    proof {
        codec::value_round_trip(source.deadline, source_bytes@);
        codec::value_round_trip(dest.deadline, dest_bytes@);
    }
    Ok(Plan { ops, result: QueryResult::affected(2) })
}

/// What the comparison of a balance with an amount came to.
#[derive(Debug)]
pub enum Funds {
    /// The source holds less than the amount. Both are given as text.
    Insufficient { balance: String, amount: String },
    /// The source holds enough. The balances after the transfer are given.
    Enough { source: nodedb_types::Value, dest: nodedb_types::Value },
}

/// The refusal of a transfer that the source cannot cover.
pub open spec fn insufficient(
    balance: Seq<char>,
    amount: Seq<char>,
    field: Seq<char>,
) -> ErrorView {
    ErrorView::BadRequest(
        "Transfer: insufficient balance ("@ + balance + " < "@ + amount + ") in field '"@ + field
            + "'"@,
    )
}

/// What a transfer does, given what the comparison of the balances came to.
pub open spec fn transfer_spec(
    stored_source: Option<Seq<u8>>,
    stored_dest: Option<Seq<u8>>,
    collection: Seq<char>,
    source_key: Seq<u8>,
    dest_key: Seq<u8>,
    field: Seq<char>,
    now_ms: u64,
    funds: Funds,
    r: Result<PlanView, ErrorView>,
) -> bool {
    match transfer_source_spec(stored_source, collection, now_ms) {
        Err(e) => r == Err::<PlanView, ErrorView>(e),
        Ok((deadline, map)) => match balance_spec(map, field) {
            Err(e) => r == Err::<PlanView, ErrorView>(e),
            Ok(_) => match funds {
                Funds::Insufficient { balance, amount } => r == Err::<PlanView, ErrorView>(
                    insufficient(balance@, amount@, field),
                ),
                Funds::Enough { source, dest } => match transfer_dest_spec(stored_dest) {
                    Err(e) => r == Err::<PlanView, ErrorView>(e),
                    Ok((dest_deadline, dest_map)) => {
                        &&& r is Ok
                        &&& r->Ok_0.result == result::affected_view(2)
                        &&& r->Ok_0.ops.len() == 2
                        &&& puts_balance(
                            r->Ok_0.ops[0],
                            codec::stored_key(collection, source_key),
                            deadline,
                            map,
                            field,
                            source,
                        )
                        &&& puts_balance(
                            r->Ok_0.ops[1],
                            codec::stored_key(collection, dest_key),
                            dest_deadline,
                            dest_map,
                            field,
                            dest,
                        )
                    },
                },
            },
        },
    }
}

/// Moves an amount between two entries, given what the comparison of the balances
/// came to. A source that is missing, expired or not numeric, and one that does not
/// hold enough, is refused before the destination is looked at. The
/// destination is written last, so that a transfer of an entry to itself leaves
/// the balance of the destination.
pub fn kv_transfer(
    stored_source: Option<&[u8]>,
    stored_dest: Option<&[u8]>,
    collection: &str,
    source_key: &[u8],
    dest_key: &[u8],
    field: &str,
    now_ms: u64,
    funds: Funds,
) -> (r: Result<Plan, LiteError>)
    ensures
        transfer_spec(
            writes::stored_bytes(stored_source),
            writes::stored_bytes(stored_dest),
            collection@,
            source_key@,
            dest_key@,
            field@,
            now_ms,
            funds,
            result::outcome(r),
        ),
{
    let source = match kv_transfer_source(stored_source, collection, now_ms) {
        Ok(e) => e,
        Err(e) => return Err(e),
    };
    match extract_balance(&source.fields, field) {
        Ok(_) => {},
        Err(e) => return Err(e),
    }
    match funds {
        Funds::Insufficient { balance, amount } => {
            let mut detail = text::concat5(
                "Transfer: insufficient balance (",
                balance.as_str(),
                " < ",
                amount.as_str(),
                ") in field '",
            );
            detail.append(field);
            detail.append("'");
            Err(LiteError::BadRequest { detail })
        },
        Funds::Enough { source: source_balance, dest: dest_balance } => {
            let dest = match kv_transfer_dest(stored_dest) {
                Ok(e) => e,
                Err(e) => return Err(e),
            };
            write_balances(
                collection,
                source_key,
                dest_key,
                field,
                source,
                dest,
                source_balance,
                dest_balance,
            )
        },
    }
}

/// What moving an item does.
pub open spec fn transfer_item_spec(
    stored: Option<Seq<u8>>,
    source_collection: Seq<char>,
    dest_collection: Seq<char>,
    item_key: Seq<u8>,
    dest_key: Seq<u8>,
    now_ms: u64,
) -> Result<PlanView, ErrorView> {
    match stored {
        None => Err(
            ErrorView::BadRequest(
                "TransferItem: item not found in source collection '"@ + source_collection + "'"@,
            ),
        ),
        Some(raw) => match codec::parsed_value(raw) {
            None => Err(ErrorView::Storage("corrupt KV entry: source item"@)),
            Some((deadline, value)) => if codec::expired(deadline, now_ms) {
                Err(ErrorView::BadRequest("TransferItem: source item is expired"@))
            } else {
                Ok(
                    PlanView {
                        ops: seq![
                            OpView::Delete {
                                ns: Namespace::Kv,
                                key: codec::stored_key(source_collection, item_key),
                            },
                            OpView::Put {
                                ns: Namespace::Kv,
                                key: codec::stored_key(dest_collection, dest_key),
                                value: codec::stored_value(0, value),
                            },
                        ],
                        result: result::affected_view(1),
                    },
                )
            },
        },
    }
}

/// Moves an item from one collection to another, where it no longer expires.
pub fn kv_transfer_item(
    stored: Option<&[u8]>,
    source_collection: &str,
    dest_collection: &str,
    item_key: &[u8],
    dest_key: &[u8],
    now_ms: u64,
) -> (r: Result<Plan, LiteError>)
    ensures
        result::outcome(r) == transfer_item_spec(
            writes::stored_bytes(stored),
            source_collection@,
            dest_collection@,
            item_key@,
            dest_key@,
            now_ms,
        ),
{
    let raw = match stored {
        None => {
            let detail = text::concat3(
                "TransferItem: item not found in source collection '",
                source_collection,
                "'",
            );
            return Err(LiteError::BadRequest { detail });
        },
        Some(raw) => raw,
    };
    let (deadline, value) = match codec::decode_value(raw) {
        None => {
            return Err(error::storage_error("corrupt KV entry: source item"));
        },
        Some(parts) => parts,
    };
    if codec::is_expired(deadline, now_ms) {
        return Err(error::bad_request("TransferItem: source item is expired"));
    }
    let mut ops: Vec<WriteOp> = Vec::new();
    storage::push_delete(&mut ops, Namespace::Kv, codec::kv_key(source_collection, item_key));
    storage::push_put(
        &mut ops,
        Namespace::Kv,
        codec::kv_key(dest_collection, dest_key),
        codec::encode_value(0, &value),
    );
    let r = Plan { ops, result: QueryResult::affected(1) };
    proof {
        assert(r@.ops =~= transfer_item_spec(
            writes::stored_bytes(stored),
            source_collection@,
            dest_collection@,
            item_key@,
            dest_key@,
            now_ms,
        )->Ok_0.ops);
    }
    Ok(r)
}

} // verus!
