//! What synchronisation decides: how a refusal is answered, what is kept of
//! the producer's identity, and what a remote row means.
use crate::bytes;
use crate::error::{ErrorView, LiteError};
use crate::persist::queue::DeltaQueue;
use crate::storage;
use crate::storage::{Namespace, OpView, WriteOp};
use crate::text;
use crate::wire;
use vstd::prelude::*;
use vstd::utf8::*;

verus! {

/// Why the origin refused a mutation.
#[derive(Debug)]
pub enum CompensationHint {
    /// Another replica wrote the same value first.
    UniqueViolation { field: String, conflicting_value: String },
    /// The referenced row does not exist.
    ForeignKeyMissing { referenced_id: String },
    /// The principal has no write access.
    PermissionDenied,
    /// Too many requests.
    RateLimited { retry_after_ms: u64 },
    /// The row does not conform to the schema.
    SchemaViolation { field: String, reason: String },
    /// A constraint that the origin names.
    Custom { constraint: String, detail: String },
    /// The bytes did not survive the wire.
    IntegrityViolation,
    /// Anything else.
    Other,
}

/// Whether a refusal says that this replica's producer identity is unusable.
pub open spec fn identity_refused(hint: CompensationHint) -> bool {
    hint matches CompensationHint::Custom { constraint, .. } && constraint@
        == "peer_id_collision"@
}

/// Whether a refusal is a verdict on the row itself: a value that collides, a
/// parent row that does not exist, a field that the schema forbids, or bytes
/// that did not survive the wire.
pub open spec fn about_the_row(hint: CompensationHint) -> bool {
    hint is UniqueViolation || hint is ForeignKeyMissing || hint is SchemaViolation
        || hint is IntegrityViolation
}

/// Whether a refusal says that this replica's producer identity is unusable
/// rather than that its data is.
pub fn is_peer_id_collision(hint: &CompensationHint) -> (r: bool)
    ensures
        r == identity_refused(*hint),
{
    match hint {
        CompensationHint::Custom { constraint, .. } => text::str_eq(
            constraint.as_str(),
            "peer_id_collision",
        ),
        _ => false,
    }
}

/// Whether a refusal is a verdict on the row itself.
///
/// Every other refusal is a verdict on the session, and the identical bytes
/// are expected to land once its condition clears. That holds of a refusal
/// that this build cannot name, too.
pub fn refusal_is_about_the_row(hint: &CompensationHint) -> (r: bool)
    ensures
        r == about_the_row(*hint),
{
    match hint {
        CompensationHint::UniqueViolation { .. } => true,
        CompensationHint::ForeignKeyMissing { .. } => true,
        CompensationHint::SchemaViolation { .. } => true,
        CompensationHint::IntegrityViolation => true,
        _ => false,
    }
}

/// How a conflict policy resolves a refused row.
#[derive(Debug, Clone, Copy, PartialEq, Eq, Structural)]
pub enum PolicyResolution {
    /// The policy found a value that fits.
    AutoResolved,
    /// The mutation is tried again later.
    Deferred,
    /// The policy gave up.
    Escalate,
    /// The policy asks a web hook, which this engine does not call.
    WebhookRequired,
    /// The mutation is not queued.
    NotFound,
}

/// What is done with a refused mutation.
#[derive(Debug, Clone, Copy, PartialEq, Eq, Structural)]
pub enum RejectAction {
    /// Nothing: the peer id is rotated, which queues the mutation again.
    AwaitRotation,
    /// The mutation stays queued and is held back.
    Block,
    /// The conflict policy decides.
    ResolveByPolicy,
}

/// What is done with a refused mutation.
pub open spec fn reject_action(hint: CompensationHint) -> RejectAction {
    if identity_refused(hint) {
        RejectAction::AwaitRotation
    } else if about_the_row(hint) {
        RejectAction::ResolveByPolicy
    } else {
        RejectAction::Block
    }
}

/// Decides what is done with a refused mutation.
pub fn handle_reject_with_policy(hint: &CompensationHint) -> (r: RejectAction)
    ensures
        r == reject_action(*hint),
{
    if is_peer_id_collision(hint) {
        return RejectAction::AwaitRotation;
    }
    if !refusal_is_about_the_row(hint) {
        return RejectAction::Block;
    }
    RejectAction::ResolveByPolicy
}

/// Whether the mutation is dropped after its policy was consulted. Only a
/// policy that needs a web hook leaves that to be done.
pub fn drops_after_policy(resolution: PolicyResolution) -> (r: bool)
    ensures
        r == (resolution == PolicyResolution::WebhookRequired),
{
    match resolution {
        PolicyResolution::WebhookRequired => true,
        _ => false,
    }
}

/// A refusal that is not about the row never leads to a drop: neither a missing
/// grant, nor a rate limit, nor a refusal without a name.
pub proof fn only_row_refusals_reach_the_policy(hint: CompensationHint)
    ensures
        reject_action(hint) == RejectAction::ResolveByPolicy <==> about_the_row(hint),
        hint is PermissionDenied || hint is RateLimited || hint is Other ==> reject_action(hint)
            == RejectAction::Block,
{
}

/// The writes that record the producer's identity.
pub open spec fn producer_ops(producer_id: u64, accepted_epoch: u64) -> Seq<OpView> {
    seq![
        OpView::Put {
            ns: Namespace::Meta,
            key: encode_utf8("sync.producer_id"@),
            value: bytes::be64(producer_id),
        },
        OpView::Put {
            ns: Namespace::Meta,
            key: encode_utf8("sync.accepted_epoch"@),
            value: bytes::be64(accepted_epoch),
        },
    ]
}

/// Records the producer's identity.
pub fn persist_producer_state(producer_id: u64, accepted_epoch: u64) -> (r: Vec<WriteOp>)
    ensures
        storage::ops_view(r@) == producer_ops(producer_id, accepted_epoch),
{
    let mut ops: Vec<WriteOp> = Vec::new();
    storage::push_put(
        &mut ops,
        Namespace::Meta,
        bytes::copy_bytes("sync.producer_id".as_bytes()),
        bytes::u64_to_be(producer_id),
    );
    storage::push_put(
        &mut ops,
        Namespace::Meta,
        bytes::copy_bytes("sync.accepted_epoch".as_bytes()),
        bytes::u64_to_be(accepted_epoch),
    );
    proof {
        assert(storage::ops_view(ops@) =~= producer_ops(producer_id, accepted_epoch));
    }
    ops
}

/// The number that a stored part of the identity holds, zero where it holds
/// none.
pub open spec fn stored_number(stored: Option<Seq<u8>>) -> u64 {
    match stored {
        Some(b) => if b.len() == 8 {
            bytes::from_be64(b)
        } else {
            0
        },
        None => 0,
    }
}

fn load_number(stored: Option<&[u8]>) -> (r: u64)
    ensures
        r == stored_number(
            match stored {
                Some(b) => Some(b@),
                None => None,
            },
        ),
{
    match stored {
        Some(b) => {
            if b.len() == 8 {
                bytes::u64_from_be(b)
            } else {
                0
            }
        },
        None => 0,
    }
}

/// Reads the producer's identity. A part that is missing or malformed is zero.
pub fn load_producer_state(producer_id: Option<&[u8]>, accepted_epoch: Option<&[u8]>) -> (r: (
    u64,
    u64,
))
    ensures
        r.0 == stored_number(
            match producer_id {
                Some(b) => Some(b@),
                None => None,
            },
        ),
        r.1 == stored_number(
            match accepted_epoch {
                Some(b) => Some(b@),
                None => None,
            },
        ),
{
    (load_number(producer_id), load_number(accepted_epoch))
}

/// The producer's identity is read back as it was recorded.
pub proof fn producer_state_round_trip(
    store: storage::Store,
    producer_id: u64,
    accepted_epoch: u64,
)
    ensures
        ({
            let after = storage::apply_ops(store, producer_ops(producer_id, accepted_epoch));
            let a = (Namespace::Meta, encode_utf8("sync.producer_id"@));
            let b = (Namespace::Meta, encode_utf8("sync.accepted_epoch"@));
            &&& after.dom().contains(a) && stored_number(Some(after[a])) == producer_id
            &&& after.dom().contains(b) && stored_number(Some(after[b])) == accepted_epoch
        }),
{
    let ops = producer_ops(producer_id, accepted_epoch);
    let x = "sync.producer_id"@;
    let y = "sync.accepted_epoch"@;
    reveal_strlit("sync.producer_id");
    reveal_strlit("sync.accepted_epoch");
    is_ascii_chars_encode_utf8(x);
    is_ascii_chars_encode_utf8(y);
    assert(encode_utf8(x).len() != encode_utf8(y).len());
    bytes::be64_round_trip(producer_id);
    bytes::be64_round_trip(accepted_epoch);
    assert(ops.drop_last() =~= seq![ops[0]]);
    assert(seq![ops[0]].drop_last() =~= Seq::empty());
    reveal_with_fuel(storage::apply_ops, 3);
}

/// What a row that the origin sent asks for.
#[derive(Debug)]
pub enum RemoteRow {
    /// The row is removed.
    Delete,
    /// The row gets these fields.
    Upsert(Vec<(String, nodedb_types::Value)>),
}

/// Reads a row that the origin sent. A delete has no payload to read. The
/// local mutation that results is taken out of the queue, so that the row does
/// not go back to where it came from.
pub fn apply_remote_row(payload: &[u8], delete: bool) -> (r: Result<RemoteRow, LiteError>)
    ensures
        match r {
            Ok(RemoteRow::Delete) => delete,
            Ok(RemoteRow::Upsert(fields)) => {
                &&& !delete
                &&& wire::decoded_native(payload@) is Ok
                &&& wire::native_fields(wire::decoded_native(payload@)->Ok_0) == Some(
                    wire::fields_map(fields@),
                )
                &&& wire::distinct_names(fields@)
            },
            Err(e) => {
                &&& !delete
                &&& match wire::decoded_native(payload@) {
                    Err(text) => e@ == ErrorView::Storage(
                        "remote row payload decode failed: "@ + text,
                    ),
                    Ok(v) => wire::native_fields(v) is None && e@ == ErrorView::Storage(
                        "remote row payload is not an object"@,
                    ),
                }
            },
        },
{
    if delete {
        return Ok(RemoteRow::Delete);
    }
    match wire::decode_native(payload) {
        Err(e) => Err(
            LiteError::Storage { detail: text::concat2("remote row payload decode failed: ", &e) },
        ),
        Ok(v) => match wire::object_fields(v) {
            Some(fields) => Ok(RemoteRow::Upsert(fields)),
            None => Err(
                LiteError::Storage { detail: "remote row payload is not an object".to_owned() },
            ),
        },
    }
}

/// Takes the local echo of a remote row out of the queue.
pub fn drop_echo(queue: &mut DeltaQueue, mutation_id: u64)
    requires
        old(queue).wf(),
    ensures
        final(queue).wf(),
        crate::persist::queue::dropped(*old(queue), *final(queue), mutation_id),
        final(queue).live() == old(queue).live().remove(mutation_id),
{
    queue.acknowledge(mutation_id);
}

/// The sequence number of a pending delta once one is offered to it.
pub open spec fn stable_seq(current: u64, offered: u64) -> u64 {
    if current != 0 {
        current
    } else {
        offered
    }
}

/// Gives a pending delta its sequence number. One that has a number keeps it.
pub fn set_crdt_pending_delta_seq(current: u64, offered: u64) -> (r: u64)
    ensures
        r == stable_seq(current, offered),
{
    if current != 0 {
        current
    } else {
        offered
    }
}

/// A delta that is sent again after a reconnect goes out under the number of
/// its first send.
pub proof fn resend_keeps_the_number(first: u64, later: u64)
    requires
        first != 0,
    ensures
        stable_seq(stable_seq(0, first), later) == first,
{
}

/// The sequence number to send under: zero where none could be recorded.
pub fn next_stream_seq(recorded: Result<u64, LiteError>) -> (r: u64)
    ensures
        r == match recorded {
            Ok(seq) => seq,
            Err(_) => 0,
        },
{
    match recorded {
        Ok(seq) => seq,
        Err(_) => 0,
    }
}

/// Whether a document is synchronised: unless a gate that could be read says
/// otherwise.
pub fn should_sync_doc(gate: Option<bool>) -> (r: bool)
    ensures
        r == !(gate == Some(false)),
{
    match gate {
        Some(open) => open,
        None => true,
    }
}

/// The key under which a collection's description is stored.
pub open spec fn meta_key(name: Seq<char>) -> Seq<u8> {
    encode_utf8("collection:"@ + name)
}

/// The key under which a collection's description is stored.
pub fn collection_meta_key(name: &str) -> (r: Vec<u8>)
    ensures
        r@ == meta_key(name@),
{
    bytes::copy_bytes(text::concat2("collection:", name).as_str().as_bytes())
}

/// What reading a stored description gave.
#[derive(Debug, Clone, Copy, PartialEq, Eq, Structural)]
pub enum MetaRead {
    /// A description that could be decoded.
    Decoded,
    /// Bytes that could not be decoded.
    Undecodable,
    /// Nothing is stored.
    Missing,
    /// The store could not be read.
    Failed,
}

/// Where a collection's description comes from.
#[derive(Debug, Clone, Copy, PartialEq, Eq, Structural)]
pub enum MetaSource {
    /// The stored one.
    Stored,
    /// The one implied by what the collection holds.
    Implicit,
    /// There is none.
    Nowhere,
}

/// Chooses where a collection's description comes from. Only a collection with
/// nothing stored is described by what it holds: a description that cannot be
/// read is not replaced by a guess.
pub fn get_collection_meta(read: MetaRead) -> (r: MetaSource)
    ensures
        r == MetaSource::Stored <==> read == MetaRead::Decoded,
        r == MetaSource::Implicit <==> read == MetaRead::Missing,
{
    match read {
        MetaRead::Decoded => MetaSource::Stored,
        MetaRead::Missing => MetaSource::Implicit,
        MetaRead::Undecodable => MetaSource::Nowhere,
        MetaRead::Failed => MetaSource::Nowhere,
    }
}

/// A refusal for what the row holds goes to its policy. One for this replica's
/// identity waits for a new identity. Every other one, also one that the origin
/// names in words of its own, holds the mutation back.
pub proof fn refusals_are_told_apart(hint: &CompensationHint, r: RejectAction)
    requires
        call_ensures(handle_reject_with_policy, (hint,), r),
    ensures
        match *hint {
            CompensationHint::UniqueViolation { .. } => r == RejectAction::ResolveByPolicy,
            CompensationHint::ForeignKeyMissing { .. } => r == RejectAction::ResolveByPolicy,
            CompensationHint::SchemaViolation { .. } => r == RejectAction::ResolveByPolicy,
            CompensationHint::IntegrityViolation => r == RejectAction::ResolveByPolicy,
            CompensationHint::Custom { constraint, .. } => if constraint@ == "peer_id_collision"@ {
                r == RejectAction::AwaitRotation
            } else {
                r == RejectAction::Block
            },
            _ => r == RejectAction::Block,
        },
{
}

/// Of the ways a policy can end, only a web hook drops the mutation.
pub proof fn only_a_web_hook_drops(resolution: PolicyResolution, r: bool)
    requires
        call_ensures(drops_after_policy, (resolution,), r),
    ensures
        resolution == PolicyResolution::WebhookRequired ==> r,
        resolution == PolicyResolution::AutoResolved || resolution == PolicyResolution::Deferred
            || resolution == PolicyResolution::Escalate || resolution == PolicyResolution::NotFound
            ==> !r,
{
}

/// A remote delete needs no payload. A remote write carries exactly the fields of
/// its object, and is refused just where there is none.
pub proof fn remote_rows_mean_what_they_carry(
    payload: &[u8],
    delete: bool,
    r: Result<RemoteRow, LiteError>,
)
    requires
        call_ensures(apply_remote_row, (payload, delete), r),
    ensures
        delete ==> r is Ok && r->Ok_0 is Delete,
        !delete ==> {
            let v = wire::decoded_native(payload@);
            &&& r is Ok <==> v is Ok && wire::native_fields(v->Ok_0) is Some
            &&& r is Ok ==> (r->Ok_0 matches RemoteRow::Upsert(fields) && wire::fields_map(fields@)
                == wire::native_fields(v->Ok_0)->0)
        },
{
}

/// A delta takes the first number it is offered and keeps it. What could not be
/// recorded is sent under zero. A document is held back only by a gate that says
/// so.
pub proof fn numbers_and_gates_are_taken_at_their_word(
    current: u64,
    offered: u64,
    recorded: Result<u64, LiteError>,
    gate: Option<bool>,
    seq: u64,
    stream: u64,
    sent: bool,
)
    requires
        call_ensures(set_crdt_pending_delta_seq, (current, offered), seq),
        call_ensures(next_stream_seq, (recorded,), stream),
        call_ensures(should_sync_doc, (gate,), sent),
    ensures
        current > 0 ==> seq == current,
        current == 0 ==> seq == offered,
        recorded is Ok ==> stream == recorded->Ok_0,
        recorded is Err ==> stream == 0,
        sent <==> gate is None || gate->0,
{
}

/// Two collections never share the place of their descriptions.
pub proof fn descriptions_have_places_of_their_own(a: Seq<char>, b: Seq<char>)
    requires
        meta_key(a) == meta_key(b),
    ensures
        a == b,
{
    encode_utf8_decode_utf8("collection:"@ + a);
    encode_utf8_decode_utf8("collection:"@ + b);
    assert(("collection:"@ + a).skip("collection:"@.len() as int) =~= a);
    assert(("collection:"@ + b).skip("collection:"@.len() as int) =~= b);
}

/// A description that is stored but cannot be read is not replaced by a guess.
pub proof fn unreadable_description_is_no_description(read: MetaRead, r: MetaSource)
    requires
        call_ensures(get_collection_meta, (read,), r),
    ensures
        read == MetaRead::Decoded ==> r == MetaSource::Stored,
        read == MetaRead::Missing ==> r == MetaSource::Implicit,
        read == MetaRead::Undecodable || read == MetaRead::Failed ==> r == MetaSource::Nowhere,
{
}

} // verus!
