//! The keys under which replicated state is stored.
use crate::bytes;
use crate::persist::digits;
use vstd::arithmetic::power::*;
use vstd::prelude::*;
use vstd::slice::*;
use vstd::utf8::*;

verus! {

/// The key of a queued mutation: `delta:` and its id in sixteen hexadecimal
/// digits.
pub open spec fn delta_key(mutation_id: u64) -> Seq<u8> {
    encode_utf8("delta:"@) + digits::fixed(mutation_id as nat, 16, 16)
}

/// Whether a key belongs to the queue of mutations.
pub open spec fn is_delta_key(key: Seq<u8>) -> bool {
    bytes::has_prefix(key, encode_utf8("delta:"@))
}

/// The mutation that a key of the queue belongs to.
pub open spec fn delta_id(key: Seq<u8>) -> Option<u64> {
    let prefix = encode_utf8("delta:"@);
    if !bytes::has_prefix(key, prefix) || key.len() != prefix.len() + 16 {
        None
    } else {
        match digits::number(key.skip(prefix.len() as int), 16) {
            Some(n) => if n <= u64::MAX {
                Some(n as u64)
            } else {
                None
            },
            None => None,
        }
    }
}

/// The key of a collection's snapshot.
pub open spec fn snapshot_key(collection: Seq<char>) -> Seq<u8> {
    encode_utf8("loro_snapshot:"@) + encode_utf8(collection)
}

/// The key of an update on top of a collection's snapshot. The sequence number
/// has twenty digits, so the updates of a collection are stored in order.
pub open spec fn state_delta_key(collection: Seq<char>, seq_no: u64) -> Seq<u8> {
    encode_utf8("loro_delta:"@) + encode_utf8(collection) + encode_utf8(":"@) + digits::fixed(
        seq_no as nat,
        10,
        20,
    )
}

/// The key of a queued mutation.
pub fn delta_storage_key(mutation_id: u64) -> (r: Vec<u8>)
    ensures
        r@ == delta_key(mutation_id),
{
    let mut key = bytes::copy_bytes("delta:".as_bytes());
    let tail = digits::fixed_digits(mutation_id, 16, 16);
    bytes::push_all(&mut key, &tail);
    key
}

/// The mutation that a stored key belongs to. `None` stands for a key that
/// does not carry a mutation id.
pub fn mutation_id_from_delta_key(key: &[u8]) -> (r: Option<u64>)
    ensures
        r == delta_id(key@),
{
    let prefix = "delta:".as_bytes();
    if !bytes::starts_with(key, prefix) {
        return None;
    }
    if key.len() - prefix.len() != 16 {
        return None;
    }
    let tail = slice_subrange(key, prefix.len(), key.len());
    proof {
        assert(tail@ =~= key@.skip(prefix@.len() as int));
    }
    digits::parse_digits(tail, 16)
}

/// The key of a collection's snapshot.
pub fn snapshot_key_for(collection: &str) -> (r: Vec<u8>)
    ensures
        r@ == snapshot_key(collection@),
{
    let mut key = bytes::copy_bytes("loro_snapshot:".as_bytes());
    bytes::push_all(&mut key, collection.as_bytes());
    key
}

/// The key of an update on top of a collection's snapshot.
pub fn state_delta_key_for(collection: &str, seq_no: u64) -> (r: Vec<u8>)
    ensures
        r@ == state_delta_key(collection@, seq_no),
{
    let mut key = bytes::copy_bytes("loro_delta:".as_bytes());
    bytes::push_all(&mut key, collection.as_bytes());
    bytes::push_all(&mut key, ":".as_bytes());
    let tail = digits::fixed_digits(seq_no, 10, 20);
    bytes::push_all(&mut key, &tail);
    key
}

/// Sixteen hexadecimal digits hold every 64-bit number.
pub proof fn lemma_sixteen_digits()
    ensures
        pow(16, 16) == 0x1_0000_0000_0000_0000,
{
    reveal(pow);
    reveal_with_fuel(pow, 17);
}

/// Twenty decimal digits hold every 64-bit number.
pub proof fn lemma_twenty_digits()
    ensures
        pow(10, 20) == 100_000_000_000_000_000_000,
{
    reveal(pow);
    reveal_with_fuel(pow, 21);
}

/// The key of a mutation names it.
pub proof fn delta_key_names_its_mutation(mutation_id: u64)
    ensures
        is_delta_key(delta_key(mutation_id)),
        delta_id(delta_key(mutation_id)) == Some(mutation_id),
{
    let prefix = encode_utf8("delta:"@);
    let key = delta_key(mutation_id);
    lemma_sixteen_digits();
    digits::fixed_len(mutation_id as nat, 16, 16);
    digits::fixed_round_trip(mutation_id as nat, 16, 16);
    assert(key.take(prefix.len() as int) =~= prefix);
    assert(key.skip(prefix.len() as int) =~= digits::fixed(mutation_id as nat, 16, 16));
}

/// A key that names a mutation is the key of that mutation.
pub proof fn named_mutation_has_its_key(key: Seq<u8>)
    ensures
        delta_id(key) matches Some(id) ==> key == delta_key(id),
{
    let prefix = encode_utf8("delta:"@);
    if delta_id(key) is Some {
        let tail = key.skip(prefix.len() as int);
        digits::fixed_of_number(tail, 16);
        assert(tail.len() == 16);
        assert(key =~= key.take(prefix.len() as int) + tail);
    }
}

/// The queue is stored in the order of the mutations.
pub proof fn delta_keys_are_ordered(a: u64, b: u64)
    requires
        a < b,
    ensures
        digits::before(delta_key(a), delta_key(b)),
{
    lemma_sixteen_digits();
    digits::fixed_keeps_order(a as nat, b as nat, 16, 16);
    digits::common_prefix_keeps_order(
        encode_utf8("delta:"@),
        digits::fixed(a as nat, 16, 16),
        digits::fixed(b as nat, 16, 16),
    );
}

/// The updates of a collection are stored in the order in which they must be
/// replayed.
pub proof fn state_delta_keys_are_ordered(collection: Seq<char>, a: u64, b: u64)
    requires
        a < b,
    ensures
        digits::before(state_delta_key(collection, a), state_delta_key(collection, b)),
{
    lemma_twenty_digits();
    digits::fixed_keeps_order(a as nat, b as nat, 10, 20);
    digits::common_prefix_keeps_order(
        encode_utf8("loro_delta:"@) + encode_utf8(collection) + encode_utf8(":"@),
        digits::fixed(a as nat, 10, 20),
        digits::fixed(b as nat, 10, 20),
    );
}

} // verus!
