//! How entries of the key-value engine are stored.
//!
//! A stored key is the collection name, a zero byte and the user's key. A
//! stored value is an eight-byte little-endian expiry deadline, zero for none,
//! followed by the user's bytes.
use crate::bytes;
use vstd::prelude::*;
use vstd::slice::*;
use vstd::utf8::*;

verus! {

/// The stored form of a user's key.
pub open spec fn stored_key(collection: Seq<char>, key: Seq<u8>) -> Seq<u8> {
    encode_utf8(collection) + seq![0u8] + key
}

/// The stored form of a user's value.
pub open spec fn stored_value(deadline: u64, value: Seq<u8>) -> Seq<u8> {
    bytes::le64(deadline) + value
}

/// The deadline and the user's bytes of a stored value, if it holds both.
pub open spec fn parsed_value(raw: Seq<u8>) -> Option<(u64, Seq<u8>)> {
    if raw.len() < 8 {
        None
    } else {
        Some((bytes::from_le64(raw.take(8)), raw.skip(8)))
    }
}

/// Whether an entry with this deadline is gone at time `now_ms`.
pub open spec fn expired(deadline: u64, now_ms: u64) -> bool {
    deadline != 0 && now_ms >= deadline
}

/// The entry that a reader sees at time `now_ms`: the deadline and the user's
/// bytes of what is stored, unless nothing usable is stored or it has expired.
pub open spec fn live_entry(stored: Option<Seq<u8>>, now_ms: u64) -> Option<(u64, Seq<u8>)> {
    match stored {
        None => None,
        Some(raw) => match parsed_value(raw) {
            None => None,
            Some((deadline, value)) => if expired(deadline, now_ms) {
                None
            } else {
                Some((deadline, value))
            },
        },
    }
}

/// The deadline of an entry written at `now_ms` with time to live `ttl_ms`,
/// zero for none.
pub open spec fn deadline_for(ttl_ms: u64, now_ms: u64, otherwise: u64) -> u64 {
    if ttl_ms == 0 {
        otherwise
    } else {
        saturating_sum(now_ms, ttl_ms)
    }
}

/// The sum of two times, at most the latest time.
pub open spec fn saturating_sum(a: u64, b: u64) -> u64 {
    if a + b > u64::MAX {
        u64::MAX
    } else {
        (a + b) as u64
    }
}

/// The stored form of a user's key.
pub fn kv_key(collection: &str, key: &[u8]) -> (r: Vec<u8>)
    ensures
        r@ == stored_key(collection@, key@),
{
    let mut out = bytes::copy_bytes(collection.as_bytes());
    out.push(0);
    bytes::push_all(&mut out, key);
    proof {
        assert(out@ =~= stored_key(collection@, key@));
    }
    out
}

/// Splits a stored key at its first zero byte.
pub fn split_kv_key(stored: &[u8]) -> (r: Option<(Vec<u8>, Vec<u8>)>)
    ensures
        match r {
            Some((collection, key)) => {
                &&& stored@ == collection@ + seq![0u8] + key@
                &&& !collection@.contains(0)
            },
            None => !stored@.contains(0),
        },
{
    let mut i: usize = 0;
    while i < stored.len()
        invariant
            i <= stored@.len(),
            forall|j: int| 0 <= j < i ==> stored@[j] != 0,
        decreases stored@.len() - i,
    {
        if stored[i] == 0 {
            let collection = bytes::copy_bytes(slice_subrange(stored, 0, i));
            let key = bytes::copy_bytes(slice_subrange(stored, i + 1, stored.len()));
            proof {
                assert(stored@ =~= collection@ + seq![0u8] + key@);
            }
            return Some((collection, key));
        }
        i = i + 1;
    }
    None
}

/// The stored form of a user's value.
pub fn encode_value(deadline: u64, value: &[u8]) -> (r: Vec<u8>)
    ensures
        r@ == stored_value(deadline, value@),
{
    let mut out = bytes::u64_to_le(deadline);
    bytes::push_all(&mut out, value);
    out
}

/// The deadline and the user's bytes of a stored value.
pub fn decode_value(raw: &[u8]) -> (r: Option<(u64, Vec<u8>)>)
    ensures
        match r {
            Some((deadline, value)) => parsed_value(raw@) == Some((deadline, value@)),
            None => parsed_value(raw@) is None,
        },
{
    if raw.len() < 8 {
        return None;
    }
    let head = slice_subrange(raw, 0, 8);
    let tail = slice_subrange(raw, 8, raw.len());
    let deadline: u64 = bytes::u64_from_le(head);
    let value = bytes::copy_bytes(tail);
    proof {
        assert(head@ =~= raw@.take(8));
        assert(tail@ =~= raw@.skip(8));
    }
    Some((deadline, value))
}

/// Whether an entry with this deadline is gone at time `now_ms`.
pub fn is_expired(deadline: u64, now_ms: u64) -> (r: bool)
    ensures
        r == expired(deadline, now_ms),
{
    deadline != 0 && now_ms >= deadline
}

/// The deadline of an entry written at `now_ms` with time to live `ttl_ms`.
pub fn deadline_from_ttl(ttl_ms: u64, now_ms: u64, otherwise: u64) -> (r: u64)
    ensures
        r == deadline_for(ttl_ms, now_ms, otherwise),
{
    if ttl_ms > 0 {
        now_ms.saturating_add(ttl_ms)
    } else {
        otherwise
    }
}

/// What was encoded is read back: the deadline and the user's bytes of a
/// stored value are those it was made from.
pub proof fn value_round_trip(deadline: u64, value: Seq<u8>)
    ensures
        parsed_value(stored_value(deadline, value)) == Some((deadline, value)),
{
    bytes::le64_round_trip(deadline);
    let raw = stored_value(deadline, value);
    assert(raw.take(8) =~= bytes::le64(deadline));
    assert(raw.skip(8) =~= value);
}

/// Two entries share a stored key only if they share collection and key, for
/// collection names without a zero character.
pub proof fn stored_key_injective(c1: Seq<char>, k1: Seq<u8>, c2: Seq<char>, k2: Seq<u8>)
    requires
        !encode_utf8(c1).contains(0),
        !encode_utf8(c2).contains(0),
        stored_key(c1, k1) == stored_key(c2, k2),
    ensures
        c1 == c2,
        k1 == k2,
{
    let a = encode_utf8(c1);
    let b = encode_utf8(c2);
    let s = stored_key(c1, k1);
    assert(s[a.len() as int] == 0);
    assert(s[b.len() as int] == 0);
    if a.len() < b.len() {
        assert(s[a.len() as int] == b[a.len() as int]);
        assert(b.contains(0));
    }
    if b.len() < a.len() {
        assert(s[b.len() as int] == a[b.len() as int]);
        assert(a.contains(0));
    }
    assert(a =~= s.take(a.len() as int));
    assert(b =~= s.take(b.len() as int));
    assert(k1 =~= s.skip(a.len() as int + 1));
    assert(k2 =~= s.skip(b.len() as int + 1));
    encode_utf8_decode_utf8(c1);
    encode_utf8_decode_utf8(c2);
}

} // verus!
