//! Reading the stored queue in bounded chunks.
use crate::bytes;
use crate::persist::keys;
use vstd::prelude::*;

verus! {

/// How many entries one chunk holds.
pub const CHUNK: usize = 4096;

/// The stored keys of a chunk.
pub open spec fn keys_view(chunk: Seq<Vec<u8>>) -> Seq<Seq<u8>> {
    chunk.map_values(|k: Vec<u8>| k@)
}

/// How many leading keys belong to the queue.
pub open spec fn in_prefix(chunk: Seq<Seq<u8>>) -> nat
    decreases chunk.len(),
{
    if chunk.len() == 0 || !keys::is_delta_key(chunk[0]) {
        0
    } else {
        1 + in_prefix(chunk.skip(1))
    }
}

/// The mutations of the leading keys that belong to the queue. A key that does
/// not carry a mutation id is passed over.
pub open spec fn ids_of(chunk: Seq<Seq<u8>>) -> Seq<u64>
    decreases chunk.len(),
{
    if chunk.len() == 0 || !keys::is_delta_key(chunk[0]) {
        Seq::empty()
    } else {
        match keys::delta_id(chunk[0]) {
            Some(id) => seq![id] + ids_of(chunk.skip(1)),
            None => ids_of(chunk.skip(1)),
        }
    }
}

/// Where the next chunk starts: after the last key of a full chunk that lies
/// in the queue altogether. `None` where the scan is complete.
pub open spec fn next_start(chunk: Seq<Seq<u8>>, limit: nat) -> Option<Seq<u8>> {
    if chunk.len() == 0 || chunk.len() < limit || in_prefix(chunk) < chunk.len() {
        None
    } else {
        Some(chunk.last().push(0))
    }
}

/// What one chunk of the scan yields.
#[derive(Debug)]
pub struct ChunkScan {
    /// The mutations of the chunk, in order.
    pub ids: Vec<u64>,
    /// How many leading entries belong to the queue.
    pub in_prefix: usize,
    /// Where to read on, if the scan is not complete.
    pub next_start: Option<Vec<u8>>,
}

/// Takes one chunk of a scan over the stored queue. The chunk was asked for
/// with room for `limit` entries.
pub fn scan_chunk(chunk: &[Vec<u8>], limit: usize) -> (r: ChunkScan)
    ensures
        r.ids@ == ids_of(keys_view(chunk@)),
        r.in_prefix == in_prefix(keys_view(chunk@)),
        match r.next_start {
            Some(s) => next_start(keys_view(chunk@), limit as nat) == Some(s@),
            None => next_start(keys_view(chunk@), limit as nat) is None,
        },
{
    let ghost all = keys_view(chunk@);
    let mut ids: Vec<u64> = Vec::new();
    let mut i: usize = 0;
    let prefix = "delta:".as_bytes();
    proof {
        assert(all.skip(0) =~= all);
        assert(ids@ + ids_of(all) =~= ids_of(all));
    }
    while i < chunk.len() && bytes::starts_with(&chunk[i], prefix)
        invariant
            i <= chunk@.len(),
            all == keys_view(chunk@),
            prefix@ == vstd::utf8::encode_utf8("delta:"@),
            ids@ + ids_of(all.skip(i as int)) == ids_of(all),
            i + in_prefix(all.skip(i as int)) == in_prefix(all),
        decreases chunk@.len() - i,
    {
        let ghost rest = all.skip(i as int);
        let ghost done = ids@;
        proof {
            assert(rest[0] == chunk@[i as int]@);
            assert(rest.skip(1) =~= all.skip(i as int + 1));
        }
        match keys::mutation_id_from_delta_key(&chunk[i]) {
            Some(id) => {
                ids.push(id);
                proof {
                    assert(done.push(id) + ids_of(rest.skip(1)) =~= done + (seq![id] + ids_of(
                        rest.skip(1),
                    )));
                }
            },
            None => {},
        }
        i = i + 1;
    }
    proof {
        let rest = all.skip(i as int);
        if i < chunk@.len() {
            assert(rest[0] == chunk@[i as int]@);
        }
        assert(ids_of(rest) =~= Seq::empty());
        assert(ids@ + Seq::<u64>::empty() =~= ids@);
    }
    let next_start = if chunk.len() == 0 || chunk.len() < limit || i < chunk.len() {
        None
    } else {
        let mut next = bytes::copy_bytes(&chunk[chunk.len() - 1]);
        next.push(0);
        Some(next)
    };
    ChunkScan { ids, in_prefix: i, next_start }
}

/// A scan in chunks finds what one scan of everything finds. `chunk` is what a
/// read of at most `limit` keys returned and `rest` is what lies behind it; a
/// read that came back short has nothing behind it.
pub proof fn chunks_find_everything(chunk: Seq<Seq<u8>>, rest: Seq<Seq<u8>>, limit: nat)
    requires
        chunk.len() <= limit,
        limit > 0,
        chunk.len() < limit ==> rest.len() == 0,
    ensures
        ids_of(chunk + rest) == if next_start(chunk, limit) is Some {
            ids_of(chunk) + ids_of(rest)
        } else {
            ids_of(chunk)
        },
{
    lemma_ids_of_concat(chunk, rest);
    if rest.len() == 0 {
        assert(ids_of(rest) =~= Seq::empty());
        assert(ids_of(chunk) + Seq::<u64>::empty() =~= ids_of(chunk));
    }
}

proof fn lemma_ids_of_concat(a: Seq<Seq<u8>>, b: Seq<Seq<u8>>)
    ensures
        in_prefix(a) <= a.len(),
        ids_of(a + b) == if in_prefix(a) == a.len() {
            ids_of(a) + ids_of(b)
        } else {
            ids_of(a)
        },
    decreases a.len(),
{
    if a.len() == 0 {
        assert(a + b =~= b);
        assert(Seq::<u64>::empty() + ids_of(b) =~= ids_of(b));
    } else {
        lemma_ids_of_concat(a.skip(1), b);
        assert((a + b).skip(1) =~= a.skip(1) + b);
        assert((a + b)[0] == a[0]);
        if keys::is_delta_key(a[0]) {
            match keys::delta_id(a[0]) {
                Some(id) => {
                    assert(seq![id] + (ids_of(a.skip(1)) + ids_of(b)) =~= (seq![id] + ids_of(
                        a.skip(1),
                    )) + ids_of(b));
                },
                None => {},
            }
        }
    }
}

} // verus!
