//! Which indexes a collection owns, and which slots a search may answer with.
use crate::persist::digits;
use crate::text;
use crate::value::names_view;
use crate::vector::nodes;
use crate::vector::state;
use crate::vector::state::{IdEntry, IdView};
use vstd::prelude::*;
use vstd::utf8::*;

verus! {

/// A compressed set of slots.
#[verifier::external_type_specification]
#[verifier::external_body]
pub struct ExRoaringBitmap(roaring::RoaringBitmap);

/// The slots in a bitmap.
pub uninterp spec fn bitmap_slots(b: roaring::RoaringBitmap) -> Set<u32>;

/// Calls `RoaringBitmap::new`, which makes an empty set.
#[verifier::external_body]
fn empty_bitmap() -> (r: roaring::RoaringBitmap)
    ensures
        bitmap_slots(r) == Set::<u32>::empty(),
{
    roaring::RoaringBitmap::new()
}

/// Calls `RoaringBitmap::insert`, which adds a value to the set and reports
/// whether it was absent.
#[verifier::external_body]
fn bitmap_insert(b: &mut roaring::RoaringBitmap, slot: u32) -> (r: bool)
    ensures
        bitmap_slots(*final(b)) == bitmap_slots(*old(b)).insert(slot),
        r == !bitmap_slots(*old(b)).contains(slot),
{
    b.insert(slot)
}

/// Whether a binding is of an index and of one of the allowed documents.
pub open spec fn allowed_entry(e: IdView, index: Seq<char>, allowed: Seq<Seq<char>>) -> bool {
    nodes::belongs(e, index) && allowed.contains(e.doc_id)
}

/// The slots of the first `n` bindings that may answer a search.
pub open spec fn allowed_slots(
    ids: Seq<IdView>,
    index: Seq<char>,
    allowed: Seq<Seq<char>>,
    n: int,
) -> Set<u32> {
    Set::new(
        |slot: u32|
            exists|i: int|
                0 <= i < n && (#[trigger] ids[i]).slot == slot && allowed_entry(
                    ids[i],
                    index,
                    allowed,
                ),
    )
}

/// Whether a name is in a list.
fn listed(names: &[String], name: &str) -> (r: bool)
    ensures
        r == names_view(names@).contains(name@),
{
    let ghost all = names_view(names@);
    let mut i: usize = 0;
    while i < names.len()
        invariant
            i <= names@.len(),
            all == names_view(names@),
            forall|j: int| 0 <= j < i ==> #[trigger] all[j] != name@,
        decreases names@.len() - i,
    {
        if text::str_eq(names[i].as_str(), name) {
            proof {
                assert(all[i as int] == name@);
            }
            return true;
        }
        i = i + 1;
    }
    false
}

/// The slots that a search of an index may answer with: those of the allowed
/// documents, or all where every document is allowed.
pub fn search_prefilter(ids: &[IdEntry], index: &str, allowed: Option<&[String]>) -> (r: Option<
    roaring::RoaringBitmap,
>)
    ensures
        match (allowed, r) {
            (None, None) => true,
            (Some(names), Some(b)) => bitmap_slots(b) == allowed_slots(
                state::ids_view(ids@),
                index@,
                names_view(names@),
                ids@.len() as int,
            ),
            _ => false,
        },
{
    let names = match allowed {
        Some(names) => names,
        None => return None,
    };
    let mut bitmap = empty_bitmap();
    let ghost all = state::ids_view(ids@);
    let ghost docs = names_view(names@);
    let mut i: usize = 0;
    proof {
        assert(allowed_slots(all, index@, docs, 0) =~= Set::<u32>::empty());
    }
    while i < ids.len()
        invariant
            i <= ids@.len(),
            all == state::ids_view(ids@),
            docs == names_view(names@),
            bitmap_slots(bitmap) == allowed_slots(all, index@, docs, i as int),
        decreases ids@.len() - i,
    {
        let ghost before = allowed_slots(all, index@, docs, i as int);
        let ghost after = allowed_slots(all, index@, docs, i as int + 1);
        proof {
            assert(all[i as int] == ids@[i as int]@);
        }
        let key = state::slot_key_string(index, ids[i].slot);
        if text::str_eq(ids[i].key.as_str(), key.as_str()) && listed(
            names,
            ids[i].doc_id.as_str(),
        ) {
            bitmap_insert(&mut bitmap, ids[i].slot);
            proof {
                assert forall|s: u32| after.contains(s) == before.insert(
                    ids@[i as int].slot,
                ).contains(s) by {
                    if before.contains(s) {
                        let k = choose|k: int|
                            0 <= k < i && (#[trigger] all[k]).slot == s && allowed_entry(
                                all[k],
                                index@,
                                docs,
                            );
                        assert(0 <= k < i + 1 && all[k].slot == s);
                    }
                    if s == ids@[i as int].slot {
                        assert(all[i as int].slot == s);
                    }
                }
                assert(after =~= before.insert(ids@[i as int].slot));
            }
        } else {
            proof {
                assert forall|s: u32| after.contains(s) == before.contains(s) by {
                    if before.contains(s) {
                        let k = choose|k: int|
                            0 <= k < i && (#[trigger] all[k]).slot == s && allowed_entry(
                                all[k],
                                index@,
                                docs,
                            );
                        assert(0 <= k < i + 1 && all[k].slot == s);
                    }
                }
                assert(after =~= before);
            }
        }
        i = i + 1;
    }
    Some(bitmap)
}

/// Whether an index belongs to a collection under a name.
pub open spec fn owned(collection: Seq<char>, key: Seq<char>) -> bool {
    text::has_prefix(key, collection + ":"@)
}

/// Whether a name is the key of an index of a collection: the collection itself,
/// or a named index of it that is live or configured.
pub open spec fn collection_index(
    collection: Seq<char>,
    live: Seq<Seq<char>>,
    configured: Seq<Seq<char>>,
    key: Seq<char>,
) -> bool {
    key == collection || (owned(collection, key) && (live.contains(key) || configured.contains(
        key,
    )))
}

/// Whether names are in the order of their bytes, each once.
pub open spec fn in_order(keys: Seq<Seq<char>>) -> bool {
    forall|i: int, j: int|
        0 <= i < j < keys.len() ==> digits::before(
            encode_utf8(#[trigger] keys[i]),
            encode_utf8(#[trigger] keys[j]),
        )
}

/// Puts a name into an ordered list, where it is not there yet.
fn insert_ordered(keys: &mut Vec<String>, key: &str)
    requires
        in_order(names_view(old(keys)@)),
    ensures
        in_order(names_view(final(keys)@)),
        forall|n: Seq<char>| #[trigger]
            names_view(final(keys)@).contains(n) == (n == key@ || names_view(
                old(keys)@,
            ).contains(n)),
{
    let ghost before = names_view(keys@);
    let ghost bytes = encode_utf8(key@);
    let mut i: usize = 0;
    while i < keys.len() && digits::bytes_before(keys[i].as_str().as_bytes(), key.as_bytes())
        invariant
            i <= keys@.len(),
            keys@ == old(keys)@,
            before == names_view(keys@),
            bytes == encode_utf8(key@),
            in_order(before),
            forall|j: int| 0 <= j < i ==> digits::before(encode_utf8(#[trigger] before[j]), bytes),
        decreases keys@.len() - i,
    {
        i = i + 1;
    }
    if i < keys.len() && text::str_eq(keys[i].as_str(), key) {
        proof {
            assert(before[i as int] == key@);
        }
        return;
    }
    let name = key.to_owned();
    proof {
        if i < keys@.len() {
            digits::lemma_before_total(encode_utf8(before[i as int]), bytes);
            if encode_utf8(before[i as int]) == bytes {
                lemma_same_text(before[i as int], key@);
            }
            assert(digits::before(bytes, encode_utf8(before[i as int])));
            assert forall|j: int| i <= j < before.len() implies digits::before(
                bytes,
                encode_utf8(#[trigger] before[j]),
            ) by {
                if j > i {
                    digits::lemma_before_transitive(
                        bytes,
                        encode_utf8(before[i as int]),
                        encode_utf8(before[j]),
                    );
                }
            }
        }
    }
    keys.insert(i, name);
    proof {
        let after = names_view(keys@);
        assert(after =~= before.insert(i as int, key@));
        assert forall|a: int, b: int| 0 <= a < b < after.len() implies digits::before(
            encode_utf8(#[trigger] after[a]),
            encode_utf8(#[trigger] after[b]),
        ) by {
            if b < i {
                assert(after[a] == before[a]);
                assert(after[b] == before[b]);
            } else if a < i && b == i {
                assert(after[a] == before[a]);
            } else if a < i {
                assert(after[a] == before[a]);
                assert(after[b] == before[b - 1]);
            } else if a == i {
                assert(after[b] == before[b - 1]);
            } else {
                assert(after[a] == before[a - 1]);
                assert(after[b] == before[b - 1]);
            }
        }
        assert forall|n: Seq<char>| #[trigger] after.contains(n) == (n == key@ || before.contains(
            n,
        )) by {
            if after.contains(n) {
                let k = choose|k: int| 0 <= k < after.len() && after[k] == n;
                if k < i {
                    assert(before[k] == n);
                } else if k > i {
                    assert(before[k - 1] == n);
                }
            }
            if n == key@ {
                assert(after[i as int] == n);
            }
            if before.contains(n) {
                let k = choose|k: int| 0 <= k < before.len() && before[k] == n;
                if k < i {
                    assert(after[k] == n);
                } else {
                    assert(after[k + 1] == n);
                }
            }
        }
    }
}

proof fn lemma_same_text(a: Seq<char>, b: Seq<char>)
    requires
        encode_utf8(a) == encode_utf8(b),
    ensures
        a == b,
{
    encode_utf8_decode_utf8(a);
    encode_utf8_decode_utf8(b);
}

/// Puts the owned names of a list into an ordered list.
fn insert_owned(keys: &mut Vec<String>, collection: &str, names: &[String])
    requires
        in_order(names_view(old(keys)@)),
    ensures
        in_order(names_view(final(keys)@)),
        forall|n: Seq<char>| #[trigger]
            names_view(final(keys)@).contains(n) == (names_view(old(keys)@).contains(n) || (owned(
                collection@,
                n,
            ) && names_view(names@).contains(n))),
{
    let prefix = text::concat2(collection, ":");
    let ghost all = names_view(names@);
    let ghost start = names_view(keys@);
    let mut i: usize = 0;
    proof {
        assert forall|n: Seq<char>| #[trigger] start.contains(n) == (start.contains(n) || (owned(
            collection@,
            n,
        ) && all.take(0).contains(n))) by {
            assert(!all.take(0).contains(n));
        }
    }
    while i < names.len()
        invariant
            i <= names@.len(),
            prefix@ == collection@ + ":"@,
            all == names_view(names@),
            in_order(names_view(keys@)),
            forall|n: Seq<char>| #[trigger]
                names_view(keys@).contains(n) == (start.contains(n) || (owned(collection@, n)
                    && all.take(i as int).contains(n))),
        decreases names@.len() - i,
    {
        let ghost before = names_view(keys@);
        let ghost next = all.take(i as int + 1);
        proof {
            assert(all[i as int] == names@[i as int]@);
            assert forall|n: Seq<char>| #[trigger] next.contains(n) == (all.take(
                i as int,
            ).contains(n) || n == all[i as int]) by {
                if next.contains(n) {
                    let k = choose|k: int| 0 <= k < next.len() && next[k] == n;
                    if k < i {
                        assert(all.take(i as int)[k] == n);
                    }
                }
                if all.take(i as int).contains(n) {
                    let k = choose|k: int|
                        0 <= k < all.take(i as int).len() && all.take(i as int)[k] == n;
                    assert(next[k] == n);
                }
                assert(next[i as int] == all[i as int]);
            }
        }
        if text::starts_with(names[i].as_str(), prefix.as_str()) {
            insert_ordered(keys, names[i].as_str());
        }
        proof {
            assert forall|n: Seq<char>| #[trigger] names_view(keys@).contains(n) == (
            start.contains(n) || (owned(collection@, n) && next.contains(n))) by {
                assert(next.contains(n) == (all.take(i as int).contains(n) || n == all[i as int]));
                assert(before.contains(n) == (start.contains(n) || (owned(collection@, n)
                    && all.take(i as int).contains(n))));
            }
        }
        i = i + 1;
    }
    proof {
        assert(all.take(i as int) =~= all);
    }
}

/// The keys of the indexes of a collection, in order, each once: the collection
/// itself, and each named index of it that is live or configured. A collection
/// whose name merely begins the same is not touched.
pub fn collection_indexes(collection: &str, live: &[String], configured: &[String]) -> (r: Vec<
    String,
>)
    ensures
        in_order(names_view(r@)),
        forall|k: Seq<char>| #[trigger]
            names_view(r@).contains(k) == collection_index(
                collection@,
                names_view(live@),
                names_view(configured@),
                k,
            ),
{
    let mut keys: Vec<String> = Vec::new();
    keys.push(collection.to_owned());
    proof {
        assert(names_view(keys@) =~= seq![collection@]);
        assert forall|n: Seq<char>| #[trigger] names_view(keys@).contains(n) == (n
            == collection@) by {
            if n == collection@ {
                assert(names_view(keys@)[0] == n);
            }
        }
    }
    insert_owned(&mut keys, collection, live);
    insert_owned(&mut keys, collection, configured);
    keys
}

} // verus!
