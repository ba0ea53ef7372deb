//! What rows in sort order are, told by their values.
use crate::native;
use crate::query::engine;
use crate::query::engine::NativeKindView;
use crate::query::lateral;
use crate::query::sort;
use crate::query::sort::{KeyKind, Order, SortKey};
use vstd::prelude::*;
use vstd::utf8::encode_utf8;

verus! {

/// Whether two byte strings agree up to a position, where the first ends or holds
/// the smaller byte.
pub open spec fn smaller_from(x: Seq<u8>, y: Seq<u8>, i: int) -> bool {
    &&& 0 <= i < y.len()
    &&& i <= x.len()
    &&& forall|j: int| 0 <= j < i ==> x[j] == y[j]
    &&& i == x.len() || x[i] < y[i]
}

/// Whether a byte string is lexicographically smaller than another, whatever
/// their lengths.
pub open spec fn smaller_bytes(x: Seq<u8>, y: Seq<u8>) -> bool {
    exists|i: int| #[trigger] smaller_from(x, y, i)
}

/// Whether a value comes before another of its kind: the smaller integer or
/// number, the lexicographically smaller text, and false before true.
pub open spec fn precedes(a: nodedb_types::Value, b: nodedb_types::Value) -> bool {
    match (engine::native_kind_of(a), engine::native_kind_of(b)) {
        (NativeKindView::Integer(x), NativeKindView::Integer(y)) => x < y,
        (NativeKindView::String(x), NativeKindView::String(y)) => smaller_bytes(
            encode_utf8(x),
            encode_utf8(y),
        ),
        (NativeKindView::Bool(x), NativeKindView::Bool(y)) => !x && y,
        (NativeKindView::Float(_), NativeKindView::Float(_)) => sort::float_place(a) is Some
            && sort::float_place(b) is Some && sort::float_place(a)->0 < sort::float_place(b)->0,
        _ => false,
    }
}

proof fn lemma_smaller(x: Seq<u8>, y: Seq<u8>)
    ensures
        smaller_bytes(x, y) == crate::persist::digits::before(x, y),
{
    if smaller_bytes(x, y) {
        let i = choose|i: int| #[trigger] smaller_from(x, y, i);
        assert(x.take(i) =~= y.take(i));
        assert(crate::persist::digits::differs_at(x, y, i));
    }
    if crate::persist::digits::before(x, y) {
        let i = choose|i: int| #[trigger] crate::persist::digits::differs_at(x, y, i);
        assert forall|j: int| 0 <= j < i implies x[j] == y[j] by {
            assert(x.take(i)[j] == y.take(i)[j]);
        }
        assert(smaller_from(x, y, i));
    }
}

proof fn lemma_not_both(x: Seq<u8>, y: Seq<u8>)
    requires
        smaller_bytes(x, y),
    ensures
        !smaller_bytes(y, x),
{
    if smaller_bytes(y, x) {
        let i = choose|i: int| #[trigger] smaller_from(x, y, i);
        let j = choose|j: int| #[trigger] smaller_from(y, x, j);
        if i < j {
            assert(y[i] == x[i]);
        } else if j < i {
            assert(x[j] == y[j]);
        }
    }
}

/// Values of one kind compare as they follow one another: of two integers or
/// numbers the smaller is less, of two texts the one whose bytes are
/// lexicographically smaller, and false is less than true.
pub proof fn values_compare_as_they_follow(
    a: nodedb_types::Value,
    b: nodedb_types::Value,
    kind: KeyKind,
)
    requires
        sort::of_kind(a, kind),
        sort::of_kind(b, kind),
        a != native::null(),
        b != native::null(),
    ensures
        sort::value_order(a, b) == Order::Less <==> precedes(a, b),
        sort::value_order(a, b) == Order::Greater <==> precedes(b, a),
{
    if kind is Text {
        let x = encode_utf8(engine::native_kind_of(a)->String_0);
        let y = encode_utf8(engine::native_kind_of(b)->String_0);
        lemma_smaller(x, y);
        lemma_smaller(y, x);
        if smaller_bytes(x, y) {
            lemma_not_both(x, y);
        }
    }
}

/// Two texts whose bytes agree up to a position, where the first ends or has the
/// smaller byte, compare as less, and the other way round as greater.
pub proof fn texts_compare_by_their_bytes(
    a: nodedb_types::Value,
    b: nodedb_types::Value,
    x: Seq<char>,
    y: Seq<char>,
    i: int,
)
    requires
        engine::native_kind_of(a) == NativeKindView::String(x),
        engine::native_kind_of(b) == NativeKindView::String(y),
        0 <= i < encode_utf8(y).len(),
        i <= encode_utf8(x).len(),
        forall|j: int| 0 <= j < i ==> encode_utf8(x)[j] == encode_utf8(y)[j],
        i == encode_utf8(x).len() || encode_utf8(x)[i] < encode_utf8(y)[i],
    ensures
        sort::value_order(a, b) == Order::Less,
        sort::value_order(b, a) == Order::Greater,
{
    let p = encode_utf8(x);
    let q = encode_utf8(y);
    assert(smaller_from(p, q, i));
    lemma_not_both(p, q);
    lemma_smaller(p, q);
    lemma_smaller(q, p);
}

/// Whether a row comes before another under one key. A null goes to the end that
/// the key names, whatever its direction.
pub open spec fn before_under(
    a: Map<Seq<char>, nodedb_types::Value>,
    b: Map<Seq<char>, nodedb_types::Value>,
    key: SortKey,
) -> bool {
    match key.field {
        None => false,
        Some(name) => {
            let x = native::field_or_null(a, name@);
            let y = native::field_or_null(b, name@);
            if x == native::null() && y == native::null() {
                false
            } else if x == native::null() {
                key.nulls_first
            } else if y == native::null() {
                !key.nulls_first
            } else if key.ascending {
                precedes(x, y)
            } else {
                precedes(y, x)
            }
        },
    }
}

/// Whether a row comes before another from a key on: at the first key that tells
/// them apart.
pub open spec fn decided_at(
    a: Map<Seq<char>, nodedb_types::Value>,
    b: Map<Seq<char>, nodedb_types::Value>,
    keys: Seq<SortKey>,
    from: int,
    k: int,
) -> bool {
    &&& from <= k < keys.len()
    &&& before_under(a, b, keys[k])
    &&& forall|j: int|
        from <= j < k ==> !before_under(a, b, #[trigger] keys[j]) && !before_under(b, a, keys[j])
}

/// Whether a row comes before another under the keys from one on.
pub open spec fn ahead(
    a: Map<Seq<char>, nodedb_types::Value>,
    b: Map<Seq<char>, nodedb_types::Value>,
    keys: Seq<SortKey>,
    from: int,
) -> bool {
    exists|k: int| #[trigger] decided_at(a, b, keys, from, k)
}

proof fn lemma_key(
    a: Map<Seq<char>, nodedb_types::Value>,
    b: Map<Seq<char>, nodedb_types::Value>,
    key: SortKey,
    kind: KeyKind,
)
    requires
        sort::kind_under(a, key, kind),
        sort::kind_under(b, key, kind),
        key.field is Some,
    ensures
        ({
            let x = native::field_or_null(a, (key.field->0)@);
            let y = native::field_or_null(b, (key.field->0)@);
            &&& sort::key_order(x, y, key) == Order::Less <==> before_under(a, b, key)
            &&& sort::key_order(x, y, key) == Order::Greater <==> before_under(b, a, key)
        }),
{
    let x = native::field_or_null(a, (key.field->0)@);
    let y = native::field_or_null(b, (key.field->0)@);
    if x != native::null() && y != native::null() {
        values_compare_as_they_follow(x, y, kind);
    }
}

proof fn lemma_ahead_step(
    a: Map<Seq<char>, nodedb_types::Value>,
    b: Map<Seq<char>, nodedb_types::Value>,
    keys: Seq<SortKey>,
    from: int,
)
    requires
        0 <= from < keys.len(),
        !(before_under(a, b, keys[from]) && before_under(b, a, keys[from])),
    ensures
        ahead(a, b, keys, from) == (before_under(a, b, keys[from]) || (!before_under(
            b,
            a,
            keys[from],
        ) && ahead(a, b, keys, from + 1))),
{
    if ahead(a, b, keys, from) {
        let k = choose|k: int| #[trigger] decided_at(a, b, keys, from, k);
        if k > from {
            assert(!before_under(a, b, keys[from]));
            assert(decided_at(a, b, keys, from + 1, k));
        }
    }
    if before_under(a, b, keys[from]) {
        assert(decided_at(a, b, keys, from, from));
    } else if !before_under(b, a, keys[from]) && ahead(a, b, keys, from + 1) {
        let k = choose|k: int| #[trigger] decided_at(a, b, keys, from + 1, k);
        assert(decided_at(a, b, keys, from, k));
    }
}

proof fn lemma_rows(
    a: Map<Seq<char>, nodedb_types::Value>,
    b: Map<Seq<char>, nodedb_types::Value>,
    keys: Seq<SortKey>,
    kinds: Seq<KeyKind>,
    from: int,
)
    requires
        0 <= from <= keys.len(),
        kinds.len() == keys.len(),
        forall|k: int|
            0 <= k < keys.len() ==> #[trigger] sort::kind_under(a, keys[k], kinds[k])
                && sort::kind_under(b, keys[k], kinds[k]),
    ensures
        sort::row_order(a, b, keys, from) == Order::Less <==> ahead(a, b, keys, from),
        sort::row_order(a, b, keys, from) == Order::Greater <==> ahead(b, a, keys, from),
    decreases keys.len() - from,
{
    if from < keys.len() {
        lemma_rows(a, b, keys, kinds, from + 1);
        assert(sort::kind_under(a, keys[from], kinds[from]));
        if keys[from].field is Some {
            lemma_key(a, b, keys[from], kinds[from]);
        }
        lemma_ahead_step(a, b, keys, from);
        lemma_ahead_step(b, a, keys, from);
    }
}

proof fn lemma_rearranged(
    before: Seq<Map<Seq<char>, nodedb_types::Value>>,
    places: Seq<int>,
)
    requires
        places.len() == before.len(),
        sort::rearranges(places),
    ensures
        places.map_values(|p: int| before[p]).to_multiset() == before.to_multiset(),
    decreases before.len(),
{
    let n = before.len() as int;
    let after = places.map_values(|p: int| before[p]);
    let identity = Seq::new(before.len(), |i: int| i);
    assert(identity.map_values(|p: int| before[p]) =~= before);
    lemma_same_places(places, n);
    lemma_mapped(places, identity, before);
}

proof fn lemma_same_places(places: Seq<int>, n: int)
    requires
        places.len() == n,
        sort::rearranges(places),
    ensures
        places.to_multiset() == Seq::new(n as nat, |i: int| i).to_multiset(),
{
    let identity = Seq::new(n as nat, |i: int| i);
    broadcast use vstd::seq_lib::group_to_multiset_ensures;

    places.unique_seq_to_set();
    identity.unique_seq_to_set();
    let all = vstd::set_lib::set_int_range(0, n);
    vstd::set_lib::lemma_int_range(0, n);
    assert(identity.to_set() =~= all) by {
        assert forall|v: int| all.contains(v) implies identity.to_set().contains(v) by {
            assert(identity[v] == v);
        }
    }
    assert(places.to_set().subset_of(all));
    vstd::set_lib::lemma_subset_equality(places.to_set(), all);
    places.lemma_multiset_has_no_duplicates();
    identity.lemma_multiset_has_no_duplicates();
    assert forall|v: int| places.to_multiset().count(v) == identity.to_multiset().count(v) by {
        if all.contains(v) {
            assert(places.to_set().contains(v));
            assert(identity.to_set().contains(v));
            assert(places.contains(v));
            assert(identity.contains(v));
            assert(places.to_multiset().contains(v));
            assert(identity.to_multiset().contains(v));
        } else {
            assert(!places.contains(v)) by {
                if places.contains(v) {
                    assert(places.to_set().contains(v));
                }
            }
            assert(!identity.contains(v)) by {
                if identity.contains(v) {
                    assert(identity.to_set().contains(v));
                }
            }
        }
    }
    assert(places.to_multiset() =~= identity.to_multiset());
}

proof fn lemma_mapped(
    p: Seq<int>,
    q: Seq<int>,
    rows: Seq<Map<Seq<char>, nodedb_types::Value>>,
)
    requires
        p.to_multiset() == q.to_multiset(),
    ensures
        p.map_values(|i: int| rows[i]).to_multiset() == q.map_values(
            |i: int| rows[i],
        ).to_multiset(),
    decreases p.len(),
{
    broadcast use vstd::seq_lib::group_to_multiset_ensures;

    let f = |i: int| rows[i];
    if p.len() == 0 {
        assert(q.len() == 0) by {
            assert(q.to_multiset().len() == q.len());
            assert(p.to_multiset().len() == p.len());
        }
        assert(p.map_values(f) =~= q.map_values(f));
    } else {
        let v = p.last();
        assert(p.contains(v));
        assert(p.to_multiset().contains(v));
        assert(q.contains(v));
        let k = q.index_of(v);
        let rest = q.remove(k);
        assert(p.drop_last() =~= p.remove(p.len() - 1));
        assert(p.drop_last().to_multiset() =~= rest.to_multiset());
        lemma_mapped(p.drop_last(), rest, rows);
        assert(p.map_values(f) =~= p.drop_last().map_values(f).push(f(v)));
        assert(q.map_values(f).remove(k) =~= rest.map_values(f));
        assert(q.map_values(f)[k] == f(v));
        assert(q.map_values(f).to_multiset() =~= rest.map_values(f).to_multiset().insert(f(v)));
        assert(p.map_values(f).to_multiset() =~= p.drop_last().map_values(f).to_multiset().insert(
            f(v),
        ));
    }
}

/// Sorted rows are the same rows, and none of them comes before an earlier one:
/// under the first key that tells two rows apart the smaller value comes first
/// where the key ascends and the greater where it descends, and nulls come where
/// the key puts them.
pub proof fn sorted_rows_are_in_order(
    before: Seq<Map<Seq<char>, nodedb_types::Value>>,
    after: Seq<Map<Seq<char>, nodedb_types::Value>>,
    keys: Seq<SortKey>,
    kinds: Seq<KeyKind>,
)
    requires
        sort::sorted_from(before, after, keys),
        sort::kinds_under(before, keys, kinds),
    ensures
        after.to_multiset() == before.to_multiset(),
        forall|i: int, j: int|
            0 <= i < j < after.len() ==> !ahead(#[trigger] after[j], #[trigger] after[i], keys, 0),
{
    let places = choose|places: Seq<int>| #[trigger] sort::sorted_by(before, after, keys, places);
    sort::ordered_keys_sort(before, keys, kinds);
    lemma_rearranged(before, places);
    assert forall|i: int, j: int| 0 <= i < j < after.len() implies !ahead(
        #[trigger] after[j],
        #[trigger] after[i],
        keys,
        0,
    ) by {
        let p = places[i];
        let q = places[j];
        assert(sort::not_after(before, keys, p, q));
        assert forall|k: int| 0 <= k < keys.len() implies #[trigger] sort::kind_under(
            before[p],
            keys[k],
            kinds[k],
        ) && sort::kind_under(before[q], keys[k], kinds[k]) by {
            assert(sort::kind_under(before[q], keys[k], kinds[k]));
        }
        lemma_rows(before[p], before[q], keys, kinds, 0);
    }
}

/// Rows sorted ascending by one column of integers, texts, booleans or numbers
/// hold no value that is followed by a smaller one; sorted descending, none that is
/// followed by a greater one.
pub proof fn sorted_column_never_falls(
    before: Seq<Map<Seq<char>, nodedb_types::Value>>,
    after: Seq<Map<Seq<char>, nodedb_types::Value>>,
    key: SortKey,
    kind: KeyKind,
)
    requires
        key.field is Some,
        sort::sorted_from(before, after, seq![key]),
        forall|r: int|
            0 <= r < before.len() ==> sort::of_kind(
                native::field_or_null(#[trigger] before[r], (key.field->0)@),
                kind,
            ) && native::field_or_null(before[r], (key.field->0)@) != native::null(),
    ensures
        forall|i: int, j: int|
            0 <= i < j < after.len() ==> {
                let x = native::field_or_null(#[trigger] after[i], (key.field->0)@);
                let y = native::field_or_null(#[trigger] after[j], (key.field->0)@);
                if key.ascending {
                    !precedes(y, x)
                } else {
                    !precedes(x, y)
                }
            },
{
    let keys = seq![key];
    let kinds = seq![kind];
    assert(sort::kinds_under(before, keys, kinds)) by {
        assert forall|r: int, k: int|
            0 <= r < before.len() && 0 <= k < keys.len() implies #[trigger] sort::kind_under(
            before[r],
            keys[k],
            kinds[k],
        ) by {}
    }
    sorted_rows_are_in_order(before, after, keys, kinds);
    let places = choose|places: Seq<int>| #[trigger] sort::sorted_by(before, after, keys, places);
    assert forall|i: int, j: int| 0 <= i < j < after.len() implies {
        let x = native::field_or_null(#[trigger] after[i], (key.field->0)@);
        let y = native::field_or_null(#[trigger] after[j], (key.field->0)@);
        if key.ascending {
            !precedes(y, x)
        } else {
            !precedes(x, y)
        }
    } by {
        assert(after[i] == before[places[i]]);
        assert(after[j] == before[places[j]]);
        assert(!ahead(after[j], after[i], keys, 0));
        if before_under(after[j], after[i], key) {
            assert(decided_at(after[j], after[i], keys, 0, 0));
        }
    }
}

/// The first rows under a limit, where zero stands for none: as many as there are
/// up to the limit, in order, and no row that is left out comes before one of them.
pub proof fn top_rows_come_first(
    rows: Seq<Map<Seq<char>, nodedb_types::Value>>,
    keys: Seq<SortKey>,
    kinds: Seq<KeyKind>,
    limit: usize,
    top: Seq<Map<Seq<char>, nodedb_types::Value>>,
)
    requires
        lateral::top_of(rows, keys, limit, top),
        sort::kinds_under(rows, keys, kinds),
    ensures
        top.len() == if limit == 0 || rows.len() <= limit {
            rows.len() as int
        } else {
            limit as int
        },
        forall|i: int, j: int|
            0 <= i < j < top.len() ==> !ahead(#[trigger] top[j], #[trigger] top[i], keys, 0),
        exists|rest: Seq<Map<Seq<char>, nodedb_types::Value>>|
            {
                &&& #[trigger] (top + rest).to_multiset() == rows.to_multiset()
                &&& forall|i: int, j: int|
                    0 <= i < top.len() && 0 <= j < rest.len() ==> !ahead(
                        #[trigger] rest[j],
                        #[trigger] top[i],
                        keys,
                        0,
                    )
            },
{
    let sorted = choose|sorted: Seq<Map<Seq<char>, nodedb_types::Value>>|
        #[trigger] sort::sorted_from(rows, sorted, keys) && top == lateral::cut(sorted, limit);
    let places = choose|places: Seq<int>| #[trigger] sort::sorted_by(rows, sorted, keys, places);
    assert(sorted.len() == rows.len());
    sorted_rows_are_in_order(rows, sorted, keys, kinds);
    let rest = sorted.skip(top.len() as int);
    assert(top + rest =~= sorted);
    assert forall|i: int, j: int| 0 <= i < top.len() && 0 <= j < rest.len() implies !ahead(
        #[trigger] rest[j],
        #[trigger] top[i],
        keys,
        0,
    ) by {
        assert(rest[j] == sorted[top.len() + j]);
        assert(top[i] == sorted[i]);
    }
    assert forall|i: int, j: int| 0 <= i < j < top.len() implies !ahead(
        #[trigger] top[j],
        #[trigger] top[i],
        keys,
        0,
    ) by {
        assert(top[i] == sorted[i]);
        assert(top[j] == sorted[j]);
    }
    assert((top + rest).to_multiset() == rows.to_multiset());
}

} // verus!
