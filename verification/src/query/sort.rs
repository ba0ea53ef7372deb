//! Sorting rows by several keys.
use crate::native;
use crate::persist::digits;
use crate::query::engine;
use crate::query::engine::{NativeKind, NativeKindView};
use crate::query::record;
use crate::query::record::Record;
use vstd::prelude::*;
use vstd::utf8::*;

verus! {

/// How two things are ordered.
#[derive(Debug, Clone, Copy, PartialEq, Eq, Structural)]
pub enum Order {
    Less,
    Equal,
    Greater,
}

/// The order the other way round.
pub open spec fn reversed(o: Order) -> Order {
    match o {
        Order::Less => Order::Greater,
        Order::Equal => Order::Equal,
        Order::Greater => Order::Less,
    }
}

/// The order the other way round.
pub fn reverse(o: Order) -> (r: Order)
    ensures
        r == reversed(o),
{
    match o {
        Order::Less => Order::Greater,
        Order::Equal => Order::Equal,
        Order::Greater => Order::Less,
    }
}

/// The place of a dynamic float in the order of the numbers, the same for both
/// zeros. A value that is no float or no number has none.
pub uninterp spec fn float_place(v: nodedb_types::Value) -> Option<int>;

/// The order of two dynamic floats, none where one of the values is no float or
/// no number.
pub open spec fn float_order_of(
    a: nodedb_types::Value,
    b: nodedb_types::Value,
) -> Option<Order> {
    match (float_place(a), float_place(b)) {
        (Some(x), Some(y)) => Some(int_order(x, y)),
        _ => None,
    }
}

/// Calls `partial_cmp` on the floats in two `nodedb_types::Value`s, which orders
/// numbers by their size and has no order for what is no number. The result is
/// the order of the places named [`float_place`].
#[verifier::external_body]
fn float_order(a: &nodedb_types::Value, b: &nodedb_types::Value) -> (r: Option<Order>)
    ensures
        r == (match (float_place(*a), float_place(*b)) {
            (Some(x), Some(y)) => Some(int_order(x, y)),
            _ => None,
        }),
{
    match (a, b) {
        (nodedb_types::Value::Float(x), nodedb_types::Value::Float(y)) => match x.partial_cmp(y)? {
            std::cmp::Ordering::Less => Some(Order::Less),
            std::cmp::Ordering::Equal => Some(Order::Equal),
            std::cmp::Ordering::Greater => Some(Order::Greater),
        },
        _ => None,
    }
}

/// The order of two integers.
pub open spec fn int_order(a: int, b: int) -> Order {
    if a < b {
        Order::Less
    } else if a > b {
        Order::Greater
    } else {
        Order::Equal
    }
}

/// The order of two texts, by their bytes.
pub open spec fn text_order(a: Seq<char>, b: Seq<char>) -> Order {
    if digits::before(encode_utf8(a), encode_utf8(b)) {
        Order::Less
    } else if digits::before(encode_utf8(b), encode_utf8(a)) {
        Order::Greater
    } else {
        Order::Equal
    }
}

/// The order of two values. Null comes first; values of different kinds, and
/// floats that cannot be compared, are equal.
pub open spec fn value_order(a: nodedb_types::Value, b: nodedb_types::Value) -> Order {
    match (engine::native_kind_of(a), engine::native_kind_of(b)) {
        (NativeKindView::Integer(x), NativeKindView::Integer(y)) => int_order(x as int, y as int),
        (NativeKindView::Float(_), NativeKindView::Float(_)) => match float_order_of(a, b) {
            Some(o) => o,
            None => Order::Equal,
        },
        (NativeKindView::String(x), NativeKindView::String(y)) => text_order(x, y),
        (NativeKindView::Bool(x), NativeKindView::Bool(y)) => int_order(
            if x {
                1
            } else {
                0
            },
            if y {
                1
            } else {
                0
            },
        ),
        (NativeKindView::Null, NativeKindView::Null) => Order::Equal,
        (NativeKindView::Null, _) => Order::Less,
        (_, NativeKindView::Null) => Order::Greater,
        _ => Order::Equal,
    }
}

/// Orders two values.
pub fn compare_values(a: &nodedb_types::Value, b: &nodedb_types::Value) -> (r: Order)
    ensures
        r == value_order(*a, *b),
{
    match (engine::native_kind(a), engine::native_kind(b)) {
        (NativeKind::Integer(x), NativeKind::Integer(y)) => {
            if x < y {
                Order::Less
            } else if x > y {
                Order::Greater
            } else {
                Order::Equal
            }
        },
        (NativeKind::Float(_), NativeKind::Float(_)) => match float_order(a, b) {
            Some(o) => o,
            None => Order::Equal,
        },
        (NativeKind::String(x), NativeKind::String(y)) => {
            if digits::bytes_before(x.as_str().as_bytes(), y.as_str().as_bytes()) {
                Order::Less
            } else if digits::bytes_before(y.as_str().as_bytes(), x.as_str().as_bytes()) {
                Order::Greater
            } else {
                Order::Equal
            }
        },
        (NativeKind::Bool(x), NativeKind::Bool(y)) => {
            if !x && y {
                Order::Less
            } else if x && !y {
                Order::Greater
            } else {
                Order::Equal
            }
        },
        (NativeKind::Null, NativeKind::Null) => Order::Equal,
        (NativeKind::Null, _) => Order::Less,
        (_, NativeKind::Null) => Order::Greater,
        _ => Order::Equal,
    }
}

/// A key to sort by.
#[derive(Debug)]
pub struct SortKey {
    /// The column, or nothing for a computed key, which is passed over.
    pub field: Option<String>,
    /// Whether small values come first.
    pub ascending: bool,
    /// Whether nulls come before all values, whatever the direction.
    pub nulls_first: bool,
}

impl SortKey {
    /// A key on a column, nulls last where it ascends and first where it
    /// descends.
    pub fn column(name: &str, ascending: bool) -> (r: SortKey)
        ensures
            r.field is Some,
            (r.field->0)@ == name@,
            r.ascending == ascending,
            r.nulls_first == !ascending,
    {
        SortKey { field: Some(name.to_owned()), ascending, nulls_first: !ascending }
    }
}

/// The order of two values under a key. Where one is null the key's placement of
/// nulls decides; the direction never turns it round.
pub open spec fn key_order(a: nodedb_types::Value, b: nodedb_types::Value, key: SortKey) -> Order {
    let a_null = a == native::null();
    let b_null = b == native::null();
    if a_null && b_null {
        Order::Equal
    } else if a_null {
        if key.nulls_first {
            Order::Less
        } else {
            Order::Greater
        }
    } else if b_null {
        if key.nulls_first {
            Order::Greater
        } else {
            Order::Less
        }
    } else if key.ascending {
        value_order(a, b)
    } else {
        reversed(value_order(a, b))
    }
}

/// Orders two values under a key.
fn order_under(a: &nodedb_types::Value, b: &nodedb_types::Value, key: &SortKey) -> (r: Order)
    ensures
        r == key_order(*a, *b, *key),
{
    let a_null = native::is_null(a);
    let b_null = native::is_null(b);
    if a_null && b_null {
        Order::Equal
    } else if a_null {
        if key.nulls_first {
            Order::Less
        } else {
            Order::Greater
        }
    } else if b_null {
        if key.nulls_first {
            Order::Greater
        } else {
            Order::Less
        }
    } else if key.ascending {
        compare_values(a, b)
    } else {
        reverse(compare_values(a, b))
    }
}

/// The order of two rows under the keys from `i` on: the first key that tells
/// them apart decides.
pub open spec fn row_order(
    a: Map<Seq<char>, nodedb_types::Value>,
    b: Map<Seq<char>, nodedb_types::Value>,
    keys: Seq<SortKey>,
    i: int,
) -> Order
    decreases keys.len() - i,
{
    if i < 0 || i >= keys.len() {
        Order::Equal
    } else {
        match keys[i].field {
            None => row_order(a, b, keys, i + 1),
            Some(name) => {
                let o = key_order(
                    native::field_or_null(a, name@),
                    native::field_or_null(b, name@),
                    keys[i],
                );
                if o == Order::Equal {
                    row_order(a, b, keys, i + 1)
                } else {
                    o
                }
            },
        }
    }
}

/// Orders two rows.
fn order_rows(a: &Record, b: &Record, keys: &[SortKey]) -> (r: Order)
    ensures
        r == row_order(a@, b@, keys@, 0),
{
    let mut i: usize = 0;
    while i < keys.len()
        invariant
            i <= keys@.len(),
            row_order(a@, b@, keys@, 0) == row_order(a@, b@, keys@, i as int),
        decreases keys@.len() - i,
    {
        match &keys[i].field {
            Some(name) => {
                let x = a.get_or_null(name.as_str());
                let y = b.get_or_null(name.as_str());
                let o = order_under(&x, &y, &keys[i]);
                if o != Order::Equal {
                    return o;
                }
            },
            None => {},
        }
        i = i + 1;
    }
    Order::Equal
}

/// Whether the order of the rows under the keys is one that a sort can follow:
/// it is the same both ways round, and it is transitive.
pub open spec fn consistent(
    rows: Seq<Map<Seq<char>, nodedb_types::Value>>,
    keys: Seq<SortKey>,
) -> bool {
    &&& forall|i: int, j: int|
        0 <= i < rows.len() && 0 <= j < rows.len() ==> row_order(
            #[trigger] rows[j],
            #[trigger] rows[i],
            keys,
            0,
        ) == reversed(row_order(rows[i], rows[j], keys, 0))
    &&& forall|i: int, j: int, k: int|
        0 <= i < rows.len() && 0 <= j < rows.len() && 0 <= k < rows.len()
            && #[trigger] not_after(rows, keys, i, j) && #[trigger] not_after(rows, keys, j, k)
            ==> not_after(rows, keys, i, k)
}

/// Whether the row at `i` does not come after the row at `j`.
pub open spec fn not_after(
    rows: Seq<Map<Seq<char>, nodedb_types::Value>>,
    keys: Seq<SortKey>,
    i: int,
    j: int,
) -> bool {
    row_order(rows[i], rows[j], keys, 0) != Order::Greater
}

/// Whether `places` names every place below its length once.
pub open spec fn rearranges(places: Seq<int>) -> bool {
    places.no_duplicates() && forall|i: int|
        0 <= i < places.len() ==> 0 <= #[trigger] places[i] < places.len()
}

/// Whether the rows at these places are in order, equal rows as they were.
pub open spec fn in_sort_order(
    rows: Seq<Map<Seq<char>, nodedb_types::Value>>,
    keys: Seq<SortKey>,
    places: Seq<int>,
) -> bool {
    forall|i: int, j: int|
        0 <= i < j < places.len() ==> not_after(
            rows,
            keys,
            #[trigger] places[i],
            #[trigger] places[j],
        ) && (row_order(rows[places[i]], rows[places[j]], keys, 0) == Order::Equal ==> places[i]
            < places[j])
}

/// Whether `after` is `before` with its rows rearranged, and sorted where their
/// order is one that a sort can follow.
pub open spec fn sorted_from(
    before: Seq<Map<Seq<char>, nodedb_types::Value>>,
    after: Seq<Map<Seq<char>, nodedb_types::Value>>,
    keys: Seq<SortKey>,
) -> bool {
    exists|places: Seq<int>| #[trigger] sorted_by(before, after, keys, places)
}

/// Whether `after` holds the rows of `before` at these places, in sort order
/// where there is one.
pub open spec fn sorted_by(
    before: Seq<Map<Seq<char>, nodedb_types::Value>>,
    after: Seq<Map<Seq<char>, nodedb_types::Value>>,
    keys: Seq<SortKey>,
    places: Seq<int>,
) -> bool {
    &&& places.len() == before.len()
    &&& rearranges(places)
    &&& after == places.map_values(|p: int| before[p])
    &&& consistent(before, keys) ==> in_sort_order(before, keys, places)
}

proof fn lemma_transitive(
    rows: Seq<Map<Seq<char>, nodedb_types::Value>>,
    keys: Seq<SortKey>,
    i: int,
    j: int,
    k: int,
)
    requires
        consistent(rows, keys),
        0 <= i < rows.len(),
        0 <= j < rows.len(),
        0 <= k < rows.len(),
        not_after(rows, keys, i, j),
        not_after(rows, keys, j, k),
    ensures
        not_after(rows, keys, i, k),
{
}

#[verifier::rlimit(40)]
proof fn lemma_inserted(
    rows: Seq<Map<Seq<char>, nodedb_types::Value>>,
    keys: Seq<SortKey>,
    places: Seq<int>,
    k: int,
    pos: int,
)
    requires
        consistent(rows, keys),
        in_sort_order(rows, keys, places),
        places.len() == k,
        0 <= k < rows.len(),
        0 <= pos <= k,
        forall|i: int| 0 <= i < places.len() ==> 0 <= #[trigger] places[i] < k,
        pos > 0 ==> not_after(rows, keys, places[pos - 1], k),
        forall|i: int|
            pos <= i < k ==> row_order(rows[#[trigger] places[i]], rows[k], keys, 0)
                == Order::Greater,
    ensures
        in_sort_order(rows, keys, places.insert(pos, k)),
{
    let after = places.insert(pos, k);
    assert forall|i: int, j: int| 0 <= i < j < after.len() implies not_after(
        rows,
        keys,
        #[trigger] after[i],
        #[trigger] after[j],
    ) && (row_order(rows[after[i]], rows[after[j]], keys, 0) == Order::Equal ==> after[i]
        < after[j]) by {
        if j < pos {
            assert(after[i] == places[i]);
            assert(after[j] == places[j]);
        } else if j == pos {
            assert(after[i] == places[i]);
            if i < pos - 1 {
                assert(not_after(rows, keys, places[i], places[pos - 1]));
                lemma_transitive(rows, keys, places[i], places[pos - 1], k);
            }
        } else if i < pos {
            assert(after[i] == places[i]);
            assert(after[j] == places[j - 1]);
        } else if i == pos {
            assert(after[j] == places[j - 1]);
            assert(row_order(rows[places[j - 1]], rows[k], keys, 0) == Order::Greater);
        } else {
            assert(after[i] == places[i - 1]);
            assert(after[j] == places[j - 1]);
        }
    }
}

/// Sorts rows by several keys. Rows that no key tells apart stay in their order.
/// Rows whose order is not one that a sort can follow are merely rearranged.
pub fn sort_rows(rows: &mut Vec<Record>, keys: &[SortKey])
    ensures
        sorted_from(
            record::records_view(old(rows)@),
            record::records_view(final(rows)@),
            keys@,
        ),
{
    let ghost all = record::records_view(rows@);
    let ghost mut places: Seq<int> = Seq::empty();
    let mut out: Vec<Record> = Vec::new();
    let mut k: usize = 0;
    proof {
        assert(record::records_view(out@) =~= places.map_values(|p: int| all[p]));
    }
    while k < rows.len()
        invariant
            k <= rows@.len(),
            rows@ == old(rows)@,
            all == record::records_view(rows@),
            places.len() == k,
            out@.len() == k,
            places.no_duplicates(),
            forall|i: int| 0 <= i < k ==> 0 <= #[trigger] places[i] < k,
            record::records_view(out@) == places.map_values(|p: int| all[p]),
            consistent(all, keys@) ==> in_sort_order(all, keys@, places),
        decreases rows@.len() - k,
    {
        let row = rows[k].copy();
        let ghost before = record::records_view(out@);
        let mut pos: usize = k;
        while pos > 0 && order_rows(&out[pos - 1], &row, keys) == Order::Greater
            invariant
                pos <= k,
                k < rows@.len(),
                out@.len() == k,
                places.len() == k,
                all == record::records_view(rows@),
                row@ == all[k as int],
                before == record::records_view(out@),
                before == places.map_values(|p: int| all[p]),
                forall|i: int|
                    pos <= i < k ==> row_order(
                        all[#[trigger] places[i]],
                        all[k as int],
                        keys@,
                        0,
                    ) == Order::Greater,
            decreases pos,
        {
            proof {
                assert(before[pos - 1] == all[places[pos - 1]]);
                assert(before[pos - 1] == out@[pos - 1]@);
            }
            pos = pos - 1;
        }
        proof {
            if pos > 0 {
                assert(before[pos - 1] == all[places[pos - 1]]);
                assert(before[pos - 1] == out@[pos - 1]@);
            }
            if consistent(all, keys@) {
                lemma_inserted(all, keys@, places, k as int, pos as int);
            }
        }
        out.insert(pos, row);
        proof {
            let after = places.insert(pos as int, k as int);
            assert(record::records_view(out@) =~= before.insert(pos as int, row@));
            assert(record::records_view(out@) =~= after.map_values(|p: int| all[p]));
            assert forall|i: int, j: int|
                0 <= i < after.len() && 0 <= j < after.len() && i != j implies after[i]
                != after[j] by {
                let a = if i < pos {
                    i
                } else {
                    i - 1
                };
                let b = if j < pos {
                    j
                } else {
                    j - 1
                };
                if i != pos && j != pos {
                    assert(places[a] != places[b]);
                }
            }
            places = after;
        }
        k = k + 1;
    }
    proof {
        assert(sorted_by(all, record::records_view(out@), keys@, places));
    }
    *rows = out;
}

/// The kinds of values that have an order of their own.
pub enum KeyKind {
    Integer,
    Text,
    Boolean,
    Float,
}

/// Whether a value is null or of a kind.
pub open spec fn of_kind(v: nodedb_types::Value, kind: KeyKind) -> bool {
    v == native::null() || match kind {
        KeyKind::Integer => engine::native_kind_of(v) is Integer,
        KeyKind::Text => engine::native_kind_of(v) is String,
        KeyKind::Boolean => engine::native_kind_of(v) is Bool,
        KeyKind::Float => engine::native_kind_of(v) is Float && float_place(v) is Some,
    }
}

/// Whether a row holds a value of a kind, or null, under a key.
pub open spec fn kind_under(
    row: Map<Seq<char>, nodedb_types::Value>,
    key: SortKey,
    kind: KeyKind,
) -> bool {
    match key.field {
        Some(name) => of_kind(native::field_or_null(row, name@), kind),
        None => true,
    }
}

/// Whether every row holds, under each key, a value of the kind of the key or
/// null.
pub open spec fn kinds_under(
    rows: Seq<Map<Seq<char>, nodedb_types::Value>>,
    keys: Seq<SortKey>,
    kinds: Seq<KeyKind>,
) -> bool {
    kinds.len() == keys.len() && forall|r: int, k: int|
        0 <= r < rows.len() && 0 <= k < keys.len() ==> #[trigger] kind_under(
            rows[r],
            keys[k],
            kinds[k],
        )
}

proof fn lemma_text_order(a: Seq<char>, b: Seq<char>, c: Seq<char>)
    ensures
        text_order(b, a) == reversed(text_order(a, b)),
        text_order(a, b) != Order::Greater && text_order(b, c) != Order::Greater ==> text_order(
            a,
            c,
        ) != Order::Greater,
        text_order(a, b) == Order::Equal && text_order(b, c) == Order::Equal ==> text_order(a, c)
            == Order::Equal,
        text_order(a, b) == Order::Less && text_order(b, c) != Order::Greater ==> text_order(a, c)
            == Order::Less,
        text_order(a, b) != Order::Greater && text_order(b, c) == Order::Less ==> text_order(a, c)
            == Order::Less,
{
    let x = encode_utf8(a);
    let y = encode_utf8(b);
    let z = encode_utf8(c);
    digits::lemma_not_before_itself(x);
    digits::lemma_not_before_itself(y);
    digits::lemma_not_before_itself(z);
    digits::lemma_before_total(x, y);
    digits::lemma_before_total(y, z);
    digits::lemma_before_total(x, z);
    if digits::before(x, y) && digits::before(y, x) {
        digits::lemma_before_transitive(x, y, x);
    }
    if digits::before(x, z) && digits::before(z, x) {
        digits::lemma_before_transitive(x, z, x);
    }
    if digits::before(y, z) && digits::before(z, y) {
        digits::lemma_before_transitive(y, z, y);
    }
    if digits::before(x, y) && digits::before(y, z) {
        digits::lemma_before_transitive(x, y, z);
    }
}

proof fn lemma_kind_order(
    a: nodedb_types::Value,
    b: nodedb_types::Value,
    c: nodedb_types::Value,
    key: SortKey,
    kind: KeyKind,
)
    requires
        of_kind(a, kind),
        of_kind(b, kind),
        of_kind(c, kind),
    ensures
        key_order(b, a, key) == reversed(key_order(a, b, key)),
        key_order(a, b, key) != Order::Greater && key_order(b, c, key) != Order::Greater
            ==> key_order(a, c, key) != Order::Greater,
        key_order(a, b, key) == Order::Equal && key_order(b, c, key) == Order::Equal ==> key_order(
            a,
            c,
            key,
        ) == Order::Equal,
        key_order(a, b, key) == Order::Less && key_order(b, c, key) != Order::Greater ==> key_order(
            a,
            c,
            key,
        ) == Order::Less,
        key_order(a, b, key) != Order::Greater && key_order(b, c, key) == Order::Less ==> key_order(
            a,
            c,
            key,
        ) == Order::Less,
{
    if kind is Text && a != native::null() && b != native::null() {
        let x = engine::native_kind_of(a)->String_0;
        let y = engine::native_kind_of(b)->String_0;
        if c != native::null() {
            let z = engine::native_kind_of(c)->String_0;
            lemma_text_order(x, y, z);
            lemma_text_order(z, y, x);
            lemma_text_order(x, z, z);
        } else {
            lemma_text_order(x, y, y);
        }
    }
}

proof fn lemma_kinds_order(
    a: Map<Seq<char>, nodedb_types::Value>,
    b: Map<Seq<char>, nodedb_types::Value>,
    c: Map<Seq<char>, nodedb_types::Value>,
    keys: Seq<SortKey>,
    kinds: Seq<KeyKind>,
    i: int,
)
    requires
        0 <= i,
        kinds_under(seq![a, b, c], keys, kinds),
    ensures
        row_order(b, a, keys, i) == reversed(row_order(a, b, keys, i)),
        row_order(a, b, keys, i) != Order::Greater && row_order(b, c, keys, i) != Order::Greater
            ==> row_order(a, c, keys, i) != Order::Greater,
        row_order(a, b, keys, i) == Order::Equal && row_order(b, c, keys, i) == Order::Equal
            ==> row_order(a, c, keys, i) == Order::Equal,
        row_order(a, b, keys, i) == Order::Less && row_order(b, c, keys, i) != Order::Greater
            ==> row_order(a, c, keys, i) == Order::Less,
        row_order(a, b, keys, i) != Order::Greater && row_order(b, c, keys, i) == Order::Less
            ==> row_order(a, c, keys, i) == Order::Less,
    decreases keys.len() - i,
{
    if i < keys.len() {
        lemma_kinds_order(a, b, c, keys, kinds, i + 1);
        let rows = seq![a, b, c];
        assert(kind_under(rows[0], keys[i], kinds[i]));
        assert(kind_under(rows[1], keys[i], kinds[i]));
        assert(kind_under(rows[2], keys[i], kinds[i]));
        if let Some(name) = keys[i].field {
            lemma_kind_order(
                native::field_or_null(a, name@),
                native::field_or_null(b, name@),
                native::field_or_null(c, name@),
                keys[i],
                kinds[i],
            );
        }
    }
}

/// Rows whose values under each key are integers, texts, booleans or floats that
/// are numbers have an order that a sort can follow, nulls among them or not:
/// they come out sorted.
pub proof fn ordered_keys_sort(
    rows: Seq<Map<Seq<char>, nodedb_types::Value>>,
    keys: Seq<SortKey>,
    kinds: Seq<KeyKind>,
)
    requires
        kinds_under(rows, keys, kinds),
    ensures
        consistent(rows, keys),
{
    assert forall|i: int, j: int| 0 <= i < rows.len() && 0 <= j < rows.len() implies row_order(
        #[trigger] rows[j],
        #[trigger] rows[i],
        keys,
        0,
    ) == reversed(row_order(rows[i], rows[j], keys, 0)) by {
        lemma_three(rows, keys, kinds, i, j, j);
        lemma_kinds_order(rows[i], rows[j], rows[j], keys, kinds, 0);
    }
    assert forall|i: int, j: int, k: int|
        0 <= i < rows.len() && 0 <= j < rows.len() && 0 <= k < rows.len()
            && #[trigger] not_after(rows, keys, i, j) && #[trigger] not_after(
            rows,
            keys,
            j,
            k,
        ) implies not_after(rows, keys, i, k) by {
        lemma_three(rows, keys, kinds, i, j, k);
        lemma_kinds_order(rows[i], rows[j], rows[k], keys, kinds, 0);
    }
}

proof fn lemma_three(
    rows: Seq<Map<Seq<char>, nodedb_types::Value>>,
    keys: Seq<SortKey>,
    kinds: Seq<KeyKind>,
    i: int,
    j: int,
    k: int,
)
    requires
        kinds_under(rows, keys, kinds),
        0 <= i < rows.len(),
        0 <= j < rows.len(),
        0 <= k < rows.len(),
    ensures
        kinds_under(seq![rows[i], rows[j], rows[k]], keys, kinds),
{
    let three = seq![rows[i], rows[j], rows[k]];
    assert forall|r: int, q: int|
        0 <= r < three.len() && 0 <= q < keys.len() implies #[trigger] kind_under(
        three[r],
        keys[q],
        kinds[q],
    ) by {
        if r == 0 {
            assert(kind_under(rows[i], keys[q], kinds[q]));
        } else if r == 1 {
            assert(kind_under(rows[j], keys[q], kinds[q]));
        } else {
            assert(kind_under(rows[k], keys[q], kinds[q]));
        }
    }
}

/// The placement of nulls is absolute: the direction of a key does not change
/// where a null goes.
pub proof fn null_placement_is_absolute(v: nodedb_types::Value, up: SortKey, down: SortKey)
    requires
        v != native::null(),
        up.ascending,
        !down.ascending,
        up.nulls_first == down.nulls_first,
    ensures
        key_order(native::null(), v, up) == key_order(native::null(), v, down),
        key_order(v, native::null(), up) == key_order(v, native::null(), down),
        key_order(native::null(), v, up) == if up.nulls_first {
            Order::Less
        } else {
            Order::Greater
        },
{
}

} // verus!
