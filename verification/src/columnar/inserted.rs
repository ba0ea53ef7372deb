//! What inserted rows are made of, and which rows an insert leaves under which
//! keys.
use crate::columnar::ops;
use crate::columnar::payload;
use crate::columnar::selected;
use crate::columnar::writes;
use crate::columnar::writes::{
    ColumnarInsertIntent, EndView, InsertMode, InsertParams, Progress, Refusal, Table,
};
use crate::error::LiteError;
use crate::json;
use crate::json::JsonTree;
use crate::kv::fields::UpdateValue;
use crate::native;
use crate::result::QueryResult;
use crate::value::{names_view, DatumView};
use crate::wire;
use vstd::prelude::*;

verus! {

/// Whether a row has one value for each column: the field of its name, or null
/// where there is none.
pub open spec fn follows(
    row: Seq<nodedb_types::Value>,
    columns: Seq<Seq<char>>,
    fields: Map<Seq<char>, nodedb_types::Value>,
) -> bool {
    row.len() == columns.len() && forall|c: int|
        0 <= c < columns.len() ==> #[trigger] row[c] == if fields.dom().contains(columns[c]) {
            fields[columns[c]]
        } else {
            native::native_of(DatumView::Null)
        }
}

/// Whether an entry has a name.
pub open spec fn names_entry(entries: Seq<(Seq<char>, JsonTree)>, name: Seq<char>) -> bool {
    exists|i: int| 0 <= i < entries.len() && (#[trigger] entries[i]).0 == name
}

/// Whether an entry is the last one of its name.
pub open spec fn last_of_its_name(entries: Seq<(Seq<char>, JsonTree)>, i: int) -> bool {
    0 <= i < entries.len() && forall|j: int|
        i < j < entries.len() ==> (#[trigger] entries[j]).0 != entries[i].0
}

/// Whether a map holds the values of the entries of a JSON object under their
/// names, and nothing else. Of entries with one name the last one counts.
pub open spec fn holds_entries(
    fields: Map<Seq<char>, nodedb_types::Value>,
    entries: Seq<(Seq<char>, JsonTree)>,
) -> bool {
    &&& forall|name: Seq<char>| #[trigger]
        fields.dom().contains(name) ==> names_entry(entries, name)
    &&& forall|i: int| #[trigger]
        last_of_its_name(entries, i) ==> fields.dom().contains(entries[i].0)
            && fields[entries[i].0] == json::converted(entries[i].1)
}

proof fn lemma_holds_entries(entries: Seq<(Seq<char>, JsonTree)>)
    ensures
        holds_entries(json::converted_entries(entries), entries),
    decreases entries.len(),
{
    if entries.len() > 0 {
        let n = entries.len() - 1;
        let rest = entries.drop_last();
        lemma_holds_entries(rest);
        let before = json::converted_entries(rest);
        let fields = json::converted_entries(entries);
        assert(fields == before.insert(entries[n].0, json::converted(entries[n].1)));
        assert forall|name: Seq<char>| #[trigger] fields.dom().contains(name) implies names_entry(
            entries,
            name,
        ) by {
            if name == entries[n].0 {
            } else {
                assert(before.dom().contains(name));
                let i = choose|i: int| 0 <= i < rest.len() && (#[trigger] rest[i]).0 == name;
                assert(entries[i].0 == name);
            }
        }
        assert forall|i: int| #[trigger] last_of_its_name(entries, i) implies fields.dom().contains(
            entries[i].0,
        ) && fields[entries[i].0] == json::converted(entries[i].1) by {
            if i < n {
                assert(entries[n].0 != entries[i].0);
                assert(rest[i] == entries[i]);
                assert(last_of_its_name(rest, i)) by {
                    assert forall|j: int| i < j < rest.len() implies (#[trigger] rest[j]).0
                        != rest[i].0 by {
                        assert(rest[j] == entries[j]);
                    }
                }
            }
        }
    }
}

/// Whether a row is that of a JSON object.
pub open spec fn json_read(
    t: JsonTree,
    columns: Seq<Seq<char>>,
    row: Seq<nodedb_types::Value>,
) -> bool {
    t matches JsonTree::Object(entries) && exists|fields: Map<Seq<char>, nodedb_types::Value>| #[trigger]
        holds_entries(fields, entries) && follows(row, columns, fields)
}

/// Whether a row is that of a dynamic value.
pub open spec fn native_read(
    v: nodedb_types::Value,
    columns: Seq<Seq<char>>,
    row: Seq<nodedb_types::Value>,
) -> bool {
    wire::native_fields(v) is Some && follows(row, columns, wire::native_fields(v)->0)
}

proof fn lemma_json_rows(items: Seq<JsonTree>, columns: Seq<Seq<char>>)
    ensures
        payload::json_rows(items, columns) is Ok <==> forall|i: int|
            0 <= i < items.len() ==> (#[trigger] items[i]) is Object,
        payload::json_rows(items, columns) matches Ok(rows) ==> rows.len() == items.len()
            && forall|i: int|
            0 <= i < items.len() ==> json_read(items[i], columns, #[trigger] rows[i]),
    decreases items.len(),
{
    if items.len() > 0 {
        let rest = items.drop_last();
        let last = items.last();
        lemma_json_rows(rest, columns);
        assert(items[items.len() - 1] == last);
        if last is Object {
            let entries = last->Object_0;
            lemma_holds_entries(entries);
            let fields = json::converted_entries(entries);
            let row = json::json_row(last, columns)->Ok_0;
            assert(follows(row, columns, fields));
            assert(json_read(last, columns, row));
        }
        if payload::json_rows(items, columns) is Ok {
            assert forall|i: int| 0 <= i < items.len() implies (#[trigger] items[i]) is Object by {
                if i < rest.len() {
                    assert(rest[i] == items[i]);
                }
            }
            let all = payload::json_rows(items, columns)->Ok_0;
            let before = payload::json_rows(rest, columns)->Ok_0;
            assert forall|i: int| 0 <= i < items.len() implies json_read(
                items[i],
                columns,
                #[trigger] all[i],
            ) by {
                if i < rest.len() {
                    assert(rest[i] == items[i]);
                    assert(before[i] == all[i]);
                }
            }
        } else if forall|i: int| 0 <= i < items.len() ==> (#[trigger] items[i]) is Object {
            assert forall|i: int| 0 <= i < rest.len() implies (#[trigger] rest[i]) is Object by {
                assert(rest[i] == items[i]);
            }
        }
    }
}

proof fn lemma_native_rows(items: Seq<nodedb_types::Value>, columns: Seq<Seq<char>>)
    ensures
        payload::native_rows(items, columns) is Ok <==> forall|i: int|
            0 <= i < items.len() ==> wire::native_fields(#[trigger] items[i]) is Some,
        payload::native_rows(items, columns) matches Ok(rows) ==> rows.len() == items.len()
            && forall|i: int|
            0 <= i < items.len() ==> native_read(items[i], columns, #[trigger] rows[i]),
    decreases items.len(),
{
    if items.len() > 0 {
        let rest = items.drop_last();
        let last = items.last();
        lemma_native_rows(rest, columns);
        assert(items[items.len() - 1] == last);
        if payload::native_rows(items, columns) is Ok {
            assert forall|i: int| 0 <= i < items.len() implies wire::native_fields(
                #[trigger] items[i],
            ) is Some by {
                if i < rest.len() {
                    assert(rest[i] == items[i]);
                }
            }
            let all = payload::native_rows(items, columns)->Ok_0;
            let before = payload::native_rows(rest, columns)->Ok_0;
            assert forall|i: int| 0 <= i < items.len() implies native_read(
                items[i],
                columns,
                #[trigger] all[i],
            ) by {
                if i < rest.len() {
                    assert(rest[i] == items[i]);
                    assert(before[i] == all[i]);
                }
            }
        } else if forall|i: int|
            0 <= i < items.len() ==> wire::native_fields(#[trigger] items[i]) is Some {
            assert forall|i: int| 0 <= i < rest.len() implies wire::native_fields(
                #[trigger] rest[i],
            ) is Some by {
                assert(rest[i] == items[i]);
            }
        }
    }
}

/// A JSON payload that is an array has one row for each of its elements, in
/// order, and one that is an object has one row. Each row holds the entries of
/// its object that have a column. Anything but objects is refused.
pub proof fn json_payload_is_read(
    bytes: &[u8],
    format: &str,
    columns: &[String],
    v: serde_json::Value,
    r: Result<Vec<Vec<nodedb_types::Value>>, LiteError>,
)
    requires
        format@ == "json"@,
        json::decoded_json(bytes@) == Ok::<serde_json::Value, Seq<char>>(v),
        call_ensures(payload::decode_payload, (bytes, format, columns), r),
    ensures
        json::json_tree(v) matches JsonTree::Array(items) ==> {
            &&& r is Ok <==> forall|i: int|
                0 <= i < items.len() ==> (#[trigger] items[i]) is Object
            &&& r is Ok ==> r->Ok_0@.len() == items.len() && forall|i: int|
                0 <= i < items.len() ==> json_read(
                    items[i],
                    names_view(columns@),
                    (#[trigger] r->Ok_0@[i])@,
                )
        },
        json::json_tree(v) is Object ==> r is Ok && r->Ok_0@.len() == 1 && json_read(
            json::json_tree(v),
            names_view(columns@),
            r->Ok_0@[0]@,
        ),
        r is Ok ==> json::json_tree(v) is Array || json::json_tree(v) is Object,
{
    let names = names_view(columns@);
    let outcome = payload::rows_outcome(r);
    match json::json_tree(v) {
        JsonTree::Array(items) => {
            lemma_json_rows(items, names);
            if r is Ok {
                let rows = outcome->Ok_0;
                assert(rows.len() == r->Ok_0@.len());
                assert forall|i: int| 0 <= i < items.len() implies json_read(
                    items[i],
                    names,
                    (#[trigger] r->Ok_0@[i])@,
                ) by {
                    assert(rows[i] == r->Ok_0@[i]@);
                }
            }
        },
        JsonTree::Object(entries) => {
            lemma_holds_entries(entries);
            let rows = outcome->Ok_0;
            let fields = json::converted_entries(entries);
            assert(rows.len() == r->Ok_0@.len());
            assert(rows[0] == r->Ok_0@[0]@);
            assert(follows(rows[0], names, fields));
        },
        _ => {},
    }
}

/// A MessagePack payload that is an array has one row for each of its elements,
/// in order, and one that is an object has one row. Each row holds the fields of
/// its object that have a column. Anything but objects is refused.
pub proof fn native_payload_is_read(
    bytes: &[u8],
    format: &str,
    columns: &[String],
    v: nodedb_types::Value,
    r: Result<Vec<Vec<nodedb_types::Value>>, LiteError>,
)
    requires
        format@ == "msgpack"@,
        wire::decoded_native(bytes@) == Ok::<nodedb_types::Value, Seq<char>>(v),
        call_ensures(payload::decode_payload, (bytes, format, columns), r),
    ensures
        native::native_items(v) matches Some(items) ==> {
            &&& r is Ok <==> forall|i: int|
                0 <= i < items.len() ==> wire::native_fields(#[trigger] items[i]) is Some
            &&& r is Ok ==> r->Ok_0@.len() == items.len() && forall|i: int|
                0 <= i < items.len() ==> native_read(
                    items[i],
                    names_view(columns@),
                    (#[trigger] r->Ok_0@[i])@,
                )
        },
        native::native_items(v) is None && wire::native_fields(v) is Some ==> r is Ok
            && r->Ok_0@.len() == 1 && native_read(v, names_view(columns@), r->Ok_0@[0]@),
        native::native_items(v) is None && wire::native_fields(v) is None ==> r is Err,
{
    reveal_strlit("json");
    reveal_strlit("msgpack");
    assert("json"@[0] != "msgpack"@[0]);
    let names = names_view(columns@);
    let outcome = payload::rows_outcome(r);
    match native::native_items(v) {
        Some(items) => {
            lemma_native_rows(items, names);
            if r is Ok {
                let rows = outcome->Ok_0;
                assert(rows.len() == r->Ok_0@.len());
                assert forall|i: int| 0 <= i < items.len() implies native_read(
                    items[i],
                    names,
                    (#[trigger] r->Ok_0@[i])@,
                ) by {
                    assert(rows[i] == r->Ok_0@[i]@);
                }
            }
        },
        None => {
            if wire::native_fields(v) is Some {
                let rows = outcome->Ok_0;
                assert(rows.len() == r->Ok_0@.len());
                assert(rows[0] == r->Ok_0@[0]@);
            }
        },
    }
}

/// Whether every row has a key that is a plain value, and no two the same one.
pub open spec fn keyed(live: Seq<Seq<nodedb_types::Value>>, at: nat) -> bool {
    &&& forall|i: int|
        0 <= i < live.len() ==> at < (#[trigger] live[i]).len() && wire::plain(live[i][at as int])
    &&& forall|i: int, j: int|
        0 <= i < j < live.len() ==> (#[trigger] live[i])[at as int] != (
        #[trigger] live[j])[at as int]
}

/// Whether a row stands among the rows under a key.
pub open spec fn under(
    live: Seq<Seq<nodedb_types::Value>>,
    at: nat,
    key: nodedb_types::Value,
    row: Seq<nodedb_types::Value>,
) -> bool {
    exists|i: int| 0 <= i < live.len() && #[trigger] live[i] == row && row[at as int] == key
}

/// Whether some row stands under a key.
pub open spec fn taken(
    live: Seq<Seq<nodedb_types::Value>>,
    at: nat,
    key: nodedb_types::Value,
) -> bool {
    exists|i: int| 0 <= i < live.len() && (#[trigger] live[i])[at as int] == key
}

/// Whether rows differ from others only in that a row stands under its key.
pub open spec fn takes_its_key(
    before: Seq<Seq<nodedb_types::Value>>,
    at: nat,
    row: Seq<nodedb_types::Value>,
    after: Seq<Seq<nodedb_types::Value>>,
) -> bool {
    &&& keyed(after, at)
    &&& forall|key: nodedb_types::Value, other: Seq<nodedb_types::Value>| #[trigger]
        under(after, at, key, other) <==> if key == row[at as int] {
            other == row
        } else {
            under(before, at, key, other)
        }
}

proof fn lemma_without_key(
    live: Seq<Seq<nodedb_types::Value>>,
    at: nat,
    key: nodedb_types::Value,
)
    requires
        keyed(live, at),
        wire::plain(key),
    ensures
        keyed(writes::without(live, at, key), at),
        forall|k: nodedb_types::Value, other: Seq<nodedb_types::Value>| #[trigger]
            under(writes::without(live, at, key), at, k, other) <==> k != key && under(
                live,
                at,
                k,
                other,
            ),
    decreases live.len(),
{
    if live.len() > 0 {
        let rest = live.drop_last();
        let last = live.last();
        assert(live[live.len() - 1] == last);
        assert(keyed(rest, at)) by {
            assert forall|i: int| 0 <= i < rest.len() implies at < (#[trigger] rest[i]).len()
                && wire::plain(rest[i][at as int]) by {
                assert(rest[i] == live[i]);
            }
            assert forall|i: int, j: int| 0 <= i < j < rest.len() implies (
            #[trigger] rest[i])[at as int] != (#[trigger] rest[j])[at as int] by {
                assert(rest[i] == live[i] && rest[j] == live[j]);
            }
        }
        lemma_without_key(rest, at, key);
        let left = writes::without(rest, at, key);
        let all = writes::without(live, at, key);
        assert(writes::has_key(last, at, key) <==> last[at as int] == key);
        assert forall|k: nodedb_types::Value, other: Seq<nodedb_types::Value>|
            under(live, at, k, other) <==> under(rest, at, k, other) || (other == last
                && last[at as int] == k) by {
            if under(rest, at, k, other) {
                let i = choose|i: int|
                    0 <= i < rest.len() && #[trigger] rest[i] == other && other[at as int] == k;
                assert(live[i] == other);
            }
            if under(live, at, k, other) {
                let i = choose|i: int|
                    0 <= i < live.len() && #[trigger] live[i] == other && other[at as int] == k;
                if i < rest.len() {
                    assert(rest[i] == other);
                }
            }
        }
        if last[at as int] != key {
            assert(all == left.push(last));
            assert forall|k: nodedb_types::Value, other: Seq<nodedb_types::Value>|
                under(all, at, k, other) <==> under(left, at, k, other) || (other == last
                    && last[at as int] == k) by {
                if under(left, at, k, other) {
                    let i = choose|i: int|
                        0 <= i < left.len() && #[trigger] left[i] == other && other[at as int]
                            == k;
                    assert(all[i] == other);
                }
                if under(all, at, k, other) {
                    let i = choose|i: int|
                        0 <= i < all.len() && #[trigger] all[i] == other && other[at as int]
                            == k;
                    if i < left.len() {
                        assert(left[i] == other);
                    }
                }
                if other == last && last[at as int] == k {
                    assert(all[all.len() - 1] == last);
                }
            }
            assert forall|i: int, j: int| 0 <= i < j < all.len() implies (
            #[trigger] all[i])[at as int] != (#[trigger] all[j])[at as int] by {
                assert(all[i] == left[i]);
                if j < left.len() {
                    assert(all[j] == left[j]);
                } else {
                    let k = left[i][at as int];
                    assert(under(left, at, k, left[i]));
                    assert(under(rest, at, k, left[i]));
                    let m = choose|m: int|
                        0 <= m < rest.len() && #[trigger] rest[m] == left[i] && left[i][at as int]
                            == k;
                    assert(live[m] == left[i]);
                    assert(live[live.len() - 1] == last);
                }
            }
            assert forall|i: int| 0 <= i < all.len() implies at < (#[trigger] all[i]).len()
                && wire::plain(all[i][at as int]) by {
                if i < left.len() {
                    assert(all[i] == left[i]);
                }
            }
        } else {
            assert forall|k: nodedb_types::Value, other: Seq<nodedb_types::Value>|
                under(all, at, k, other) <==> k != key && under(live, at, k, other) by {}
        }
    } else {
        assert(writes::without(live, at, key) =~= Seq::<Seq<nodedb_types::Value>>::empty());
    }
}

proof fn lemma_push_key(
    live: Seq<Seq<nodedb_types::Value>>,
    at: nat,
    row: Seq<nodedb_types::Value>,
)
    requires
        keyed(live, at),
        at < row.len(),
        wire::plain(row[at as int]),
        !taken(live, at, row[at as int]),
    ensures
        takes_its_key(live, at, row, live.push(row)),
{
    let all = live.push(row);
    assert forall|i: int, j: int| 0 <= i < j < all.len() implies (#[trigger] all[i])[at as int] != (
    #[trigger] all[j])[at as int] by {
        assert(all[i] == live[i]);
        if j < live.len() {
            assert(all[j] == live[j]);
        } else {
            assert(live[i][at as int] != row[at as int]);
        }
    }
    assert forall|i: int| 0 <= i < all.len() implies at < (#[trigger] all[i]).len() && wire::plain(
        all[i][at as int],
    ) by {
        if i < live.len() {
            assert(all[i] == live[i]);
        }
    }
    assert forall|key: nodedb_types::Value, other: Seq<nodedb_types::Value>| #[trigger]
        under(all, at, key, other) <==> if key == row[at as int] {
            other == row
        } else {
            under(live, at, key, other)
        } by {
        if under(all, at, key, other) {
            let i = choose|i: int|
                0 <= i < all.len() && #[trigger] all[i] == other && other[at as int] == key;
            if i < live.len() {
                assert(live[i] == other);
                assert(live[i][at as int] == key);
            }
        }
        if under(live, at, key, other) {
            let i = choose|i: int|
                0 <= i < live.len() && #[trigger] live[i] == other && other[at as int] == key;
            assert(all[i] == other);
        }
        assert(all[live.len() as int] == row);
    }
}

proof fn lemma_written_row(
    live: Seq<Seq<nodedb_types::Value>>,
    at: nat,
    row: Seq<nodedb_types::Value>,
)
    requires
        keyed(live, at),
        at < row.len(),
        wire::plain(row[at as int]),
    ensures
        takes_its_key(live, at, row, writes::with_row(live, at, row)),
{
    let key = row[at as int];
    let left = writes::without(live, at, key);
    lemma_without_key(live, at, key);
    if taken(left, at, key) {
        let i = choose|i: int| 0 <= i < left.len() && (#[trigger] left[i])[at as int] == key;
        assert(under(left, at, key, left[i]));
    }
    lemma_push_key(left, at, row);
    let after = writes::with_row(live, at, row);
    assert forall|k: nodedb_types::Value, other: Seq<nodedb_types::Value>| #[trigger]
        under(after, at, k, other) <==> if k == key {
            other == row
        } else {
            under(live, at, k, other)
        } by {
        assert(under(left, at, k, other) <==> k != key && under(live, at, k, other));
    }
}

proof fn lemma_conflict(
    mode: InsertMode,
    live: Seq<Seq<nodedb_types::Value>>,
    row: Seq<nodedb_types::Value>,
)
    requires
        mode.key == mode.stored_key,
        keyed(live, mode.key),
        mode.key < row.len(),
        wire::plain(row[mode.key as int]),
    ensures
        writes::conflicting(mode, live, row) is Some <==> taken(
            live,
            mode.key,
            row[mode.key as int],
        ),
        writes::conflicting(mode, live, row) matches Some(known) ==> under(
            live,
            mode.key,
            row[mode.key as int],
            known,
        ),
{
    lemma_find(live, mode.key, row[mode.key as int], 0);
}

proof fn lemma_find(
    live: Seq<Seq<nodedb_types::Value>>,
    at: nat,
    key: nodedb_types::Value,
    i: int,
)
    requires
        keyed(live, at),
        wire::plain(key),
        0 <= i <= live.len(),
    ensures
        writes::find_from(live, at, key, i) is Some <==> exists|j: int|
            i <= j < live.len() && (#[trigger] live[j])[at as int] == key,
        writes::find_from(live, at, key, i) matches Some(known) ==> under(live, at, key, known),
    decreases live.len() - i,
{
    if i < live.len() {
        assert(writes::has_key(live[i], at, key) <==> live[i][at as int] == key);
        if live[i][at as int] != key {
            lemma_find(live, at, key, i + 1);
        } else {
            assert(under(live, at, key, live[i]));
        }
    }
}

/// An insert without updates puts a row under its key, in the place of one that
/// stands there. A unique insert refuses a key that is taken and changes nothing;
/// an insert of absent keys passes over it. Every other key keeps its row.
pub proof fn inserted_row_takes_its_key(
    mode: InsertMode,
    p: Progress,
    row: Seq<nodedb_types::Value>,
    evaluated: Seq<nodedb_types::Value>,
)
    requires
        mode.key == mode.stored_key,
        mode.updates.len() == 0,
        keyed(p.live, mode.key),
        p.refused is None,
        mode.key < row.len(),
        wire::plain(row[mode.key as int]),
    ensures
        ({
            let q = writes::insert_row(mode, p, row, evaluated);
            let there = taken(p.live, mode.key, row[mode.key as int]);
            &&& there && mode.intent == ColumnarInsertIntent::InsertUnique ==> q.live == p.live
                && q.written == p.written && q.refused == Some(
                Refusal::Duplicate(row[mode.key as int]),
            )
            &&& there && mode.intent == ColumnarInsertIntent::InsertIfAbsent ==> q == p
            &&& !there || mode.intent == ColumnarInsertIntent::Insert || mode.intent
                == ColumnarInsertIntent::Put ==> q.refused is None && q.written == p.written.push(
                row,
            ) && takes_its_key(p.live, mode.key, row, q.live)
        }),
{
    let at = mode.key;
    let key = row[at as int];
    lemma_conflict(mode, p.live, row);
    lemma_written_row(p.live, at, row);
    let left = writes::without(p.live, at, key);
    lemma_without_key(p.live, at, key);
    lemma_written_row(left, at, row);
    let twice = writes::with_row(left, at, row);
    assert(takes_its_key(p.live, at, row, twice)) by {
        assert forall|k: nodedb_types::Value, other: Seq<nodedb_types::Value>| #[trigger]
            under(twice, at, k, other) <==> if k == key {
                other == row
            } else {
                under(p.live, at, k, other)
            } by {
            assert(under(left, at, k, other) <==> k != key && under(p.live, at, k, other));
        }
    }
}

/// An insert answers with the rows it wrote and counts them. An insert that
/// refuses no key writes every row of its payload, in order. A payload that
/// cannot be read changes nothing.
pub proof fn insert_answers_with_what_it_wrote(
    collection: &str,
    stored: Table,
    params: &InsertParams,
    r: (Option<Table>, Result<(QueryResult, Vec<Vec<nodedb_types::Value>>), LiteError>),
)
    requires
        call_ensures(ops::insert, (collection, Some(stored), params), r),
    ensures
        r.0 is Some,
        r.0->Some_0@.columns == stored@.columns,
        r.1 is Ok ==> {
            &&& r.1->Ok_0.0@.rows_affected == r.1->Ok_0.1@.len()
            &&& r.1->Ok_0.0@.command == Some("INSERT"@)
        },
        params.intent == ColumnarInsertIntent::Insert ==> {
            let columns = writes::column_names(
                writes::incoming_columns(stored@.columns, params.schema_bytes@),
            );
            let incoming = payload::payload_rows(params.payload@, params.format@, columns);
            &&& incoming is Ok <==> r.1 is Ok
            &&& incoming is Ok ==> crate::columnar::rows::table_view(r.1->Ok_0.1@)
                == incoming->Ok_0
            &&& incoming is Err ==> r.0->Some_0@.rows == stored@.rows
        },
{
    let answer = writes::insert_view(r.1);
    let before = Some(stored@);
    let after = writes::stored_view(r.0);
    assert(ops::insert_answered(collection@, before, params@, after, answer));
    let end = choose|end: EndView| #[trigger]
        ops::answered_at(collection@, before->Some_0, params@, after->Some_0, end, answer);
    if r.1 is Ok {
        assert(r.1->Ok_0.1.len() == r.1->Ok_0.1@.len());
        assert(answer->Ok_0.1.len() == r.1->Ok_0.1@.len());
    }
    if params.intent == ColumnarInsertIntent::Insert {
        let mode = writes::insert_mode(stored@, params@);
        let incoming = payload::payload_rows(params@.payload, params@.format, mode.columns);
        if let Ok(rows) = incoming {
            let evaluated = choose|evaluated: Seq<Seq<nodedb_types::Value>>| #[trigger]
                writes::inserted(mode, stored@.rows, rows, evaluated, after->Some_0.rows, end);
            lemma_all_written(mode, stored@.rows, rows, evaluated);
        }
    }
}

proof fn lemma_all_written(
    mode: InsertMode,
    live: Seq<Seq<nodedb_types::Value>>,
    incoming: Seq<Seq<nodedb_types::Value>>,
    evaluated: Seq<Seq<nodedb_types::Value>>,
)
    requires
        mode.intent == ColumnarInsertIntent::Insert,
    ensures
        writes::insert_rows(mode, live, incoming, evaluated).refused is None,
        writes::insert_rows(mode, live, incoming, evaluated).written == incoming,
    decreases incoming.len(),
{
    if incoming.len() > 0 {
        lemma_all_written(mode, live, incoming.drop_last(), evaluated);
        assert(incoming.drop_last().push(incoming.last()) =~= incoming);
    } else {
        assert(incoming =~= Seq::<Seq<nodedb_types::Value>>::empty());
    }
}

/// A JSON value becomes the dynamic value of its kind with the same contents: a
/// whole number an integer, an array element by element, an object entry by
/// entry.
pub proof fn json_value_keeps_its_contents(t: JsonTree)
    ensures
        t is Null ==> json::converted(t) == native::native_of(DatumView::Null),
        t matches JsonTree::Bool(b) ==> json::converted(t) == native::native_of(
            DatumView::Bool(b),
        ),
        t matches JsonTree::String(s) ==> json::converted(t) == native::native_of(
            DatumView::String(s),
        ),
        t matches JsonTree::Number(n) ==> (json::number_int(n) matches Some(i) ==> json::converted(t)
            == native::native_of(DatumView::Integer(i))),
        t matches JsonTree::Number(n) ==> json::number_int(n) is None ==> (json::number_float(
            n,
        ) matches Some(f) ==> json::converted(t) == f),
        t matches JsonTree::Array(items) ==> exists|parts: Seq<nodedb_types::Value>| #[trigger]
            native::native_array(parts) == json::converted(t) && parts.len() == items.len()
                && forall|i: int|
                0 <= i < items.len() ==> #[trigger] parts[i] == json::converted(items[i]),
        t matches JsonTree::Object(entries) ==> exists|
            fields: Map<Seq<char>, nodedb_types::Value>,
        | #[trigger]
            native::native_object(fields) == json::converted(t) && holds_entries(fields, entries),
{
    match t {
        JsonTree::Array(items) => {
            lemma_converted(items);
            assert(native::native_array(json::converted_items(items)) == json::converted(t));
        },
        JsonTree::Object(entries) => {
            lemma_holds_entries(entries);
            assert(native::native_object(json::converted_entries(entries)) == json::converted(t));
        },
        _ => {},
    }
}

proof fn lemma_converted(items: Seq<JsonTree>)
    ensures
        json::converted_items(items).len() == items.len(),
        forall|i: int|
            0 <= i < items.len() ==> #[trigger] json::converted_items(items)[i] == json::converted(
                items[i],
            ),
    decreases items.len(),
{
    if items.len() > 0 {
        lemma_converted(items.drop_last());
    }
}

/// The value that an update assigns: the decoded literal, null where it cannot be
/// decoded, or what its expression yielded, the incoming value of the column
/// standing in for null.
pub open spec fn assigns(
    update: UpdateValue,
    incoming: Map<Seq<char>, nodedb_types::Value>,
    name: Seq<char>,
    evaluated: nodedb_types::Value,
    value: nodedb_types::Value,
) -> bool {
    let null = native::native_of(DatumView::Null);
    match update {
        UpdateValue::Literal(encoded) => value == match wire::decoded_native(encoded@) {
            Ok(v) => v,
            Err(_) => null,
        },
        UpdateValue::Expr(_) => value == if evaluated != null {
            evaluated
        } else if incoming.dom().contains(name) {
            incoming[name]
        } else {
            null
        },
    }
}

/// Whether an update is the last one of a name.
pub open spec fn last_update(
    updates: Seq<(String, UpdateValue)>,
    u: int,
    name: Seq<char>,
) -> bool {
    &&& 0 <= u < updates.len()
    &&& updates[u].0@ == name
    &&& forall|w: int| u < w < updates.len() ==> (#[trigger] updates[w]).0@ != name
}

/// Whether no update has a name.
pub open spec fn unnamed(updates: Seq<(String, UpdateValue)>, name: Seq<char>) -> bool {
    forall|u: int| 0 <= u < updates.len() ==> (#[trigger] updates[u]).0@ != name
}

/// A row in conflict keeps every column that no update names. A column that some
/// name, the first of its name, takes what the last of them assigns.
pub proof fn conflicting_row_takes_its_updates(
    existing: Seq<nodedb_types::Value>,
    incoming: Map<Seq<char>, nodedb_types::Value>,
    updates: Seq<(String, UpdateValue)>,
    columns: Seq<Seq<char>>,
    evaluated: Seq<nodedb_types::Value>,
)
    ensures
        writes::merged(existing, incoming, updates, columns, evaluated).len() == existing.len(),
        forall|c: int|
            0 <= c < existing.len() && c < columns.len() && unnamed(updates, columns[c])
                ==> #[trigger] writes::merged(existing, incoming, updates, columns, evaluated)[c]
                == existing[c],
        forall|c: int, u: int|
            0 <= c < existing.len() && c < columns.len() && selected::first_of_its_name(columns, c)
                && #[trigger] last_update(updates, u, columns[c]) ==> assigns(
                updates[u].1,
                incoming,
                columns[c],
                evaluated[u],
                writes::merged(existing, incoming, updates, columns, evaluated)[c],
            ),
    decreases updates.len(),
{
    let after = writes::merged(existing, incoming, updates, columns, evaluated);
    if updates.len() > 0 {
        let n = updates.len() - 1;
        let rest = updates.drop_last();
        conflicting_row_takes_its_updates(existing, incoming, rest, columns, evaluated);
        let before = writes::merged(existing, incoming, rest, columns, evaluated);
        let name = updates[n].0@;
        selected::lemma_name_from(columns, name, 0);
        assert forall|c: int|
            0 <= c < existing.len() && c < columns.len() && unnamed(
                updates,
                columns[c],
            ) implies #[trigger] after[c] == existing[c] by {
            assert(updates[n].0@ != columns[c]);
            assert(unnamed(rest, columns[c])) by {
                assert forall|u: int| 0 <= u < rest.len() implies (#[trigger] rest[u]).0@
                    != columns[c] by {
                    assert(rest[u] == updates[u]);
                }
            }
            assert(before[c] == existing[c]);
        }
        assert forall|c: int, u: int|
            0 <= c < existing.len() && c < columns.len() && selected::first_of_its_name(columns, c)
                && #[trigger] last_update(updates, u, columns[c]) implies assigns(
            updates[u].1,
            incoming,
            columns[c],
            evaluated[u],
            after[c],
        ) by {
            if u == n {
                let k = crate::columnar::rows::name_from(columns, name, 0)->Some_0;
                assert(columns[c] == name);
                assert(k == c);
            } else {
                assert(updates[n].0@ != columns[c]);
                assert(rest[u] == updates[u]);
                assert(last_update(rest, u, columns[c])) by {
                    assert forall|w: int| u < w < rest.len() implies (#[trigger] rest[w]).0@
                        != columns[c] by {
                        assert(rest[w] == updates[w]);
                    }
                }
                assert(after[c] == before[c]);
            }
        }
    }
}

} // verus!
