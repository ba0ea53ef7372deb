//! Which rows an update and a delete reach, and what they do to them.
use crate::columnar::edits;
use crate::columnar::rows;
use crate::columnar::writes;
use crate::columnar::writes::Table;
use crate::error::LiteError;
use crate::filter;
use crate::kv::fields;
use crate::native;
use crate::result::QueryResult;
use crate::wire;
use vstd::prelude::*;

verus! {

/// Whether a row meets every predicate that bytes encode. No bytes encode none.
pub open spec fn met(
    filters: Seq<u8>,
    columns: Seq<Seq<char>>,
    row: Seq<nodedb_types::Value>,
) -> bool {
    filters.len() == 0 || forall|i: int|
        0 <= i < filter::decoded_filters(filters)->Ok_0.len() ==> filter::filter_holds(
            #[trigger] filter::decoded_filters(filters)->Ok_0[i],
            native::native_object(rows::row_fields(columns, row)),
        )
}

/// Whether every row has a key, and its key is that of no other row.
pub open spec fn telling(live: Seq<Seq<nodedb_types::Value>>, at: nat) -> bool {
    &&& forall|i: int| 0 <= i < live.len() ==> at < (#[trigger] live[i]).len()
    &&& forall|i: int, j: int|
        0 <= i < live.len() && 0 <= j < live.len() ==> (native::same_value(
            #[trigger] live[i][at as int],
            #[trigger] live[j][at as int],
        ) <==> i == j)
}

/// The key of a table is its first column that is marked as one, or its first
/// column where none is.
pub proof fn key_is_the_first_marked_column(columns: Seq<(Seq<char>, bool)>)
    ensures
        forall|i: int| 0 <= i < writes::key_column(columns) ==> !(#[trigger] columns[i]).1,
        (exists|i: int| 0 <= i < columns.len() && (#[trigger] columns[i]).1) ==> {
            &&& writes::key_column(columns) < columns.len()
            &&& columns[writes::key_column(columns) as int].1
        },
        (forall|i: int| 0 <= i < columns.len() ==> !(#[trigger] columns[i]).1)
            ==> writes::key_column(columns) == 0,
{
    lemma_key_from(columns, 0);
}

proof fn lemma_key_from(columns: Seq<(Seq<char>, bool)>, i: int)
    requires
        0 <= i <= columns.len(),
    ensures
        forall|j: int|
            i <= j < writes::key_column_from(columns, i) ==> !(#[trigger] columns[j]).1,
        (exists|j: int| i <= j < columns.len() && (#[trigger] columns[j]).1) ==> {
            &&& i <= writes::key_column_from(columns, i) < columns.len()
            &&& columns[writes::key_column_from(columns, i) as int].1
        },
        (forall|j: int| i <= j < columns.len() ==> !(#[trigger] columns[j]).1)
            ==> writes::key_column_from(columns, i) == 0,
    decreases columns.len() - i,
{
    if i < columns.len() && !columns[i].1 {
        lemma_key_from(columns, i + 1);
    }
}

/// A row holds each of its values under the name of its column, and nothing
/// else. Of columns with one name the last one counts.
pub proof fn row_is_named_by_its_columns(
    columns: Seq<Seq<char>>,
    row: Seq<nodedb_types::Value>,
)
    ensures
        forall|name: Seq<char>| #[trigger]
            rows::row_fields(columns, row).dom().contains(name) ==> exists|i: int|
                0 <= i < columns.len() && i < row.len() && columns[i] == name,
        forall|i: int|
            #![trigger columns[i]]
            0 <= i < columns.len() && i < row.len() && (forall|j: int|
                i < j < columns.len() && j < row.len() ==> columns[j] != columns[i])
                ==> rows::row_fields(columns, row).dom().contains(columns[i]) && rows::row_fields(
                columns,
                row,
            )[columns[i]] == row[i],
    decreases columns.len(),
{
    if columns.len() > 0 {
        let rest = columns.drop_last();
        row_is_named_by_its_columns(rest, row);
        let all = rows::row_fields(columns, row);
        assert forall|name: Seq<char>| #[trigger] all.dom().contains(name) implies exists|i: int|
            0 <= i < columns.len() && i < row.len() && columns[i] == name by {
            if columns.len() <= row.len() && name == columns.last() {
                assert(columns[columns.len() - 1] == name);
            } else {
                assert(rows::row_fields(rest, row).dom().contains(name));
                let i = choose|i: int| 0 <= i < rest.len() && i < row.len() && rest[i] == name;
                assert(columns[i] == name);
            }
        }
        assert forall|i: int|
            #![trigger columns[i]]
            0 <= i < columns.len() && i < row.len() && (forall|j: int|
                i < j < columns.len() && j < row.len() ==> columns[j] != columns[i]) implies all.dom().contains(
        columns[i]) && all[columns[i]] == row[i] by {
            if i < rest.len() {
                assert(rest[i] == columns[i]);
                assert forall|j: int| i < j < rest.len() && j < row.len() implies rest[j]
                    != rest[i] by {
                    assert(rest[j] == columns[j]);
                }
                if columns.len() <= row.len() {
                    assert(columns[columns.len() - 1] != columns[i]);
                }
            }
        }
    }
}

/// A row that is read for columns has one value for each: the field of its name,
/// or null where there is none.
pub proof fn row_follows_the_columns(
    fields: Map<Seq<char>, nodedb_types::Value>,
    columns: Seq<Seq<char>>,
)
    ensures
        rows::row_of(fields, columns).len() == columns.len(),
        forall|i: int|
            0 <= i < columns.len() ==> #[trigger] rows::row_of(fields, columns)[i]
                == if fields.dom().contains(columns[i]) {
                fields[columns[i]]
            } else {
                native::null()
            },
{
}

pub(crate) proof fn lemma_name_from(columns: Seq<Seq<char>>, name: Seq<char>, i: int)
    requires
        0 <= i,
    ensures
        match rows::name_from(columns, name, i) {
            Some(k) => i <= k < columns.len() && columns[k] == name && forall|j: int|
                i <= j < k ==> columns[j] != name,
            None => forall|j: int| i <= j < columns.len() ==> columns[j] != name,
        },
    decreases columns.len() - i,
{
    if i < columns.len() && columns[i] != name {
        lemma_name_from(columns, name, i + 1);
    }
}

/// What assignments leave of a row: a column that is the first of its name and
/// is named by some has the value of the last of these, null where it cannot be
/// decoded. Every other column stays as it was.
pub open spec fn takes_assignments(
    before: Seq<nodedb_types::Value>,
    columns: Seq<Seq<char>>,
    updates: Seq<(Seq<char>, Seq<u8>)>,
    row: Seq<nodedb_types::Value>,
) -> bool {
    &&& row.len() == before.len()
    &&& forall|c: int|
        0 <= c < row.len() && (c >= columns.len() || !first_of_its_name(columns, c) || forall|u:
            int| 0 <= u < updates.len() ==> (#[trigger] updates[u]).0 != columns[c])
            ==> #[trigger] row[c] == before[c]
    &&& forall|c: int, u: int|
        #![trigger row[c], updates[u]]
        0 <= c < row.len() && c < columns.len() && first_of_its_name(columns, c) && last_for(
            updates,
            u,
            columns[c],
        ) ==> row[c] == match wire::decoded_native(updates[u].1) {
            Ok(v) => v,
            Err(_) => native::null(),
        }
}

/// Whether no earlier column has the name of this one.
pub open spec fn first_of_its_name(columns: Seq<Seq<char>>, c: int) -> bool {
    forall|i: int| 0 <= i < c ==> #[trigger] columns[i] != columns[c]
}

/// Whether an assignment is the last one of a name.
pub open spec fn last_for(
    updates: Seq<(Seq<char>, Seq<u8>)>,
    u: int,
    name: Seq<char>,
) -> bool {
    &&& 0 <= u < updates.len()
    &&& updates[u].0 == name
    &&& forall|w: int| u < w < updates.len() ==> (#[trigger] updates[w]).0 != name
}

proof fn lemma_reassigned(
    row: Seq<nodedb_types::Value>,
    columns: Seq<Seq<char>>,
    updates: Seq<(Seq<char>, Seq<u8>)>,
)
    ensures
        takes_assignments(row, columns, updates, edits::reassigned(row, columns, updates)),
    decreases updates.len(),
{
    if updates.len() > 0 {
        let rest = updates.drop_last();
        lemma_reassigned(row, columns, rest);
        let before = edits::reassigned(row, columns, rest);
        let after = edits::reassigned(row, columns, updates);
        let name = updates.last().0;
        lemma_name_from(columns, name, 0);
        assert forall|c: int|
            0 <= c < after.len() && (c >= columns.len() || !first_of_its_name(columns, c)
                || forall|u: int|
                0 <= u < updates.len() ==> (#[trigger] updates[u]).0 != columns[c]) implies
            #[trigger] after[c] == row[c] by {
            if c < columns.len() && first_of_its_name(columns, c) {
                assert(updates[updates.len() - 1].0 != columns[c]);
                assert forall|u: int| 0 <= u < rest.len() implies (#[trigger] rest[u]).0
                    != columns[c] by {
                    assert(rest[u] == updates[u]);
                }
            }
            assert(before[c] == row[c]);
        }
        assert forall|c: int, u: int|
            #![trigger after[c], updates[u]]
            0 <= c < after.len() && c < columns.len() && first_of_its_name(columns, c) && last_for(
                updates,
                u,
                columns[c],
            ) implies after[c] == match wire::decoded_native(updates[u].1) {
            Ok(v) => v,
            Err(_) => native::null(),
        } by {
            if u == updates.len() - 1 {
                let k = rows::name_from(columns, name, 0)->Some_0;
                assert(columns[c] == name);
                assert(k == c);
            } else {
                assert(updates[updates.len() - 1].0 != columns[c]);
                assert(rest[u] == updates[u]);
                assert forall|w: int| u < w < rest.len() implies (#[trigger] rest[w]).0
                    != columns[c] by {
                    assert(rest[w] == updates[w]);
                }
                assert(last_for(rest, u, columns[c]));
                assert(before[c] == match wire::decoded_native(rest[u].1) {
                    Ok(v) => v,
                    Err(_) => native::null(),
                });
            }
        }
    }
}

/// The rows that meet the predicates.
pub open spec fn hits(
    filters: Seq<u8>,
    columns: Seq<Seq<char>>,
    live: Seq<Seq<nodedb_types::Value>>,
) -> Seq<Seq<nodedb_types::Value>> {
    live.filter(|row: Seq<nodedb_types::Value>| met(filters, columns, row))
}

/// The rows that do not.
pub open spec fn misses(
    filters: Seq<u8>,
    columns: Seq<Seq<char>>,
    live: Seq<Seq<nodedb_types::Value>>,
) -> Seq<Seq<nodedb_types::Value>> {
    live.filter(|row: Seq<nodedb_types::Value>| !met(filters, columns, row))
}

/// Whether verdicts say of each row whether it meets the predicates.
spec fn truthful(
    filters: Seq<u8>,
    columns: Seq<Seq<char>>,
    live: Seq<Seq<nodedb_types::Value>>,
    verdicts: Seq<bool>,
) -> bool {
    forall|i: int| 0 <= i < live.len() ==> #[trigger] verdicts[i] == met(filters, columns, live[i])
}

proof fn lemma_truthful(
    filters: Seq<u8>,
    columns: Seq<Seq<char>>,
    live: Seq<Seq<nodedb_types::Value>>,
    verdicts: Seq<bool>,
)
    requires
        filter::settled(filters),
        edits::judged(filters, columns, live, verdicts),
    ensures
        truthful(filters, columns, live, verdicts),
{
    assert forall|i: int| 0 <= i < live.len() implies #[trigger] verdicts[i] == met(
        filters,
        columns,
        live[i],
    ) by {
        let doc = native::native_object(rows::row_fields(columns, live[i]));
        assert(filter::can_judge(filters, doc, verdicts[i]));
        assert(verdicts[i] == filter::all_hold(filter::filters_in(filters), doc));
    }
}

proof fn lemma_filter_push(
    filters: Seq<u8>,
    columns: Seq<Seq<char>>,
    live: Seq<Seq<nodedb_types::Value>>,
)
    requires
        live.len() > 0,
    ensures
        hits(filters, columns, live) == if met(filters, columns, live.last()) {
            hits(filters, columns, live.drop_last()).push(live.last())
        } else {
            hits(filters, columns, live.drop_last())
        },
        misses(filters, columns, live) == if met(filters, columns, live.last()) {
            misses(filters, columns, live.drop_last())
        } else {
            misses(filters, columns, live.drop_last()).push(live.last())
        },
{
    reveal(Seq::filter);
}

proof fn lemma_changes(
    filters: Seq<u8>,
    live: Seq<Seq<nodedb_types::Value>>,
    verdicts: Seq<bool>,
    at: nat,
    columns: Seq<Seq<char>>,
    updates: Seq<(Seq<char>, Seq<u8>)>,
)
    requires
        truthful(filters, columns, live, verdicts),
    ensures
        edits::changes(live, verdicts, at, columns, updates).len() == hits(
            filters,
            columns,
            live,
        ).len(),
        forall|i: int|
            #![trigger edits::changes(live, verdicts, at, columns, updates)[i]]
            0 <= i < hits(filters, columns, live).len() ==> edits::changes(
                live,
                verdicts,
                at,
                columns,
                updates,
            )[i] == (
                edits::key_of(hits(filters, columns, live)[i], at),
                edits::reassigned(hits(filters, columns, live)[i], columns, updates),
            ),
    decreases live.len(),
{
    if live.len() > 0 {
        let rest = live.drop_last();
        assert forall|i: int| 0 <= i < rest.len() implies #[trigger] verdicts[i] == met(
            filters,
            columns,
            rest[i],
        ) by {
            assert(rest[i] == live[i]);
        }
        lemma_changes(filters, rest, verdicts, at, columns, updates);
        lemma_filter_push(filters, columns, live);
        assert(verdicts[live.len() - 1] == met(filters, columns, live[live.len() - 1]));
    } else {
        reveal(Seq::filter);
    }
}

/// An update plans a change of exactly the rows that meet its predicates, in
/// their order, each under its own key. Its assignments change the columns they
/// name and no other. The answer counts the rows.
pub proof fn update_reaches_the_rows_that_match(
    collection: &str,
    table: &Table,
    filters: &[u8],
    updates: &[(String, Vec<u8>)],
    r: Result<
        (QueryResult, Vec<(nodedb_types::Value, Vec<nodedb_types::Value>)>),
        LiteError,
    >,
)
    requires
        filter::settled(filters@),
        telling(table@.rows, writes::key_column(table@.columns)),
        call_ensures(edits::update, (collection, Some(table), filters, updates), r),
        r is Ok,
    ensures
        r->Ok_0.1@.len() == hits(
            filters@,
            writes::column_names(table@.columns),
            table@.rows,
        ).len(),
        r->Ok_0.0@.rows_affected == r->Ok_0.1@.len(),
        r->Ok_0.0@.command == Some("UPDATE"@),
        forall|i: int|
            0 <= i < r->Ok_0.1@.len() ==> {
                let row = hits(
                    filters@,
                    writes::column_names(table@.columns),
                    table@.rows,
                )[i];
                &&& (#[trigger] r->Ok_0.1@[i]).0 == row[writes::key_column(table@.columns) as int]
                &&& takes_assignments(
                    row,
                    writes::column_names(table@.columns),
                    fields::assignments(updates@),
                    r->Ok_0.1@[i].1@,
                )
            },
{
    let answer = edits::update_view(r)->Ok_0;
    let columns = writes::column_names(table@.columns);
    let sets = fields::assignments(updates@);
    let at = writes::key_column(table@.columns);
    let all = hits(filters@, columns, table@.rows);
    assert(edits::update_done(table@, filters@, sets, answer));
    let verdicts = choose|verdicts: Seq<bool>|
        edits::judged(filters@, columns, table@.rows, verdicts) && #[trigger] edits::update_answer(
            table@,
            sets,
            verdicts,
            answer,
        );
    lemma_truthful(filters@, columns, table@.rows, verdicts);
    lemma_changes(filters@, table@.rows, verdicts, at, columns, sets);
    assert(answer.1.len() == r->Ok_0.1@.len());
    assert(r->Ok_0.1.len() == r->Ok_0.1@.len());
    assert forall|i: int| 0 <= i < r->Ok_0.1@.len() implies {
        let row = all[i];
        &&& (#[trigger] r->Ok_0.1@[i]).0 == row[at as int]
        &&& takes_assignments(row, columns, sets, r->Ok_0.1@[i].1@)
    } by {
        assert(answer.1[i] == (r->Ok_0.1@[i].0, r->Ok_0.1@[i].1@));
        lemma_reassigned(all[i], columns, sets);
        lemma_hit_is_live(filters@, columns, table@.rows, i);
        let j = choose|j: int| 0 <= j < table@.rows.len() && table@.rows[j] == all[i];
        assert(at < table@.rows[j].len());
    }
}

proof fn lemma_hit_is_live(
    filters: Seq<u8>,
    columns: Seq<Seq<char>>,
    live: Seq<Seq<nodedb_types::Value>>,
    i: int,
)
    requires
        0 <= i < hits(filters, columns, live).len(),
    ensures
        exists|j: int| 0 <= j < live.len() && live[j] == hits(filters, columns, live)[i],
    decreases live.len(),
{
    reveal(Seq::filter);
    if live.len() > 0 {
        lemma_filter_push(filters, columns, live);
        let rest = hits(filters, columns, live.drop_last());
        if i < rest.len() {
            lemma_hit_is_live(filters, columns, live.drop_last(), i);
            let j = choose|j: int|
                0 <= j < live.drop_last().len() && live.drop_last()[j] == rest[i];
            assert(live[j] == rest[i]);
        } else {
            assert(live[live.len() - 1] == hits(filters, columns, live)[i]);
        }
    }
}

/// Whether a row has none of the keys.
spec fn has_none(row: Seq<nodedb_types::Value>, at: nat, keys: Seq<nodedb_types::Value>) -> bool {
    forall|i: int| 0 <= i < keys.len() ==> !writes::has_key(row, at, #[trigger] keys[i])
}

spec fn without_any(
    live: Seq<Seq<nodedb_types::Value>>,
    at: nat,
    keys: Seq<nodedb_types::Value>,
) -> Seq<Seq<nodedb_types::Value>>
    decreases live.len(),
{
    if live.len() == 0 {
        Seq::empty()
    } else if has_none(live.last(), at, keys) {
        without_any(live.drop_last(), at, keys).push(live.last())
    } else {
        without_any(live.drop_last(), at, keys)
    }
}

proof fn lemma_without_one(
    live: Seq<Seq<nodedb_types::Value>>,
    at: nat,
    keys: Seq<nodedb_types::Value>,
    key: nodedb_types::Value,
)
    ensures
        writes::without(without_any(live, at, keys), at, key) == without_any(
            live,
            at,
            keys.push(key),
        ),
    decreases live.len(),
{
    if live.len() > 0 {
        let rest = live.drop_last();
        let row = live.last();
        lemma_without_one(rest, at, keys, key);
        let more = keys.push(key);
        assert(has_none(row, at, more) <==> has_none(row, at, keys) && !writes::has_key(
            row,
            at,
            key,
        )) by {
            assert(more[keys.len() as int] == key);
            assert(forall|i: int| 0 <= i < keys.len() ==> more[i] == keys[i]);
            if has_none(row, at, more) {
                assert(!writes::has_key(row, at, more[keys.len() as int]));
                assert forall|i: int| 0 <= i < keys.len() implies !writes::has_key(
                    row,
                    at,
                    #[trigger] keys[i],
                ) by {
                    assert(more[i] == keys[i]);
                }
            }
        }
        let before = without_any(rest, at, keys);
        if has_none(row, at, keys) {
            assert(before.push(row).drop_last() =~= before);
        }
    }
}

proof fn lemma_without_keys(
    live: Seq<Seq<nodedb_types::Value>>,
    at: nat,
    keys: Seq<nodedb_types::Value>,
)
    ensures
        edits::without_keys(live, at, keys) == without_any(live, at, keys),
    decreases keys.len(),
{
    if keys.len() > 0 {
        lemma_without_keys(live, at, keys.drop_last());
        lemma_without_one(live, at, keys.drop_last(), keys.last());
        assert(keys.drop_last().push(keys.last()) =~= keys);
    } else {
        lemma_without_none(live, at, keys);
    }
}

proof fn lemma_without_none(
    live: Seq<Seq<nodedb_types::Value>>,
    at: nat,
    keys: Seq<nodedb_types::Value>,
)
    requires
        keys.len() == 0,
    ensures
        without_any(live, at, keys) == live,
    decreases live.len(),
{
    if live.len() > 0 {
        lemma_without_none(live.drop_last(), at, keys);
        assert(live.drop_last().push(live.last()) =~= live);
    } else {
        assert(live =~= Seq::<Seq<nodedb_types::Value>>::empty());
    }
}

/// Whether a key is that of a row before `n` with a positive verdict.
spec fn keyed(
    live: Seq<Seq<nodedb_types::Value>>,
    verdicts: Seq<bool>,
    at: nat,
    n: int,
    key: nodedb_types::Value,
    j: int,
) -> bool {
    0 <= j < n && verdicts[j] && key == live[j][at as int]
}

spec fn some_keyed(
    live: Seq<Seq<nodedb_types::Value>>,
    verdicts: Seq<bool>,
    at: nat,
    n: int,
    key: nodedb_types::Value,
) -> bool {
    exists|j: int| keyed(live, verdicts, at, n, key, j)
}

proof fn lemma_matching(
    live: Seq<Seq<nodedb_types::Value>>,
    verdicts: Seq<bool>,
    at: nat,
    n: int,
)
    requires
        telling(live, at),
        0 <= n <= live.len(),
    ensures
        forall|i: int|
            #![trigger edits::matching_keys(live.take(n), verdicts, at)[i]]
            0 <= i < edits::matching_keys(live.take(n), verdicts, at).len() ==> some_keyed(
                live,
                verdicts,
                at,
                n,
                edits::matching_keys(live.take(n), verdicts, at)[i],
            ),
        forall|j: int|
            0 <= j < n && #[trigger] verdicts[j] ==> edits::matching_keys(
                live.take(n),
                verdicts,
                at,
            ).contains(live[j][at as int]),
    decreases n,
{
    let keys = edits::matching_keys(live.take(n), verdicts, at);
    if n > 0 {
        lemma_matching(live, verdicts, at, n - 1);
        let before = edits::matching_keys(live.take(n - 1), verdicts, at);
        assert(live.take(n).drop_last() =~= live.take(n - 1));
        assert(live.take(n).last() == live[n - 1]);
        assert(at < live[n - 1].len());
        assert forall|i: int|
            #![trigger keys[i]]
            0 <= i < keys.len() implies some_keyed(live, verdicts, at, n, keys[i]) by {
            if i < before.len() {
                assert(before[i] == keys[i]);
                let m = n - 1;
                assert(some_keyed(live, verdicts, at, m, before[i]));
                let j = choose|j: int| #[trigger] keyed(live, verdicts, at, m, before[i], j);
                assert(keyed(live, verdicts, at, n, keys[i], j));
            } else {
                assert(keyed(live, verdicts, at, n, keys[i], n - 1));
            }
        }
        assert forall|j: int| 0 <= j < n && #[trigger] verdicts[j] implies keys.contains(
            live[j][at as int],
        ) by {
            if j < n - 1 {
                let i = choose|i: int| 0 <= i < before.len() && before[i] == live[j][at as int];
                assert(keys[i] == before[i]);
            } else {
                assert(keys[keys.len() - 1] == live[j][at as int]);
            }
        }
    }
}

proof fn lemma_find_in(
    live: Seq<Seq<nodedb_types::Value>>,
    at: nat,
    key: nodedb_types::Value,
    i: int,
    j: int,
)
    requires
        0 <= i <= j < live.len(),
        writes::has_key(live[j], at, key),
    ensures
        writes::find_from(live, at, key, i) is Some,
    decreases j - i,
{
    if i < j {
        lemma_find_in(live, at, key, i + 1, j);
    }
}

proof fn lemma_still_there(
    live: Seq<Seq<nodedb_types::Value>>,
    at: nat,
    keys: Seq<nodedb_types::Value>,
    j: int,
)
    requires
        0 <= j < live.len(),
        has_none(live[j], at, keys),
    ensures
        without_any(live, at, keys).contains(live[j]),
    decreases live.len(),
{
    let all = without_any(live, at, keys);
    let rest = without_any(live.drop_last(), at, keys);
    if j == live.len() - 1 {
        assert(all[all.len() - 1] == live[j]);
    } else {
        lemma_still_there(live.drop_last(), at, keys, j);
        let i = choose|i: int| 0 <= i < rest.len() && rest[i] == live[j];
        assert(all[i] == live[j]);
    }
}

proof fn lemma_removals(
    live: Seq<Seq<nodedb_types::Value>>,
    verdicts: Seq<bool>,
    at: nat,
    n: int,
)
    requires
        telling(live, at),
        0 <= n <= live.len(),
    ensures
        edits::removals(live, at, edits::matching_keys(live.take(n), verdicts, at))
            == edits::matching_keys(live.take(n), verdicts, at).len(),
    decreases n,
{
    if n > 0 {
        lemma_removals(live, verdicts, at, n - 1);
        let before = edits::matching_keys(live.take(n - 1), verdicts, at);
        assert(live.take(n).drop_last() =~= live.take(n - 1));
        if verdicts[n - 1] {
            let key = live[n - 1][at as int];
            assert(at < live[n - 1].len());
            let keys = before.push(key);
            assert(edits::matching_keys(live.take(n), verdicts, at) == keys);
            assert(keys.drop_last() =~= before);
            lemma_matching(live, verdicts, at, n - 1);
            assert forall|i: int| 0 <= i < before.len() implies !writes::has_key(
                live[n - 1],
                at,
                #[trigger] before[i],
            ) by {
                let m = n - 1;
                assert(some_keyed(live, verdicts, at, m, before[i]));
                let j = choose|j: int| #[trigger] keyed(live, verdicts, at, m, before[i], j);
                assert(!native::same_value(live[n - 1][at as int], live[j][at as int]));
            }
            lemma_still_there(live, at, before, n - 1);
            lemma_without_keys(live, at, before);
            let left = without_any(live, at, before);
            let i = choose|i: int| 0 <= i < left.len() && left[i] == live[n - 1];
            assert(native::same_value(live[n - 1][at as int], live[n - 1][at as int]));
            lemma_find_in(left, at, key, 0, i);
        }
    }
}

proof fn lemma_left(
    filters: Seq<u8>,
    columns: Seq<Seq<char>>,
    live: Seq<Seq<nodedb_types::Value>>,
    verdicts: Seq<bool>,
    at: nat,
    keys: Seq<nodedb_types::Value>,
    n: int,
)
    requires
        telling(live, at),
        truthful(filters, columns, live, verdicts),
        0 <= n <= live.len(),
        keys == edits::matching_keys(live, verdicts, at),
    ensures
        without_any(live.take(n), at, keys) == misses(filters, columns, live.take(n)),
        edits::matching_keys(live.take(n), verdicts, at).len() + misses(
            filters,
            columns,
            live.take(n),
        ).len() == n,
    decreases n,
{
    if n > 0 {
        lemma_left(filters, columns, live, verdicts, at, keys, n - 1);
        assert(live.take(n).drop_last() =~= live.take(n - 1));
        let row = live[n - 1];
        assert(live.take(n).last() == row);
        lemma_filter_push(filters, columns, live.take(n));
        lemma_matching(live, verdicts, at, live.len() as int);
        assert(live.take(live.len() as int) =~= live);
        assert(verdicts[n - 1] == met(filters, columns, row));
        assert(at < row.len());
        if verdicts[n - 1] {
            assert(keys.contains(row[at as int]));
            let i = choose|i: int| 0 <= i < keys.len() && keys[i] == row[at as int];
            assert(native::same_value(live[n - 1][at as int], live[n - 1][at as int]));
            assert(writes::has_key(row, at, keys[i]));
        } else {
            assert forall|i: int| 0 <= i < keys.len() implies !writes::has_key(
                row,
                at,
                #[trigger] keys[i],
            ) by {
                let m = live.len() as int;
                assert(some_keyed(live, verdicts, at, m, keys[i]));
                let j = choose|j: int| #[trigger] keyed(live, verdicts, at, m, keys[i], j);
                assert(!native::same_value(live[n - 1][at as int], live[j][at as int]));
            }
            assert(has_none(row, at, keys));
        }
    } else {
        reveal(Seq::filter);
    }
}

/// A delete leaves exactly the rows that do not meet its predicates, in their
/// order and as they were. The answer counts the rows that went.
pub proof fn delete_leaves_the_rows_that_do_not_match(
    collection: &str,
    table: Table,
    filters: &[u8],
    r: (Option<Table>, Result<QueryResult, LiteError>),
)
    requires
        filter::settled(filters@),
        telling(table@.rows, writes::key_column(table@.columns)),
        call_ensures(edits::delete, (collection, Some(table), filters), r),
        r.1 is Ok,
    ensures
        r.0 is Some,
        r.0->Some_0@.columns == table@.columns,
        r.0->Some_0@.rows == misses(
            filters@,
            writes::column_names(table@.columns),
            table@.rows,
        ),
        r.1->Ok_0@.rows_affected == table@.rows.len() - r.0->Some_0@.rows.len(),
        r.1->Ok_0@.command == Some("DELETE"@),
{
    let columns = writes::column_names(table@.columns);
    let at = writes::key_column(table@.columns);
    let live = table@.rows;
    let after = r.0->Some_0@;
    let answer = r.1->Ok_0@;
    assert(edits::delete_done(table@, filters@, after, answer));
    let verdicts = choose|verdicts: Seq<bool>|
        edits::judged(filters@, columns, live, verdicts) && #[trigger] edits::delete_answer(
            table@,
            verdicts,
            after,
            answer,
        );
    lemma_truthful(filters@, columns, live, verdicts);
    let keys = edits::matching_keys(live, verdicts, at);
    assert(live.take(live.len() as int) =~= live);
    lemma_without_keys(live, at, keys);
    lemma_left(filters@, columns, live, verdicts, at, keys, live.len() as int);
    lemma_removals(live, verdicts, at, live.len() as int);
    assert(table.rows.len() == live.len());
}

/// An update and a delete without predicates are never refused.
pub proof fn edits_of_every_row_are_accepted(
    collection: &str,
    known: &Table,
    stored: Table,
    filters: &[u8],
    updates: &[(String, Vec<u8>)],
    u: Result<
        (QueryResult, Vec<(nodedb_types::Value, Vec<nodedb_types::Value>)>),
        LiteError,
    >,
    d: (Option<Table>, Result<QueryResult, LiteError>),
)
    requires
        filters@.len() == 0,
        call_ensures(edits::update, (collection, Some(known), filters, updates), u),
        call_ensures(edits::delete, (collection, Some(stored), filters), d),
    ensures
        u is Ok,
        d.1 is Ok,
{
}

} // verus!
