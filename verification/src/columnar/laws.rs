//! What holds of columnar writes taken together.
use crate::columnar::writes;
use crate::columnar::writes::{ColumnarInsertIntent, InsertMode, Progress, Refusal};
use crate::expression;
use crate::kv::fields;
use crate::kv::fields::UpdateValue;
use crate::native;
use crate::wire;
use vstd::prelude::*;

verus! {

/// No row has the key of a later row.
pub open spec fn distinct_keys(live: Seq<Seq<nodedb_types::Value>>, at: nat) -> bool {
    forall|i: int, j: int|
        0 <= i < j < live.len() && at < live[j].len() ==> !writes::has_key(
            #[trigger] live[i],
            at,
            #[trigger] live[j][at as int],
        )
}

proof fn lemma_without(live: Seq<Seq<nodedb_types::Value>>, at: nat, key: nodedb_types::Value)
    ensures
        forall|i: int|
            0 <= i < writes::without(live, at, key).len() ==> !writes::has_key(
                #[trigger] writes::without(live, at, key)[i],
                at,
                key,
            ),
        forall|i: int|
            0 <= i < writes::without(live, at, key).len() ==> live.contains(
                #[trigger] writes::without(live, at, key)[i],
            ),
    decreases live.len(),
{
    if live.len() > 0 {
        lemma_without(live.drop_last(), at, key);
        let rest = writes::without(live.drop_last(), at, key);
        let all = writes::without(live, at, key);
        assert forall|i: int| 0 <= i < all.len() implies live.contains(#[trigger] all[i]) by {
            if i < rest.len() {
                assert(live.drop_last().contains(rest[i]));
                let k = choose|k: int|
                    0 <= k < live.drop_last().len() && live.drop_last()[k] == rest[i];
                assert(live[k] == rest[i]);
            } else {
                assert(live[live.len() - 1] == all[i]);
            }
        }
    }
}

proof fn lemma_without_distinct(
    live: Seq<Seq<nodedb_types::Value>>,
    at: nat,
    key: nodedb_types::Value,
)
    requires
        distinct_keys(live, at),
    ensures
        distinct_keys(writes::without(live, at, key), at),
    decreases live.len(),
{
    if live.len() > 0 {
        let init = live.drop_last();
        assert forall|i: int, j: int|
            0 <= i < j < init.len() && at < init[j].len() implies !writes::has_key(
            #[trigger] init[i],
            at,
            #[trigger] init[j][at as int],
        ) by {
            assert(!writes::has_key(live[i], at, live[j][at as int]));
        }
        lemma_without_distinct(init, at, key);
        lemma_without(init, at, key);
        let rest = writes::without(init, at, key);
        let all = writes::without(live, at, key);
        assert forall|i: int, j: int|
            0 <= i < j < all.len() && at < all[j].len() implies !writes::has_key(
            #[trigger] all[i],
            at,
            #[trigger] all[j][at as int],
        ) by {
            assert(rest[i] == all[i]);
            if j < rest.len() {
                assert(!writes::has_key(rest[i], at, rest[j][at as int]));
            } else {
                assert(init.contains(rest[i]));
                let k = choose|k: int| 0 <= k < init.len() && init[k] == rest[i];
                assert(!writes::has_key(live[k], at, live[live.len() - 1][at as int]));
            }
        }
    }
}

proof fn lemma_with_row_distinct(
    live: Seq<Seq<nodedb_types::Value>>,
    at: nat,
    row: Seq<nodedb_types::Value>,
)
    requires
        distinct_keys(live, at),
    ensures
        distinct_keys(writes::with_row(live, at, row), at),
{
    let after = writes::with_row(live, at, row);
    if at < row.len() {
        let key = row[at as int];
        lemma_without_distinct(live, at, key);
        lemma_without(live, at, key);
        let rest = writes::without(live, at, key);
        assert forall|i: int, j: int|
            0 <= i < j < after.len() && at < after[j].len() implies !writes::has_key(
            #[trigger] after[i],
            at,
            #[trigger] after[j][at as int],
        ) by {
            assert(after[i] == rest[i]);
            if j < rest.len() {
                assert(!writes::has_key(rest[i], at, rest[j][at as int]));
            }
        }
    } else {
        assert forall|i: int, j: int|
            0 <= i < j < after.len() && at < after[j].len() implies !writes::has_key(
            #[trigger] after[i],
            at,
            #[trigger] after[j][at as int],
        ) by {
            assert(!writes::has_key(live[i], at, live[j][at as int]));
        }
    }
}

/// An insert, whatever its intent, never leaves two rows with one key where
/// there were none before.
pub proof fn keys_stay_distinct(
    mode: InsertMode,
    live: Seq<Seq<nodedb_types::Value>>,
    incoming: Seq<Seq<nodedb_types::Value>>,
    evaluated: Seq<Seq<nodedb_types::Value>>,
)
    requires
        distinct_keys(live, mode.stored_key),
    ensures
        distinct_keys(
            writes::insert_rows(mode, live, incoming, evaluated).live,
            mode.stored_key,
        ),
    decreases incoming.len(),
{
    if incoming.len() > 0 {
        keys_stay_distinct(mode, live, incoming.drop_last(), evaluated);
        let p = writes::insert_rows(mode, live, incoming.drop_last(), evaluated);
        let row = incoming.last();
        let yields = evaluated[incoming.len() - 1];
        let q = writes::insert_row(mode, p, row, yields);
        lemma_with_row_distinct(p.live, mode.stored_key, row);
        if mode.intent == ColumnarInsertIntent::Put && p.refused is None {
            let out = q.written.last();
            if mode.key < out.len() {
                lemma_without_distinct(p.live, mode.stored_key, out[mode.key as int]);
                lemma_with_row_distinct(
                    writes::without(p.live, mode.stored_key, out[mode.key as int]),
                    mode.stored_key,
                    out,
                );
            } else {
                lemma_with_row_distinct(p.live, mode.stored_key, out);
            }
        }
    }
}

/// A unique insert of a key that is already there is refused, and a refused
/// row is not written: every row that was there survives.
pub proof fn duplicate_is_refused(
    mode: InsertMode,
    p: Progress,
    row: Seq<nodedb_types::Value>,
    evaluated: Seq<nodedb_types::Value>,
)
    requires
        mode.intent == ColumnarInsertIntent::InsertUnique,
        p.refused is None,
    ensures
        writes::insert_row(mode, p, row, evaluated).refused == (match writes::conflicting(
            mode,
            p.live,
            row,
        ) {
            Some(_) => Some(Refusal::Duplicate(row[mode.key as int])),
            None => None,
        }),
        writes::conflicting(mode, p.live, row) is Some ==> writes::insert_row(
            mode,
            p,
            row,
            evaluated,
        ).live == p.live && writes::insert_row(mode, p, row, evaluated).written == p.written,
{
}

/// An insert of absent keys alone leaves a key that is already there as it is,
/// and goes on.
pub proof fn known_key_is_passed_over(
    mode: InsertMode,
    p: Progress,
    row: Seq<nodedb_types::Value>,
    evaluated: Seq<nodedb_types::Value>,
)
    requires
        mode.intent == ColumnarInsertIntent::InsertIfAbsent,
        p.refused is None,
        writes::conflicting(mode, p.live, row) is Some,
    ensures
        writes::insert_row(mode, p, row, evaluated) == p,
{
}

proof fn lemma_find_last(
    live: Seq<Seq<nodedb_types::Value>>,
    at: nat,
    key: nodedb_types::Value,
    i: int,
)
    requires
        0 <= i < live.len(),
        writes::has_key(live.last(), at, key),
        forall|j: int|
            i <= j < live.len() - 1 ==> !writes::has_key(#[trigger] live[j], at, key),
    ensures
        writes::find_from(live, at, key, i) == Some(live.last()),
    decreases live.len() - i,
{
    if i < live.len() - 1 {
        assert(!writes::has_key(live[i], at, key));
        lemma_find_last(live, at, key, i + 1);
    }
}

/// A written row is the one that its key finds, for a key that equals itself.
pub proof fn written_row_is_found(
    live: Seq<Seq<nodedb_types::Value>>,
    at: nat,
    row: Seq<nodedb_types::Value>,
)
    requires
        at < row.len(),
        native::same_value(row[at as int], row[at as int]),
    ensures
        writes::find(writes::with_row(live, at, row), at, row[at as int]) == Some(row),
{
    let after = writes::with_row(live, at, row);
    lemma_without(live, at, row[at as int]);
    assert forall|j: int| 0 <= j < after.len() - 1 implies !writes::has_key(
        #[trigger] after[j],
        at,
        row[at as int],
    ) by {
        assert(after[j] == writes::without(live, at, row[at as int])[j]);
    }
    lemma_find_last(after, at, row[at as int], 0);
}

proof fn lemma_find_some(
    live: Seq<Seq<nodedb_types::Value>>,
    at: nat,
    key: nodedb_types::Value,
    from: int,
    i: int,
)
    requires
        0 <= from <= i < live.len(),
        writes::has_key(live[i], at, key),
    ensures
        writes::find_from(live, at, key, from) is Some,
        writes::has_key(writes::find_from(live, at, key, from)->Some_0, at, key),
    decreases i - from,
{
    if from < i && !writes::has_key(live[from], at, key) {
        lemma_find_some(live, at, key, from + 1, i);
    }
}

/// A duplicate is found: an incoming row whose key is plain is in conflict just
/// where a live row has that very key, and the row in conflict has it.
pub proof fn duplicate_key_is_found(
    mode: InsertMode,
    live: Seq<Seq<nodedb_types::Value>>,
    row: Seq<nodedb_types::Value>,
)
    requires
        mode.key < row.len(),
        wire::plain(row[mode.key as int]),
    ensures
        writes::conflicting(mode, live, row) is Some <==> exists|i: int|
            0 <= i < live.len() && mode.stored_key < (#[trigger] live[i]).len()
                && live[i][mode.stored_key as int] == row[mode.key as int],
        writes::conflicting(mode, live, row) matches Some(known) ==> mode.stored_key < known.len()
            && known[mode.stored_key as int] == row[mode.key as int],
{
    let key = row[mode.key as int];
    let at = mode.stored_key;
    if exists|i: int|
        0 <= i < live.len() && at < (#[trigger] live[i]).len() && live[i][at as int] == key {
        let i = choose|i: int|
            0 <= i < live.len() && at < (#[trigger] live[i]).len() && live[i][at as int] == key;
        lemma_find_some(live, at, key, 0, i);
    }
    lemma_found(live, at, key, 0);
}

proof fn lemma_found(
    live: Seq<Seq<nodedb_types::Value>>,
    at: nat,
    key: nodedb_types::Value,
    from: int,
)
    requires
        0 <= from,
    ensures
        writes::find_from(live, at, key, from) matches Some(known) ==> writes::has_key(
            known,
            at,
            key,
        ) && exists|i: int| 0 <= i < live.len() && #[trigger] live[i] == known,
    decreases live.len() - from,
{
    if from < live.len() && !writes::has_key(live[from], at, key) {
        lemma_found(live, at, key, from + 1);
    }
}

proof fn lemma_literals_merge(
    existing: Seq<nodedb_types::Value>,
    incoming: Map<Seq<char>, nodedb_types::Value>,
    updates: Seq<(String, UpdateValue)>,
    columns: Seq<Seq<char>>,
    a: Seq<nodedb_types::Value>,
    b: Seq<nodedb_types::Value>,
)
    requires
        fields::all_literal(updates),
    ensures
        writes::merged(existing, incoming, updates, columns, a) == writes::merged(
            existing,
            incoming,
            updates,
            columns,
            b,
        ),
    decreases updates.len(),
{
    if updates.len() > 0 {
        assert(updates[updates.len() - 1].1 is Literal);
        assert forall|i: int| 0 <= i < updates.drop_last().len() implies (
        #[trigger] updates.drop_last()[i]).1 is Literal by {
            assert(updates[i].1 is Literal);
        }
        lemma_literals_merge(existing, incoming, updates.drop_last(), columns, a, b);
    }
}

/// Where every update is a literal, an insert does not depend on what
/// expressions yield: its outcome is fixed.
pub proof fn literal_updates_decide(
    mode: InsertMode,
    live: Seq<Seq<nodedb_types::Value>>,
    incoming: Seq<Seq<nodedb_types::Value>>,
    a: Seq<Seq<nodedb_types::Value>>,
    b: Seq<Seq<nodedb_types::Value>>,
)
    requires
        fields::all_literal(mode.updates),
    ensures
        writes::insert_rows(mode, live, incoming, a) == writes::insert_rows(
            mode,
            live,
            incoming,
            b,
        ),
    decreases incoming.len(),
{
    if incoming.len() > 0 {
        literal_updates_decide(mode, live, incoming.drop_last(), a, b);
        let p = writes::insert_rows(mode, live, incoming.drop_last(), a);
        let row = incoming.last();
        if let Some(existing) = writes::conflicting(mode, p.live, row) {
            lemma_literals_merge(
                existing,
                crate::columnar::rows::row_fields(mode.columns, row),
                mode.updates,
                mode.columns,
                a[incoming.len() - 1],
                b[incoming.len() - 1],
            );
        }
    }
}

/// Whether every expression of the updates is steady.
pub open spec fn all_steady(updates: Seq<(String, UpdateValue)>) -> bool {
    forall|i: int|
        0 <= i < updates.len() ==> match (#[trigger] updates[i]).1 {
            UpdateValue::Literal(_) => true,
            UpdateValue::Expr(expr) => expression::steady(expr),
        }
}

proof fn lemma_steady_merge(
    existing: Seq<nodedb_types::Value>,
    incoming: Map<Seq<char>, nodedb_types::Value>,
    updates: Seq<(String, UpdateValue)>,
    n: int,
    columns: Seq<Seq<char>>,
    doc: nodedb_types::Value,
    a: Seq<nodedb_types::Value>,
    b: Seq<nodedb_types::Value>,
)
    requires
        0 <= n <= updates.len(),
        all_steady(updates),
        writes::yielded(updates, doc, a),
        writes::yielded(updates, doc, b),
    ensures
        writes::merged(existing, incoming, updates.take(n), columns, a) == writes::merged(
            existing,
            incoming,
            updates.take(n),
            columns,
            b,
        ),
    decreases n,
{
    if n > 0 {
        lemma_steady_merge(existing, incoming, updates, n - 1, columns, doc, a, b);
        assert(updates.take(n).drop_last() =~= updates.take(n - 1));
        assert(updates.take(n).last() == updates[n - 1]);
    }
}

/// Where every expression of the updates is steady, an insert depends on the
/// stored and the incoming rows alone: its outcome is fixed.
pub proof fn steady_updates_decide(
    mode: InsertMode,
    live: Seq<Seq<nodedb_types::Value>>,
    incoming: Seq<Seq<nodedb_types::Value>>,
    a: Seq<Seq<nodedb_types::Value>>,
    b: Seq<Seq<nodedb_types::Value>>,
)
    requires
        all_steady(mode.updates),
        writes::rows_yield(mode, live, incoming, a),
        writes::rows_yield(mode, live, incoming, b),
    ensures
        writes::insert_rows(mode, live, incoming, a) == writes::insert_rows(
            mode,
            live,
            incoming,
            b,
        ),
    decreases incoming.len(),
{
    if incoming.len() > 0 {
        steady_updates_decide(mode, live, incoming.drop_last(), a, b);
        let p = writes::insert_rows(mode, live, incoming.drop_last(), a);
        let row = incoming.last();
        let n = mode.updates.len() as int;
        assert(mode.updates.take(n) =~= mode.updates);
        if let Some(existing) = writes::conflicting(mode, p.live, row) {
            if mode.intent == ColumnarInsertIntent::Put && n > 0 && p.refused is None
                && writes::answered(mode.updates, writes::row_object(mode.columns, existing)) {
                lemma_steady_merge(
                    existing,
                    crate::columnar::rows::row_fields(mode.columns, row),
                    mode.updates,
                    n,
                    mode.columns,
                    writes::row_object(mode.columns, existing),
                    a[incoming.len() - 1],
                    b[incoming.len() - 1],
                );
            }
        }
    }
}

} // verus!
