//! Updates and deletes of the columnar rows that match a predicate.
use crate::columnar::rows;
use crate::columnar::writes;
use crate::columnar::writes::{Table, TableView};
use crate::error::{ErrorView, LiteError};
use crate::filter;
use crate::kv::fields;
use crate::native;
use crate::result;
use crate::result::{QueryResult, ResultView};
use crate::text;
use crate::value::{names_view, Datum};
use crate::wire;
use vstd::prelude::*;

verus! {

/// The key of a row, null where the row has none.
pub open spec fn key_of(row: Seq<nodedb_types::Value>, at: nat) -> nodedb_types::Value {
    if at < row.len() {
        row[at as int]
    } else {
        native::null()
    }
}

/// A row after encoded assignments, made in order. A value that cannot be
/// decoded is null.
pub open spec fn reassigned(
    row: Seq<nodedb_types::Value>,
    columns: Seq<Seq<char>>,
    updates: Seq<(Seq<char>, Seq<u8>)>,
) -> Seq<nodedb_types::Value>
    decreases updates.len(),
{
    if updates.len() == 0 {
        row
    } else {
        rows::with_column(
            reassigned(row, columns, updates.drop_last()),
            columns,
            updates.last().0,
            match wire::decoded_native(updates.last().1) {
                Ok(v) => v,
                Err(_) => native::null(),
            },
        )
    }
}

/// The keys and new contents of the rows that match.
pub open spec fn changes(
    live: Seq<Seq<nodedb_types::Value>>,
    verdicts: Seq<bool>,
    at: nat,
    columns: Seq<Seq<char>>,
    updates: Seq<(Seq<char>, Seq<u8>)>,
) -> Seq<(nodedb_types::Value, Seq<nodedb_types::Value>)>
    decreases live.len(),
{
    if live.len() == 0 {
        Seq::empty()
    } else {
        let before = changes(live.drop_last(), verdicts, at, columns, updates);
        if verdicts[live.len() - 1] {
            before.push((key_of(live.last(), at), reassigned(live.last(), columns, updates)))
        } else {
            before
        }
    }
}

/// The keys of the rows that match.
pub open spec fn matching_keys(
    live: Seq<Seq<nodedb_types::Value>>,
    verdicts: Seq<bool>,
    at: nat,
) -> Seq<nodedb_types::Value>
    decreases live.len(),
{
    if live.len() == 0 {
        Seq::empty()
    } else if verdicts[live.len() - 1] {
        matching_keys(live.drop_last(), verdicts, at).push(key_of(live.last(), at))
    } else {
        matching_keys(live.drop_last(), verdicts, at)
    }
}

/// The rows after several keys are removed, one after the other.
pub open spec fn without_keys(
    live: Seq<Seq<nodedb_types::Value>>,
    at: nat,
    keys: Seq<nodedb_types::Value>,
) -> Seq<Seq<nodedb_types::Value>>
    decreases keys.len(),
{
    if keys.len() == 0 {
        live
    } else {
        writes::without(without_keys(live, at, keys.drop_last()), at, keys.last())
    }
}

/// How many of the keys, removed one after the other, were there.
pub open spec fn removals(
    live: Seq<Seq<nodedb_types::Value>>,
    at: nat,
    keys: Seq<nodedb_types::Value>,
) -> nat
    decreases keys.len(),
{
    if keys.len() == 0 {
        0
    } else {
        let found = writes::find(without_keys(live, at, keys.drop_last()), at, keys.last()) is Some;
        removals(live, at, keys.drop_last()) + if found {
            1nat
        } else {
            0nat
        }
    }
}

/// Whether verdicts can be those of an encoded list of predicates on rows.
pub open spec fn judged(
    filters: Seq<u8>,
    columns: Seq<Seq<char>>,
    live: Seq<Seq<nodedb_types::Value>>,
    verdicts: Seq<bool>,
) -> bool {
    &&& verdicts.len() == live.len()
    &&& forall|i: int|
        0 <= i < live.len() ==> filter::can_judge(
            filters,
            native::native_object(rows::row_fields(columns, live[i])),
            #[trigger] verdicts[i],
        )
}

/// Whether every row answers an encoded list of predicates.
pub open spec fn askable(
    filters: Seq<u8>,
    columns: Seq<Seq<char>>,
    live: Seq<Seq<nodedb_types::Value>>,
) -> bool {
    forall|i: int|
        0 <= i < live.len() ==> filter::can_ask(
            filters,
            native::native_object(rows::row_fields(columns, #[trigger] live[i])),
        )
}

/// What the changes are.
pub open spec fn changes_view(
    changes: Seq<(nodedb_types::Value, Vec<nodedb_types::Value>)>,
) -> Seq<(nodedb_types::Value, Seq<nodedb_types::Value>)> {
    changes.map_values(|c: (nodedb_types::Value, Vec<nodedb_types::Value>)| (c.0, c.1@))
}

/// Applies encoded assignments to a row.
fn reassign(row: &mut Vec<nodedb_types::Value>, columns: &[String], updates: &[(String, Vec<u8>)])
    ensures
        final(row)@ == reassigned(
            old(row)@,
            names_view(columns@),
            fields::assignments(updates@),
        ),
{
    let ghost all = fields::assignments(updates@);
    let ghost names = names_view(columns@);
    let mut i: usize = 0;
    while i < updates.len()
        invariant
            i <= updates@.len(),
            all == fields::assignments(updates@),
            names == names_view(columns@),
            row@ == reassigned(old(row)@, names, all.take(i as int)),
        decreases updates@.len() - i,
    {
        proof {
            assert(all[i as int] == (updates@[i as int].0@, updates@[i as int].1@));
            assert(all.take(i as int + 1).drop_last() =~= all.take(i as int));
        }
        let value = match wire::decode_native(updates[i].1.as_slice()) {
            Ok(v) => v,
            Err(_) => native::native(Datum::Null),
        };
        rows::set_column(row, columns, updates[i].0.as_str(), value);
        i = i + 1;
    }
    proof {
        assert(all.take(i as int) =~= all);
    }
}

/// The key of a row.
fn row_key(row: &Vec<nodedb_types::Value>, at: usize) -> (r: nodedb_types::Value)
    ensures
        r == key_of(row@, at as nat),
{
    if at < row.len() {
        native::copy_native(&row[at])
    } else {
        native::native(Datum::Null)
    }
}

/// The keys and new contents of the rows that match, given which do.
pub fn plan_update(table: &Table, updates: &[(String, Vec<u8>)], verdicts: &[bool]) -> (r: Vec<
    (nodedb_types::Value, Vec<nodedb_types::Value>),
>)
    requires
        verdicts@.len() == table@.rows.len(),
    ensures
        changes_view(r@) == changes(
            table@.rows,
            verdicts@,
            writes::key_column(table@.columns),
            writes::column_names(table@.columns),
            fields::assignments(updates@),
        ),
{
    let names = writes::names_of(&table.columns);
    let at = writes::key_position(&table.columns);
    let ghost columns = writes::column_names(table@.columns);
    let ghost sets = fields::assignments(updates@);
    let ghost live = table@.rows;
    let mut out: Vec<(nodedb_types::Value, Vec<nodedb_types::Value>)> = Vec::new();
    let mut i: usize = 0;
    proof {
        assert(changes_view(out@) =~= changes(
            live.take(0),
            verdicts@,
            at as nat,
            columns,
            sets,
        ));
    }
    while i < table.rows.len()
        invariant
            i <= table.rows@.len(),
            verdicts@.len() == table.rows@.len(),
            live == rows::table_view(table.rows@),
            names_view(names@) == columns,
            sets == fields::assignments(updates@),
            changes_view(out@) == changes(
                live.take(i as int),
                verdicts@,
                at as nat,
                columns,
                sets,
            ),
        decreases table.rows@.len() - i,
    {
        proof {
            assert(live.take(i as int + 1).drop_last() =~= live.take(i as int));
        }
        if verdicts[i] {
            let ghost before = changes_view(out@);
            let key = row_key(&table.rows[i], at);
            let mut row = native::copy_natives(table.rows[i].as_slice());
            reassign(&mut row, names.as_slice(), updates);
            out.push((key, row));
            proof {
                assert(changes_view(out@) =~= before.push((key, row@)));
            }
        }
        i = i + 1;
    }
    proof {
        assert(live.take(i as int) =~= live);
    }
    out
}

/// Removes the rows that match, given which do, and counts the keys that were
/// there.
pub fn delete_matching(table: &mut Table, verdicts: &[bool]) -> (r: u64)
    requires
        verdicts@.len() == old(table)@.rows.len(),
    ensures
        final(table)@.columns == old(table)@.columns,
        final(table)@.rows == without_keys(
            old(table)@.rows,
            writes::key_column(old(table)@.columns),
            matching_keys(
                old(table)@.rows,
                verdicts@,
                writes::key_column(old(table)@.columns),
            ),
        ),
        r == removals(
            old(table)@.rows,
            writes::key_column(old(table)@.columns),
            matching_keys(
                old(table)@.rows,
                verdicts@,
                writes::key_column(old(table)@.columns),
            ),
        ),
{
    let at = writes::key_position(&table.columns);
    let ghost start = table@;
    let ghost live = table@.rows;
    let mut keys: Vec<nodedb_types::Value> = Vec::new();
    let mut i: usize = 0;
    proof {
        assert(keys@ =~= matching_keys(live.take(0), verdicts@, at as nat));
    }
    while i < table.rows.len()
        invariant
            i <= table.rows@.len(),
            table@ == start,
            start == old(table)@,
            live == start.rows,
            verdicts@.len() == table.rows@.len(),
            keys@.len() <= i,
            keys@ == matching_keys(live.take(i as int), verdicts@, at as nat),
        decreases table.rows@.len() - i,
    {
        proof {
            assert(live.take(i as int + 1).drop_last() =~= live.take(i as int));
        }
        if verdicts[i] {
            keys.push(row_key(&table.rows[i], at));
        }
        i = i + 1;
    }
    proof {
        assert(live.take(i as int) =~= live);
    }
    let ghost all = keys@;
    let mut affected: u64 = 0;
    let mut k: usize = 0;
    while k < keys.len()
        invariant
            k <= keys@.len(),
            all == keys@,
            affected <= k,
            start == old(table)@,
            live == start.rows,
            table@.columns == start.columns,
            table@.rows == without_keys(live, at as nat, all.take(k as int)),
            affected == removals(live, at as nat, all.take(k as int)),
        decreases keys@.len() - k,
    {
        proof {
            assert(all.take(k as int + 1).drop_last() =~= all.take(k as int));
        }
        if table.remove_key(at, &keys[k]) {
            affected = affected + 1;
        }
        k = k + 1;
    }
    proof {
        assert(all.take(k as int) =~= all);
    }
    affected
}

/// Whether every row of a table answers predicates that were read from `bytes`.
fn can_ask(
    table: &Table,
    filters: &Vec<nodedb_query::scan_filter::ScanFilter>,
    bytes: &[u8],
) -> (r: bool)
    requires
        filters@ == filter::filters_in(bytes@),
    ensures
        r == askable(bytes@, writes::column_names(table@.columns), table@.rows),
{
    let ghost columns = writes::column_names(table@.columns);
    let names = writes::names_of(&table.columns);
    let mut i: usize = 0;
    while i < table.rows.len()
        invariant
            i <= table.rows@.len(),
            columns == writes::column_names(table@.columns),
            names_view(names@) == columns,
            filters@ == filter::filters_in(bytes@),
            forall|j: int|
                0 <= j < i ==> filter::can_ask(
                    bytes@,
                    native::native_object(rows::row_fields(columns, #[trigger] table@.rows[j])),
                ),
        decreases table.rows@.len() - i,
    {
        let doc = rows::row_to_object(names.as_slice(), table.rows[i].as_slice());
        if !filter::can_answer_all(filters, &doc) {
            assert(!filter::can_ask(
                bytes@,
                native::native_object(rows::row_fields(columns, table@.rows[i as int])),
            ));
            return false;
        }
        i = i + 1;
    }
    true
}

/// Judges every row of a table by predicates that were read from `bytes`.
fn judge(
    table: &Table,
    filters: &Vec<nodedb_query::scan_filter::ScanFilter>,
    bytes: &[u8],
) -> (r: Vec<bool>)
    requires
        filters@ == filter::filters_in(bytes@),
        askable(bytes@, writes::column_names(table@.columns), table@.rows),
    ensures
        judged(bytes@, writes::column_names(table@.columns), table@.rows, r@),
{
    let names = writes::names_of(&table.columns);
    let mut out: Vec<bool> = Vec::new();
    let mut i: usize = 0;
    while i < table.rows.len()
        invariant
            i <= table.rows@.len(),
            out@.len() == i,
            names_view(names@) == writes::column_names(table@.columns),
            filters@ == filter::filters_in(bytes@),
            askable(bytes@, writes::column_names(table@.columns), table@.rows),
            forall|j: int|
                0 <= j < i ==> filter::can_judge(
                    bytes@,
                    native::native_object(
                        rows::row_fields(writes::column_names(table@.columns), table@.rows[j]),
                    ),
                    #[trigger] out@[j],
                ),
        decreases table.rows@.len() - i,
    {
        let doc = rows::row_to_object(names.as_slice(), table.rows[i].as_slice());
        proof {
            let columns = writes::column_names(table@.columns);
            assert(filter::can_ask(
                bytes@,
                native::native_object(rows::row_fields(columns, table@.rows[i as int])),
            ));
        }
        out.push(filter::judge(filters, &doc));
        i = i + 1;
    }
    out
}

/// Whether this is the answer to an update, given which rows match.
pub open spec fn update_answer(
    table: TableView,
    updates: Seq<(Seq<char>, Seq<u8>)>,
    verdicts: Seq<bool>,
    answer: (ResultView, Seq<(nodedb_types::Value, Seq<nodedb_types::Value>)>),
) -> bool {
    let all = changes(
        table.rows,
        verdicts,
        writes::key_column(table.columns),
        writes::column_names(table.columns),
        updates,
    );
    answer == (result::tagged_view(all.len() as u64, "UPDATE"@), all)
}

/// Whether this can be the answer to an update.
pub open spec fn update_done(
    table: TableView,
    filters: Seq<u8>,
    updates: Seq<(Seq<char>, Seq<u8>)>,
    answer: (ResultView, Seq<(nodedb_types::Value, Seq<nodedb_types::Value>)>),
) -> bool {
    exists|verdicts: Seq<bool>|
        judged(
            filters,
            writes::column_names(table.columns),
            table.rows,
            verdicts,
        ) && #[trigger] update_answer(
            table,
            updates,
            verdicts,
            answer,
        )
}

/// What the answer to an update says.
pub open spec fn update_view(
    r: Result<(QueryResult, Vec<(nodedb_types::Value, Vec<nodedb_types::Value>)>), LiteError>,
) -> Result<(ResultView, Seq<(nodedb_types::Value, Seq<nodedb_types::Value>)>), ErrorView> {
    match r {
        Ok((q, planned)) => Ok((q@, changes_view(planned@))),
        Err(e) => Err(e@),
    }
}

/// Whether this can be the answer to an update. A collection that is not there,
/// predicates that cannot be read and a row that does not answer them are
/// refused.
pub open spec fn update_answered(
    collection: Seq<char>,
    table: Option<TableView>,
    filters: Seq<u8>,
    updates: Seq<(Seq<char>, Seq<u8>)>,
    r: Result<(ResultView, Seq<(nodedb_types::Value, Seq<nodedb_types::Value>)>), ErrorView>,
) -> bool {
    match table {
        None => r is Err && r->Err_0 == ErrorView::BadRequest(
            writes::missing_collection(collection),
        ),
        Some(t) => if filters.len() > 0 && filter::decoded_filters(filters) is Err {
            r is Err && r->Err_0 == ErrorView::Serialization(
                "decode update filters: "@ + filter::decoded_filters(filters)->Err_0,
            )
        } else if !askable(filters, writes::column_names(t.columns), t.rows) {
            r is Err && r->Err_0 == ErrorView::BadRequest(filter::unanswered())
        } else {
            r is Ok && update_done(t, filters, updates, r->Ok_0)
        },
    }
}

/// Plans an update of the rows that match: the keys and new contents of the
/// rows to replace. Without predicates every row matches.
pub fn update(
    collection: &str,
    table: Option<&Table>,
    filters: &[u8],
    updates: &[(String, Vec<u8>)],
) -> (r: Result<
    (QueryResult, Vec<(nodedb_types::Value, Vec<nodedb_types::Value>)>),
    LiteError,
>)
    ensures
        update_answered(
            collection@,
            writes::known_view(table),
            filters@,
            fields::assignments(updates@),
            update_view(r),
        ),
{
    let table = match table {
        Some(t) => t,
        None => return Err(
            LiteError::BadRequest {
                detail: text::concat3("columnar collection '", collection, "' does not exist"),
            },
        ),
    };
    let predicates = match filter::read_filters(filters, "decode update filters: ") {
        Ok(f) => f,
        Err(e) => return Err(e),
    };
    if !can_ask(table, &predicates, filters) {
        return Err(filter::no_answer());
    }
    let verdicts = judge(table, &predicates, filters);
    let planned = plan_update(table, updates, verdicts.as_slice());
    let answer = QueryResult::tagged(planned.len() as u64, "UPDATE");
    proof {
        assert(judged(
            filters@,
            writes::column_names(table@.columns),
            table@.rows,
            verdicts@,
        ));
        assert(changes_view(planned@).len() == planned@.len());
        assert(update_answer(
            table@,
            fields::assignments(updates@),
            verdicts@,
            (answer@, changes_view(planned@)),
        ));
        assert(update_done(
            table@,
            filters@,
            fields::assignments(updates@),
            (answer@, changes_view(planned@)),
        ));
    }
    Ok((answer, planned))
}

/// Whether these are the table and the answer after a delete, given which rows
/// match.
pub open spec fn delete_answer(
    table: TableView,
    verdicts: Seq<bool>,
    after: TableView,
    answer: ResultView,
) -> bool {
    let at = writes::key_column(table.columns);
    let keys = matching_keys(table.rows, verdicts, at);
    &&& after.columns == table.columns
    &&& after.rows == without_keys(table.rows, at, keys)
    &&& answer == result::tagged_view(removals(table.rows, at, keys) as u64, "DELETE"@)
}

/// Whether these can be the table and the answer after a delete.
pub open spec fn delete_done(
    table: TableView,
    filters: Seq<u8>,
    after: TableView,
    answer: ResultView,
) -> bool {
    exists|verdicts: Seq<bool>|
        judged(
            filters,
            writes::column_names(table.columns),
            table.rows,
            verdicts,
        ) && #[trigger] delete_answer(
            table,
            verdicts,
            after,
            answer,
        )
}

/// What the answer to a delete says.
pub open spec fn delete_view(r: Result<QueryResult, LiteError>) -> Result<ResultView, ErrorView> {
    match r {
        Ok(q) => Ok(q@),
        Err(e) => Err(e@),
    }
}

/// Whether these can be the table and the answer after a delete. A collection
/// that is not there, predicates that cannot be read and a row that does not
/// answer them are refused, and nothing changes.
pub open spec fn delete_answered(
    collection: Seq<char>,
    before: Option<TableView>,
    filters: Seq<u8>,
    after: Option<TableView>,
    r: Result<ResultView, ErrorView>,
) -> bool {
    match before {
        None => after is None && r is Err && r->Err_0 == ErrorView::BadRequest(
            writes::missing_collection(collection),
        ),
        Some(t) => if filters.len() > 0 && filter::decoded_filters(filters) is Err {
            after == before && r is Err && r->Err_0 == ErrorView::Serialization(
                "decode delete filters: "@ + filter::decoded_filters(filters)->Err_0,
            )
        } else if !askable(filters, writes::column_names(t.columns), t.rows) {
            after == before && r is Err && r->Err_0 == ErrorView::BadRequest(filter::unanswered())
        } else {
            after is Some && r is Ok && delete_done(t, filters, after->Some_0, r->Ok_0)
        },
    }
}

/// Deletes the rows that match. Without predicates every row matches.
pub fn delete(collection: &str, stored: Option<Table>, filters: &[u8]) -> (r: (
    Option<Table>,
    Result<QueryResult, LiteError>,
))
    ensures
        delete_answered(
            collection@,
            writes::stored_view(stored),
            filters@,
            writes::stored_view(r.0),
            delete_view(r.1),
        ),
{
    let mut table = match stored {
        Some(t) => t,
        None => return (
            None,
            Err(
                LiteError::BadRequest {
                    detail: text::concat3("columnar collection '", collection, "' does not exist"),
                },
            ),
        ),
    };
    let predicates = match filter::read_filters(filters, "decode delete filters: ") {
        Ok(f) => f,
        Err(e) => return (Some(table), Err(e)),
    };
    if !can_ask(&table, &predicates, filters) {
        return (Some(table), Err(filter::no_answer()));
    }
    let verdicts = judge(&table, &predicates, filters);
    let ghost start = table@;
    let n = delete_matching(&mut table, verdicts.as_slice());
    let answer = QueryResult::tagged(n, "DELETE");
    proof {
        assert(judged(
            filters@,
            writes::column_names(start.columns),
            start.rows,
            verdicts@,
        ));
        assert(delete_answer(start, verdicts@, table@, answer@));
        assert(delete_done(start, filters@, table@, answer@));
    }
    (Some(table), Ok(answer))
}

proof fn lemma_same_verdicts(
    filters: Seq<u8>,
    columns: Seq<Seq<char>>,
    live: Seq<Seq<nodedb_types::Value>>,
    a: Seq<bool>,
    b: Seq<bool>,
)
    requires
        filter::settled(filters),
        judged(filters, columns, live, a),
        judged(filters, columns, live, b),
    ensures
        a == b,
{
    assert forall|i: int| 0 <= i < live.len() implies a[i] == b[i] by {
        let doc = native::native_object(rows::row_fields(columns, live[i]));
        assert(filter::can_judge(filters, doc, a[i]));
        assert(filter::can_judge(filters, doc, b[i]));
    }
    assert(a =~= b);
}

/// Predicates whose verdicts are settled determine an update.
pub proof fn settled_filters_determine_an_update(
    table: TableView,
    filters: Seq<u8>,
    updates: Seq<(Seq<char>, Seq<u8>)>,
    first: (ResultView, Seq<(nodedb_types::Value, Seq<nodedb_types::Value>)>),
    second: (ResultView, Seq<(nodedb_types::Value, Seq<nodedb_types::Value>)>),
)
    requires
        filter::settled(filters),
        update_done(table, filters, updates, first),
        update_done(table, filters, updates, second),
    ensures
        first == second,
{
    let columns = writes::column_names(table.columns);
    let a = choose|verdicts: Seq<bool>|
        judged(filters, columns, table.rows, verdicts) && #[trigger] update_answer(
            table,
            updates,
            verdicts,
            first,
        );
    let b = choose|verdicts: Seq<bool>|
        judged(filters, columns, table.rows, verdicts) && #[trigger] update_answer(
            table,
            updates,
            verdicts,
            second,
        );
    lemma_same_verdicts(filters, columns, table.rows, a, b);
}

/// Predicates whose verdicts are settled determine a delete.
pub proof fn settled_filters_determine_a_delete(
    table: TableView,
    filters: Seq<u8>,
    first: (TableView, ResultView),
    second: (TableView, ResultView),
)
    requires
        filter::settled(filters),
        delete_done(table, filters, first.0, first.1),
        delete_done(table, filters, second.0, second.1),
    ensures
        first == second,
{
    let columns = writes::column_names(table.columns);
    let a = choose|verdicts: Seq<bool>|
        judged(filters, columns, table.rows, verdicts) && #[trigger] delete_answer(
            table,
            verdicts,
            first.0,
            first.1,
        );
    let b = choose|verdicts: Seq<bool>|
        judged(filters, columns, table.rows, verdicts) && #[trigger] delete_answer(
            table,
            verdicts,
            second.0,
            second.1,
        );
    lemma_same_verdicts(filters, columns, table.rows, a, b);
}

} // verus!
