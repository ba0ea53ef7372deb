//! Inserts, updates and deletes of columnar rows.
use crate::columnar::payload;
use crate::columnar::rows;
use crate::error;
use crate::error::{ErrorView, LiteError};
use crate::expression;
use crate::filter;
use crate::kv::fields::UpdateValue;
use crate::native;
use crate::result;
use crate::result::{QueryResult, ResultView};
use crate::text;
use crate::value::{names_view, Datum};
use crate::wire;
use vstd::prelude::*;

verus! {

/// A column of a columnar collection.
#[derive(Debug)]
pub struct ColumnSpec {
    /// The column's name.
    pub name: String,
    /// Whether the column is the primary key.
    pub primary_key: bool,
}

/// What the columns are.
pub open spec fn columns_view(columns: Seq<ColumnSpec>) -> Seq<(Seq<char>, bool)> {
    columns.map_values(|c: ColumnSpec| (c.name@, c.primary_key))
}

/// The names of the columns.
pub open spec fn column_names(columns: Seq<(Seq<char>, bool)>) -> Seq<Seq<char>> {
    columns.map_values(|c: (Seq<char>, bool)| c.0)
}

/// The first primary-key column at or after `i`, and column zero where there
/// is none.
pub open spec fn key_column_from(columns: Seq<(Seq<char>, bool)>, i: int) -> nat
    decreases columns.len() - i,
{
    if i < 0 || i >= columns.len() {
        0
    } else if columns[i].1 {
        i as nat
    } else {
        key_column_from(columns, i + 1)
    }
}

/// The position of the primary key.
pub open spec fn key_column(columns: Seq<(Seq<char>, bool)>) -> nat {
    key_column_from(columns, 0)
}

/// The columns that `zerompk::from_msgpack` reads from `bytes` as a columnar
/// schema.
pub uninterp spec fn decoded_schema(bytes: Seq<u8>) -> Option<Seq<(Seq<char>, bool)>>;

/// Calls `zerompk::from_msgpack` for a `ColumnarSchema` and keeps the name and
/// the key flag of each column. The result is the one named
/// [`decoded_schema`].
#[verifier::external_body]
pub(crate) fn decode_schema(bytes: &[u8]) -> (r: Option<Vec<ColumnSpec>>)
    ensures
        match r {
            Some(c) => decoded_schema(bytes@) == Some(
                c@.map_values(|c: ColumnSpec| (c.name@, c.primary_key)),
            ),
            None => decoded_schema(bytes@) is None,
        },
{
    let schema: nodedb_types::columnar::ColumnarSchema = zerompk::from_msgpack(bytes).ok()?;
    let column = |c: nodedb_types::columnar::ColumnDef| ColumnSpec {
        name: c.name,
        primary_key: c.primary_key,
    };
    Some(schema.columns.into_iter().map(column).collect())
}

/// A columnar collection: its columns and its live rows, oldest first.
#[derive(Debug)]
pub struct Table {
    /// The stored columns.
    pub columns: Vec<ColumnSpec>,
    /// The live rows.
    pub rows: Vec<Vec<nodedb_types::Value>>,
}

/// What a [`Table`] holds.
pub struct TableView {
    pub columns: Seq<(Seq<char>, bool)>,
    pub rows: Seq<Seq<nodedb_types::Value>>,
}

impl View for Table {
    type V = TableView;

    open spec fn view(&self) -> TableView {
        TableView { columns: columns_view(self.columns@), rows: rows::table_view(self.rows@) }
    }
}

/// What a collection holds, if it is there.
pub open spec fn stored_view(table: Option<Table>) -> Option<TableView> {
    match table {
        Some(t) => Some(t@),
        None => None,
    }
}

/// What a collection holds, if it is there.
pub open spec fn known_view(table: Option<&Table>) -> Option<TableView> {
    match table {
        Some(t) => Some(t@),
        None => None,
    }
}

/// Whether a row has this key.
pub open spec fn has_key(
    row: Seq<nodedb_types::Value>,
    at: nat,
    key: nodedb_types::Value,
) -> bool {
    at < row.len() && native::same_value(row[at as int], key)
}

/// The first row at or after `i` with this key.
pub open spec fn find_from(
    live: Seq<Seq<nodedb_types::Value>>,
    at: nat,
    key: nodedb_types::Value,
    i: int,
) -> Option<Seq<nodedb_types::Value>>
    decreases live.len() - i,
{
    if i < 0 || i >= live.len() {
        None
    } else if has_key(live[i], at, key) {
        Some(live[i])
    } else {
        find_from(live, at, key, i + 1)
    }
}

/// The first row with this key.
pub open spec fn find(
    live: Seq<Seq<nodedb_types::Value>>,
    at: nat,
    key: nodedb_types::Value,
) -> Option<Seq<nodedb_types::Value>> {
    find_from(live, at, key, 0)
}

/// The rows without those of this key.
pub open spec fn without(
    live: Seq<Seq<nodedb_types::Value>>,
    at: nat,
    key: nodedb_types::Value,
) -> Seq<Seq<nodedb_types::Value>>
    decreases live.len(),
{
    if live.len() == 0 {
        Seq::empty()
    } else if has_key(live.last(), at, key) {
        without(live.drop_last(), at, key)
    } else {
        without(live.drop_last(), at, key).push(live.last())
    }
}

/// The rows after a row is written: it takes the place of a row with its key.
pub open spec fn with_row(
    live: Seq<Seq<nodedb_types::Value>>,
    at: nat,
    row: Seq<nodedb_types::Value>,
) -> Seq<Seq<nodedb_types::Value>> {
    if at < row.len() {
        without(live, at, row[at as int]).push(row)
    } else {
        live.push(row)
    }
}

/// The position of the primary key.
pub(crate) fn key_position(columns: &Vec<ColumnSpec>) -> (r: usize)
    ensures
        r == key_column(columns_view(columns@)),
{
    let ghost view = columns_view(columns@);
    let mut i: usize = 0;
    while i < columns.len()
        invariant
            i <= columns@.len(),
            view == columns_view(columns@),
            key_column(view) == key_column_from(view, i as int),
        decreases columns@.len() - i,
    {
        if columns[i].primary_key {
            return i;
        }
        i = i + 1;
    }
    0
}

/// The names of the columns.
pub(crate) fn names_of(columns: &Vec<ColumnSpec>) -> (r: Vec<String>)
    ensures
        names_view(r@) == column_names(columns_view(columns@)),
{
    let mut out: Vec<String> = Vec::new();
    let ghost all = column_names(columns_view(columns@));
    let mut i: usize = 0;
    while i < columns.len()
        invariant
            i <= columns@.len(),
            all == column_names(columns_view(columns@)),
            names_view(out@) == all.take(i as int),
        decreases columns@.len() - i,
    {
        let ghost before = names_view(out@);
        let name = columns[i].name.as_str().to_owned();
        out.push(name);
        proof {
            assert(names_view(out@) =~= before.push(name@));
            assert(all.take(i as int + 1) =~= all.take(i as int).push(all[i as int]));
        }
        i = i + 1;
    }
    proof {
        assert(all.take(i as int) =~= all);
        assert(names_view(out@) =~= all);
    }
    out
}

/// Whether a row has this key.
fn row_has_key(row: &Vec<nodedb_types::Value>, at: usize, key: &nodedb_types::Value) -> (r: bool)
    ensures
        r == has_key(row@, at as nat, *key),
{
    at < row.len() && native::is_same(&row[at], key)
}

impl Table {
    /// The first live row with this key.
    pub fn find_row(&self, at: usize, key: &nodedb_types::Value) -> (r: Option<
        Vec<nodedb_types::Value>,
    >)
        ensures
            match r {
                Some(row) => find(self@.rows, at as nat, *key) == Some(row@),
                None => find(self@.rows, at as nat, *key) is None,
            },
    {
        let mut i: usize = 0;
        while i < self.rows.len()
            invariant
                i <= self.rows@.len(),
                find(self@.rows, at as nat, *key) == find_from(
                    self@.rows,
                    at as nat,
                    *key,
                    i as int,
                ),
            decreases self.rows@.len() - i,
        {
            if row_has_key(&self.rows[i], at, key) {
                return Some(native::copy_natives(self.rows[i].as_slice()));
            }
            i = i + 1;
        }
        None
    }

    /// Removes the rows with this key and reports whether there were any.
    pub fn remove_key(&mut self, at: usize, key: &nodedb_types::Value) -> (r: bool)
        ensures
            final(self).columns == old(self).columns,
            final(self)@.rows == without(old(self)@.rows, at as nat, *key),
            r == (find(old(self)@.rows, at as nat, *key) is Some),
    {
        let ghost before = self@.rows;
        let found: bool = self.find_row(at, key).is_some();
        let mut kept: Vec<Vec<nodedb_types::Value>> = Vec::new();
        let mut i: usize = 0;
        proof {
            assert(rows::table_view(kept@) =~= without(before.take(0), at as nat, *key));
        }
        while i < self.rows.len()
            invariant
                i <= self.rows@.len(),
                before == rows::table_view(self.rows@),
                self@.rows == before,
                rows::table_view(kept@) == without(before.take(i as int), at as nat, *key),
                self.columns == old(self).columns,
            decreases self.rows@.len() - i,
        {
            proof {
                assert(before.take(i as int + 1).drop_last() =~= before.take(i as int));
            }
            if !row_has_key(&self.rows[i], at, key) {
                let ghost sofar = rows::table_view(kept@);
                let row = native::copy_natives(self.rows[i].as_slice());
                kept.push(row);
                proof {
                    assert(rows::table_view(kept@) =~= sofar.push(row@));
                }
            }
            i = i + 1;
        }
        proof {
            assert(before.take(i as int) =~= before);
        }
        self.rows = kept;
        found
    }

    /// Writes a row in the place of one with its key.
    pub fn write_row(&mut self, at: usize, row: Vec<nodedb_types::Value>)
        ensures
            final(self).columns == old(self).columns,
            final(self)@.rows == with_row(old(self)@.rows, at as nat, row@),
    {
        if at < row.len() {
            let key = native::copy_native(&row[at]);
            self.remove_key(at, &key);
        }
        let ghost before = self@.rows;
        self.rows.push(row);
        proof {
            assert(self@.rows =~= before.push(row@));
        }
    }
}

/// The value that an update assigns to a field of a row in conflict, where
/// `evaluated` is what its expression yielded. An expression that yields null
/// falls back to the incoming value of the field.
pub open spec fn assigned(
    update: UpdateValue,
    name: Seq<char>,
    incoming: Map<Seq<char>, nodedb_types::Value>,
    evaluated: nodedb_types::Value,
) -> nodedb_types::Value {
    match update {
        UpdateValue::Literal(encoded) => match wire::decoded_native(encoded@) {
            Ok(v) => v,
            Err(_) => native::null(),
        },
        UpdateValue::Expr(_) => if evaluated == native::null() {
            native::field_or_null(incoming, name)
        } else {
            evaluated
        },
    }
}

/// A row in conflict after its updates, made in order.
pub open spec fn merged(
    existing: Seq<nodedb_types::Value>,
    incoming: Map<Seq<char>, nodedb_types::Value>,
    updates: Seq<(String, UpdateValue)>,
    columns: Seq<Seq<char>>,
    evaluated: Seq<nodedb_types::Value>,
) -> Seq<nodedb_types::Value>
    decreases updates.len(),
{
    if updates.len() == 0 {
        existing
    } else {
        rows::with_column(
            merged(existing, incoming, updates.drop_last(), columns, evaluated),
            columns,
            updates.last().0@,
            assigned(
                updates.last().1,
                updates.last().0@,
                incoming,
                evaluated[updates.len() - 1],
            ),
        )
    }
}

/// Applies the updates of a row in conflict, given what their expressions
/// yielded.
pub fn merge_updates(
    existing: Vec<nodedb_types::Value>,
    incoming: &Vec<(String, nodedb_types::Value)>,
    updates: &[(String, UpdateValue)],
    columns: &[String],
    evaluated: &[nodedb_types::Value],
) -> (r: Vec<nodedb_types::Value>)
    requires
        wire::distinct_names(incoming@),
        evaluated@.len() == updates@.len(),
    ensures
        r@ == merged(
            existing@,
            wire::fields_map(incoming@),
            updates@,
            names_view(columns@),
            evaluated@,
        ),
{
    let ghost fields = wire::fields_map(incoming@);
    let ghost names = names_view(columns@);
    let mut row = existing;
    let mut i: usize = 0;
    while i < updates.len()
        invariant
            i <= updates@.len(),
            evaluated@.len() == updates@.len(),
            wire::distinct_names(incoming@),
            fields == wire::fields_map(incoming@),
            names == names_view(columns@),
            row@ == merged(existing@, fields, updates@.take(i as int), names, evaluated@),
        decreases updates@.len() - i,
    {
        proof {
            assert(updates@.take(i as int + 1).drop_last() =~= updates@.take(i as int));
        }
        let value = match &updates[i].1 {
            UpdateValue::Literal(encoded) => match wire::decode_native(encoded.as_slice()) {
                Ok(v) => v,
                Err(_) => native::native(Datum::Null),
            },
            UpdateValue::Expr(_) => if native::is_null(&evaluated[i]) {
                native::field_or_null_of(incoming, updates[i].0.as_str())
            } else {
                native::copy_native(&evaluated[i])
            },
        };
        rows::set_column(&mut row, columns, updates[i].0.as_str(), value);
        i = i + 1;
    }
    proof {
        assert(updates@.take(i as int) =~= updates@);
    }
    row
}

/// Whether these can be the values of the expressions of the updates for a row:
/// those that are named, of the expressions that are steady.
pub open spec fn yielded(
    updates: Seq<(String, UpdateValue)>,
    doc: nodedb_types::Value,
    evaluated: Seq<nodedb_types::Value>,
) -> bool {
    evaluated.len() == updates.len() && forall|i: int|
        0 <= i < updates.len() ==> match (#[trigger] updates[i]).1 {
            UpdateValue::Literal(_) => true,
            UpdateValue::Expr(expr) => expression::steady(expr) ==> evaluated[i] == expression::expr_value(
                expr,
                doc,
            ),
        }
}

/// Whether the expressions of the updates answer for a row.
pub open spec fn answered(updates: Seq<(String, UpdateValue)>, doc: nodedb_types::Value) -> bool {
    forall|i: int|
        0 <= i < updates.len() ==> match (#[trigger] updates[i]).1 {
            UpdateValue::Literal(_) => true,
            UpdateValue::Expr(expr) => expression::answers(expression::expr_tree(expr), doc),
        }
}

/// Whether the expressions of the updates answer for a row.
fn can_answer(doc: &nodedb_types::Value, updates: &[(String, UpdateValue)]) -> (r: bool)
    ensures
        r == answered(updates@, *doc),
{
    let mut i: usize = 0;
    while i < updates.len()
        invariant
            i <= updates@.len(),
            forall|j: int|
                0 <= j < i ==> match (#[trigger] updates@[j]).1 {
                    UpdateValue::Literal(_) => true,
                    UpdateValue::Expr(expr) => expression::answers(
                        expression::expr_tree(expr),
                        *doc,
                    ),
                },
        decreases updates@.len() - i,
    {
        if let UpdateValue::Expr(expr) = &updates[i].1 {
            if !expression::can_answer(expr, doc) {
                return false;
            }
        }
        i = i + 1;
    }
    true
}

/// Evaluates the expressions of the updates against a row. A literal update is
/// passed over.
fn evaluate_updates(
    doc: &nodedb_types::Value,
    updates: &[(String, UpdateValue)],
) -> (r: Vec<nodedb_types::Value>)
    requires
        answered(updates@, *doc),
    ensures
        yielded(updates@, *doc, r@),
{
    let mut out: Vec<nodedb_types::Value> = Vec::new();
    let mut i: usize = 0;
    while i < updates.len()
        invariant
            i <= updates@.len(),
            out@.len() == i,
            answered(updates@, *doc),
            forall|j: int|
                0 <= j < i ==> match (#[trigger] updates@[j]).1 {
                    UpdateValue::Literal(_) => true,
                    UpdateValue::Expr(expr) => expression::steady(expr) ==> out@[j]
                        == expression::expr_value(expr, *doc),
                },
        decreases updates@.len() - i,
    {
        let value = match &updates[i].1 {
            UpdateValue::Literal(_) => native::native(Datum::Null),
            UpdateValue::Expr(expr) => expression::evaluate(expr, doc),
        };
        out.push(value);
        i = i + 1;
    }
    out
}

/// The row that the expressions of the updates are evaluated against, as an
/// object.
pub open spec fn row_object(
    columns: Seq<Seq<char>>,
    row: Seq<nodedb_types::Value>,
) -> nodedb_types::Value {
    native::native_object(rows::row_fields(columns, row))
}

/// Whether this is a row in conflict after its updates, made with these values
/// of their expressions.
pub open spec fn merged_with(
    existing: Seq<nodedb_types::Value>,
    incoming: Seq<nodedb_types::Value>,
    updates: Seq<(String, UpdateValue)>,
    columns: Seq<Seq<char>>,
    evaluated: Seq<nodedb_types::Value>,
    out: Seq<nodedb_types::Value>,
) -> bool {
    yielded(updates, row_object(columns, existing), evaluated) && out == merged(
        existing,
        rows::row_fields(columns, incoming),
        updates,
        columns,
        evaluated,
    )
}

/// Applies the updates of a row in conflict. Expressions are evaluated against
/// the existing row; the incoming value of a field stands in for an expression
/// that yields nothing.
pub fn apply_conflict_updates(
    existing: Vec<nodedb_types::Value>,
    incoming: &[nodedb_types::Value],
    updates: &[(String, UpdateValue)],
    columns: &[String],
) -> (r: Vec<nodedb_types::Value>)
    requires
        answered(updates@, row_object(names_view(columns@), existing@)),
    ensures
        exists|evaluated: Seq<nodedb_types::Value>| #[trigger]
            merged_with(
                existing@,
                incoming@,
                updates@,
                names_view(columns@),
                evaluated,
                r@,
            ),
{
    let doc = rows::row_to_object(columns, existing.as_slice());
    let evaluated = evaluate_updates(&doc, updates);
    let fields = rows::named_row(columns, incoming);
    let ghost before = existing@;
    let r = merge_updates(existing, &fields, updates, columns, evaluated.as_slice());
    proof {
        assert(merged_with(before, incoming@, updates@, names_view(columns@), evaluated@, r@));
    }
    r
}

/// What an insert does with a row whose key is already there.
#[derive(Debug, Clone, Copy, PartialEq, Eq, Structural)]
pub enum ColumnarInsertIntent {
    /// The new row takes the place of the old one.
    Insert,
    /// The insert is refused.
    InsertUnique,
    /// The new row is passed over.
    InsertIfAbsent,
    /// The new row overwrites the old one, or updates it where the insert
    /// carries updates.
    Put,
}

/// Why an insert went no further.
pub enum Refusal {
    /// The key of a row is already there.
    Duplicate(nodedb_types::Value),
    /// An expression of the updates does not answer for a row in conflict.
    Unanswered,
}

/// How far an insert has come.
pub struct Progress {
    /// The live rows.
    pub live: Seq<Seq<nodedb_types::Value>>,
    /// The rows written so far.
    pub written: Seq<Seq<nodedb_types::Value>>,
    /// Why a row was refused, if one was.
    pub refused: Option<Refusal>,
}

/// The table that an insert goes to and the way it goes in.
pub struct InsertMode {
    /// The position of the key in the stored rows.
    pub stored_key: nat,
    /// The position of the key in the incoming rows.
    pub key: nat,
    /// The names of the incoming columns.
    pub columns: Seq<Seq<char>>,
    /// What happens to a row whose key is already there.
    pub intent: ColumnarInsertIntent,
    /// The updates of a row in conflict.
    pub updates: Seq<(String, UpdateValue)>,
}

/// The live row with the key of an incoming row.
pub open spec fn conflicting(
    mode: InsertMode,
    live: Seq<Seq<nodedb_types::Value>>,
    row: Seq<nodedb_types::Value>,
) -> Option<Seq<nodedb_types::Value>> {
    if mode.key < row.len() {
        find(live, mode.stored_key, row[mode.key as int])
    } else {
        None
    }
}

/// The rows after an overwrite: the old row of the key goes, the new one comes.
pub open spec fn overwritten(
    mode: InsertMode,
    live: Seq<Seq<nodedb_types::Value>>,
    row: Seq<nodedb_types::Value>,
) -> Seq<Seq<nodedb_types::Value>> {
    let cleared = if mode.key < row.len() {
        without(live, mode.stored_key, row[mode.key as int])
    } else {
        live
    };
    with_row(cleared, mode.stored_key, row)
}

/// One more row. After a refusal nothing more happens.
pub open spec fn insert_row(
    mode: InsertMode,
    p: Progress,
    row: Seq<nodedb_types::Value>,
    evaluated: Seq<nodedb_types::Value>,
) -> Progress {
    let known = conflicting(mode, p.live, row);
    let plain = Progress {
        live: with_row(p.live, mode.stored_key, row),
        written: p.written.push(row),
        refused: None,
    };
    if p.refused is Some {
        p
    } else {
        match mode.intent {
            ColumnarInsertIntent::Insert => plain,
            ColumnarInsertIntent::InsertUnique => if known is Some {
                Progress { refused: Some(Refusal::Duplicate(row[mode.key as int])), ..p }
            } else {
                plain
            },
            ColumnarInsertIntent::InsertIfAbsent => if known is Some {
                p
            } else {
                plain
            },
            ColumnarInsertIntent::Put => {
                let out = match known {
                    Some(existing) => if mode.updates.len() > 0 {
                        merged(
                            existing,
                            rows::row_fields(mode.columns, row),
                            mode.updates,
                            mode.columns,
                            evaluated,
                        )
                    } else {
                        row
                    },
                    None => row,
                };
                if mode.updates.len() > 0 && known is Some && !answered(
                    mode.updates,
                    row_object(mode.columns, known->0),
                ) {
                    Progress { refused: Some(Refusal::Unanswered), ..p }
                } else {
                    Progress {
                        live: overwritten(mode, p.live, out),
                        written: p.written.push(out),
                        refused: None,
                    }
                }
            },
        }
    }
}

/// Several rows, in order, with what the expressions yielded for each.
pub open spec fn insert_rows(
    mode: InsertMode,
    live: Seq<Seq<nodedb_types::Value>>,
    incoming: Seq<Seq<nodedb_types::Value>>,
    evaluated: Seq<Seq<nodedb_types::Value>>,
) -> Progress
    decreases incoming.len(),
{
    if incoming.len() == 0 {
        Progress { live, written: Seq::empty(), refused: None }
    } else {
        insert_row(
            mode,
            insert_rows(mode, live, incoming.drop_last(), evaluated),
            incoming.last(),
            evaluated[incoming.len() - 1],
        )
    }
}

/// Whether these can be the values of the expressions for one more row. They
/// count only where the row updates another.
pub open spec fn row_yields(
    mode: InsertMode,
    p: Progress,
    row: Seq<nodedb_types::Value>,
    evaluated: Seq<nodedb_types::Value>,
) -> bool {
    mode.intent == ColumnarInsertIntent::Put && mode.updates.len() > 0 && p.refused is None ==> (
    match conflicting(mode, p.live, row) {
        Some(existing) => answered(mode.updates, row_object(mode.columns, existing)) ==> yielded(
            mode.updates,
            row_object(mode.columns, existing),
            evaluated,
        ),
        None => true,
    })
}

/// Whether these can be the values of the expressions for several rows.
pub open spec fn rows_yield(
    mode: InsertMode,
    live: Seq<Seq<nodedb_types::Value>>,
    incoming: Seq<Seq<nodedb_types::Value>>,
    evaluated: Seq<Seq<nodedb_types::Value>>,
) -> bool
    decreases incoming.len(),
{
    incoming.len() > 0 ==> rows_yield(mode, live, incoming.drop_last(), evaluated) && row_yields(
        mode,
        insert_rows(mode, live, incoming.drop_last(), evaluated),
        incoming.last(),
        evaluated[incoming.len() - 1],
    )
}

/// An insert.
#[derive(Debug)]
pub struct InsertParams<'a> {
    /// The encoded rows.
    pub payload: &'a [u8],
    /// How the rows are encoded: `json`, `msgpack` or `ilp`.
    pub format: &'a str,
    /// What happens to a row whose key is already there.
    pub intent: ColumnarInsertIntent,
    /// The updates of a row in conflict.
    pub on_conflict_updates: &'a [(String, UpdateValue)],
    /// An encoded schema that the rows follow, or nothing for the stored one.
    pub schema_bytes: &'a [u8],
}

/// What [`InsertParams`] say.
pub struct InsertView {
    pub payload: Seq<u8>,
    pub format: Seq<char>,
    pub intent: ColumnarInsertIntent,
    pub updates: Seq<(String, UpdateValue)>,
    pub schema_bytes: Seq<u8>,
}

impl<'a> View for InsertParams<'a> {
    type V = InsertView;

    open spec fn view(&self) -> InsertView {
        InsertView {
            payload: self.payload@,
            format: self.format@,
            intent: self.intent,
            updates: self.on_conflict_updates@,
            schema_bytes: self.schema_bytes@,
        }
    }
}

/// The columns that the incoming rows follow.
pub open spec fn incoming_columns(
    stored: Seq<(Seq<char>, bool)>,
    schema_bytes: Seq<u8>,
) -> Seq<(Seq<char>, bool)> {
    if schema_bytes.len() > 0 && decoded_schema(schema_bytes) is Some {
        decoded_schema(schema_bytes)->0
    } else {
        stored
    }
}

/// The way an insert goes into a table.
pub open spec fn insert_mode(table: TableView, params: InsertView) -> InsertMode {
    let columns = incoming_columns(table.columns, params.schema_bytes);
    InsertMode {
        stored_key: key_column(table.columns),
        key: key_column(columns),
        columns: column_names(columns),
        intent: params.intent,
        updates: params.updates,
    }
}

/// The message for a collection that is not there.
pub open spec fn missing_collection(collection: Seq<char>) -> Seq<char> {
    "columnar collection '"@ + collection + "' does not exist"@
}

/// How an insert ends.
#[derive(Debug)]
pub enum InsertEnd {
    /// The payload cannot be read.
    Unreadable(LiteError),
    /// A row was refused since its key is already there.
    Refused(nodedb_types::Value),
    /// A row in conflict was refused since its updates cannot be evaluated.
    Unanswered,
    /// The rows that were written.
    Written(Vec<Vec<nodedb_types::Value>>),
}

/// What an [`InsertEnd`] says.
pub enum EndView {
    Unreadable(ErrorView),
    Refused(nodedb_types::Value),
    Unanswered,
    Written(Seq<Seq<nodedb_types::Value>>),
}

impl View for InsertEnd {
    type V = EndView;

    open spec fn view(&self) -> EndView {
        match *self {
            InsertEnd::Unreadable(e) => EndView::Unreadable(e@),
            InsertEnd::Refused(key) => EndView::Refused(key),
            InsertEnd::Unanswered => EndView::Unanswered,
            InsertEnd::Written(rows) => EndView::Written(rows::table_view(rows@)),
        }
    }
}

/// How an insert that has come this far ends.
pub open spec fn end_of(p: Progress) -> EndView {
    match p.refused {
        Some(Refusal::Duplicate(key)) => EndView::Refused(key),
        Some(Refusal::Unanswered) => EndView::Unanswered,
        None => EndView::Written(p.written),
    }
}

/// Whether these are the live rows and the end after the incoming rows, given
/// what the expressions yielded.
pub open spec fn inserted(
    mode: InsertMode,
    live: Seq<Seq<nodedb_types::Value>>,
    incoming: Seq<Seq<nodedb_types::Value>>,
    evaluated: Seq<Seq<nodedb_types::Value>>,
    live_after: Seq<Seq<nodedb_types::Value>>,
    end: EndView,
) -> bool {
    let p = insert_rows(mode, live, incoming, evaluated);
    rows_yield(mode, live, incoming, evaluated) && live_after == p.live && end == end_of(p)
}

/// Whether these are the table and the end after an insert. A payload that
/// cannot be read changes nothing.
pub open spec fn insert_done(
    before: TableView,
    params: InsertView,
    after: TableView,
    end: EndView,
) -> bool {
    let mode = insert_mode(before, params);
    &&& after.columns == before.columns
    &&& match payload::payload_rows(params.payload, params.format, mode.columns) {
        Err(e) => after.rows == before.rows && end == EndView::Unreadable(e),
        Ok(incoming) => exists|evaluated: Seq<Seq<nodedb_types::Value>>| #[trigger]
            inserted(mode, before.rows, incoming, evaluated, after.rows, end),
    }
}

/// What the answer to an insert says.
pub open spec fn insert_view(
    r: Result<(QueryResult, Vec<Vec<nodedb_types::Value>>), LiteError>,
) -> Result<(ResultView, Seq<Seq<nodedb_types::Value>>), ErrorView> {
    match r {
        Ok((q, written)) => Ok((q@, rows::table_view(written@))),
        Err(e) => Err(e@),
    }
}

/// What an insert answers at its end: the written rows, or the refusal of a
/// duplicate as a broken constraint.
pub open spec fn insert_answer(collection: Seq<char>, end: EndView) -> Result<
    (ResultView, Seq<Seq<nodedb_types::Value>>),
    ErrorView,
> {
    match end {
        EndView::Unreadable(e) => Err(e),
        EndView::Refused(_) => Err(
            ErrorView::ConstraintViolation {
                collection,
                constraint: "unique"@,
                detail: "duplicate key value violates the primary key on '"@ + collection + "'"@,
            },
        ),
        EndView::Unanswered => Err(ErrorView::BadRequest(filter::unanswered())),
        EndView::Written(written) => Ok((result::affected_view(written.len() as u64), written)),
    }
}

/// Whether these are the table and the answer after an insert that ends so.
pub open spec fn answered_at(
    collection: Seq<char>,
    before: TableView,
    params: InsertView,
    after: TableView,
    end: EndView,
    answer: Result<(ResultView, Seq<Seq<nodedb_types::Value>>), ErrorView>,
) -> bool {
    insert_done(before, params, after, end) && answer == insert_answer(collection, end)
}

/// Whether these are the table and the answer after an insert. A collection that
/// is not there is refused.
pub open spec fn insert_answered(
    collection: Seq<char>,
    before: Option<TableView>,
    params: InsertView,
    after: Option<TableView>,
    answer: Result<(ResultView, Seq<Seq<nodedb_types::Value>>), ErrorView>,
) -> bool {
    match (before, after) {
        (None, None) => answer is Err && answer->Err_0 == ErrorView::BadRequest(
            missing_collection(collection),
        ),
        (Some(old_table), Some(new_table)) => exists|end: EndView| #[trigger]
            answered_at(collection, old_table, params, new_table, end, answer),
        _ => false,
    }
}

proof fn lemma_same_evaluations(
    mode: InsertMode,
    live: Seq<Seq<nodedb_types::Value>>,
    incoming: Seq<Seq<nodedb_types::Value>>,
    a: Seq<Seq<nodedb_types::Value>>,
    b: Seq<Seq<nodedb_types::Value>>,
)
    requires
        forall|i: int| 0 <= i < incoming.len() ==> a[i] == b[i],
    ensures
        insert_rows(mode, live, incoming, a) == insert_rows(mode, live, incoming, b),
        rows_yield(mode, live, incoming, a) == rows_yield(mode, live, incoming, b),
    decreases incoming.len(),
{
    if incoming.len() > 0 {
        lemma_same_evaluations(mode, live, incoming.drop_last(), a, b);
    }
}

proof fn lemma_refused_stays(
    mode: InsertMode,
    live: Seq<Seq<nodedb_types::Value>>,
    incoming: Seq<Seq<nodedb_types::Value>>,
    evaluated: Seq<Seq<nodedb_types::Value>>,
    k: int,
)
    requires
        0 <= k <= incoming.len(),
        insert_rows(mode, live, incoming.take(k), evaluated).refused is Some,
    ensures
        rows_yield(mode, live, incoming, evaluated) == rows_yield(
            mode,
            live,
            incoming.take(k),
            evaluated,
        ),
        insert_rows(mode, live, incoming, evaluated) == insert_rows(
            mode,
            live,
            incoming.take(k),
            evaluated,
        ),
    decreases incoming.len() - k,
{
    if k < incoming.len() {
        assert(incoming.take(k + 1).drop_last() =~= incoming.take(k));
        lemma_refused_stays(mode, live, incoming, evaluated, k + 1);
    } else {
        assert(incoming.take(k) =~= incoming);
    }
}

impl Table {
    /// Writes a row after removing the row of its key.
    fn overwrite(&mut self, stored_key: usize, key: usize, row: Vec<nodedb_types::Value>)
        ensures
            final(self).columns == old(self).columns,
            forall|mode: InsertMode|
                mode.stored_key == stored_key && mode.key == key ==> final(self)@.rows
                    == #[trigger] overwritten(mode, old(self)@.rows, row@),
    {
        if key < row.len() {
            let old_key = native::copy_native(&row[key]);
            self.remove_key(stored_key, &old_key);
        }
        self.write_row(stored_key, row);
    }
}

impl Table {
    /// Inserts rows.
    ///
    /// A refused row ends the insert; the rows before it stay.
    pub(crate) fn insert(&mut self, params: &InsertParams) -> (r: InsertEnd)
        ensures
            insert_done(old(self)@, params@, final(self)@, r@),
    {
        let ghost start = self@;
        let ghost mode = insert_mode(start, params@);
        let stored_key = key_position(&self.columns);
        let decoded = if params.schema_bytes.len() > 0 {
            decode_schema(params.schema_bytes)
        } else {
            None
        };
        let (names, key) = match decoded {
            Some(columns) => (names_of(&columns), key_position(&columns)),
            None => (names_of(&self.columns), stored_key),
        };
        proof {
            assert(names_view(names@) == mode.columns);
            assert(key == mode.key);
        }
        let incoming = match payload::decode_payload(
            params.payload,
            params.format,
            names.as_slice(),
        ) {
            Ok(rows) => rows,
            Err(e) => return InsertEnd::Unreadable(e),
        };
        let ghost all = rows::table_view(incoming@);
        let ghost mut evaluated: Seq<Seq<nodedb_types::Value>> = Seq::empty();
        let mut written: Vec<Vec<nodedb_types::Value>> = Vec::new();
        proof {
            assert(rows::table_view(written@) =~= Seq::<Seq<nodedb_types::Value>>::empty());
        }
        let mut i: usize = 0;
        while i < incoming.len()
            invariant
                i <= incoming@.len(),
                all == rows::table_view(incoming@),
                start == old(self)@,
                mode == insert_mode(start, params@),
                mode.stored_key == stored_key,
                mode.key == key,
                names_view(names@) == mode.columns,
                payload::payload_rows(params.payload@, params.format@, mode.columns) is Ok,
                payload::payload_rows(params.payload@, params.format@, mode.columns)->Ok_0 == all,
                self@.columns == start.columns,
                evaluated.len() == i,
                rows_yield(mode, start.rows, all.take(i as int), evaluated),
                insert_rows(mode, start.rows, all.take(i as int), evaluated) == (Progress {
                    live: self@.rows,
                    written: rows::table_view(written@),
                    refused: None,
                }),
            decreases incoming@.len() - i,
        {
            let row = native::copy_natives(incoming[i].as_slice());
            let ghost live = self@.rows;
            let ghost before = rows::table_view(written@);
            let ghost mut yields: Seq<nodedb_types::Value> = Seq::empty();
            let existing = if key < row.len() {
                self.find_row(stored_key, &row[key])
            } else {
                None
            };
            proof {
                assert(all[i as int] == row@);
                assert(all.take(i as int + 1).drop_last() =~= all.take(i as int));
            }
            match params.intent {
                ColumnarInsertIntent::Insert => {
                    written.push(native::copy_natives(row.as_slice()));
                    self.write_row(stored_key, row);
                },
                ColumnarInsertIntent::InsertUnique => {
                    if existing.is_some() {
                        let refused = InsertEnd::Refused(native::copy_native(&row[key]));
                        proof {
                            let ghost with = evaluated.push(yields);
                            lemma_same_evaluations(
                                mode,
                                start.rows,
                                all.take(i as int),
                                evaluated,
                                with,
                            );
                            lemma_refused_stays(mode, start.rows, all, with, i as int + 1);
                            assert(inserted(
                                mode,
                                start.rows,
                                all,
                                with,
                                self@.rows,
                                refused@,
                            ));
                        }
                        return refused;
                    }
                    written.push(native::copy_natives(row.as_slice()));
                    self.write_row(stored_key, row);
                },
                ColumnarInsertIntent::InsertIfAbsent => {
                    if existing.is_none() {
                        written.push(native::copy_natives(row.as_slice()));
                        self.write_row(stored_key, row);
                    }
                },
                ColumnarInsertIntent::Put => {
                    let out = match existing {
                        Some(found) => if params.on_conflict_updates.len() > 0 {
                            let doc = rows::row_to_object(names.as_slice(), found.as_slice());
                            if !can_answer(&doc, params.on_conflict_updates) {
                                let refused = InsertEnd::Unanswered;
                                proof {
                                    let ghost with = evaluated.push(yields);
                                    lemma_same_evaluations(
                                        mode,
                                        start.rows,
                                        all.take(i as int),
                                        evaluated,
                                        with,
                                    );
                                    lemma_refused_stays(mode, start.rows, all, with, i as int + 1);
                                    assert(inserted(
                                        mode,
                                        start.rows,
                                        all,
                                        with,
                                        self@.rows,
                                        refused@,
                                    ));
                                }
                                return refused;
                            }
                            let merged_row = apply_conflict_updates(
                                found,
                                row.as_slice(),
                                params.on_conflict_updates,
                                names.as_slice(),
                            );
                            proof {
                                yields = choose|evaluated: Seq<nodedb_types::Value>| #[trigger]
                                    merged_with(
                                        found@,
                                        row@,
                                        params.on_conflict_updates@,
                                        mode.columns,
                                        evaluated,
                                        merged_row@,
                                    );
                            }
                            merged_row
                        } else {
                            row
                        },
                        None => row,
                    };
                    written.push(native::copy_natives(out.as_slice()));
                    self.overwrite(stored_key, key, out);
                },
            }
            proof {
                lemma_same_evaluations(
                    mode,
                    start.rows,
                    all.take(i as int),
                    evaluated,
                    evaluated.push(yields),
                );
                evaluated = evaluated.push(yields);
                if written@.len() > before.len() {
                    assert(rows::table_view(written@) =~= before.push(written@.last()@));
                }
            }
            i = i + 1;
        }
        proof {
            assert(all.take(i as int) =~= all);
        }
        let end = InsertEnd::Written(written);
        proof {
            assert(inserted(mode, start.rows, all, evaluated, self@.rows, end@));
        }
        end
    }
}

/// The refusal of a collection that is not there.
pub(crate) fn no_collection(collection: &str) -> (r: LiteError)
    ensures
        r@ == ErrorView::BadRequest(missing_collection(collection@)),
{
    LiteError::BadRequest {
        detail: text::concat3("columnar collection '", collection, "' does not exist"),
    }
}

proof fn lemma_answered(
    collection: Seq<char>,
    before: TableView,
    params: InsertView,
    after: TableView,
    end: EndView,
    answer: Result<(ResultView, Seq<Seq<nodedb_types::Value>>), ErrorView>,
)
    requires
        answered_at(collection, before, params, after, end, answer),
    ensures
        insert_answered(collection, Some(before), params, Some(after), answer),
{
    let a = Some(before);
    let b = Some(after);
    assert(a->Some_0 == before && b->Some_0 == after);
    assert(answered_at(collection, a->Some_0, params, b->Some_0, end, answer));
}

/// Inserts rows into a columnar collection. A duplicate under a unique insert is
/// a broken constraint.
///
/// The answer holds the rows that were written. A refused row ends the insert;
/// the rows before it stay.
pub fn insert(collection: &str, stored: Option<Table>, params: &InsertParams) -> (r: (
    Option<Table>,
    Result<(QueryResult, Vec<Vec<nodedb_types::Value>>), LiteError>,
))
    ensures
        insert_answered(
            collection@,
            stored_view(stored),
            params@,
            stored_view(r.0),
            insert_view(r.1),
        ),
{
    let mut table = match stored {
        Some(t) => t,
        None => return (None, Err(no_collection(collection))),
    };
    let ghost start = table@;
    let end = table.insert(params);
    let ghost ended = end@;
    let answer: Result<(QueryResult, Vec<Vec<nodedb_types::Value>>), LiteError> = match end {
        InsertEnd::Unreadable(e) => Err(e),
        InsertEnd::Refused(_) => Err(
            LiteError::ConstraintViolation {
                collection: collection.to_owned(),
                constraint: "unique".to_owned(),
                detail: text::concat3(
                    "duplicate key value violates the primary key on '",
                    collection,
                    "'",
                ),
            },
        ),
        InsertEnd::Unanswered => Err(filter::no_answer()),
        InsertEnd::Written(written) => Ok((QueryResult::affected(written.len() as u64), written)),
    };
    proof {
        assert(answered_at(
            collection@,
            start,
            params@,
            table@,
            ended,
            insert_view(answer),
        ));
    }
    let after = Some(table);
    proof {
        let ghost said = insert_view(answer);
        assert(answered_at(collection@, start, params@, after->0@, ended, said));
        lemma_answered(collection@, start, params@, after->0@, ended, said);
    }
    (after, answer)
}

} // verus!
