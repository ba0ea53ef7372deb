//! Rows in column order.
use crate::native;
use crate::text;
use crate::value::names_view;
use crate::wire;
use vstd::prelude::*;

verus! {

/// What a list of rows holds.
pub open spec fn table_view(rows: Seq<Vec<nodedb_types::Value>>) -> Seq<Seq<nodedb_types::Value>> {
    rows.map_values(|r: Vec<nodedb_types::Value>| r@)
}

/// The row of named fields, in the order of the columns. A column without a
/// field is null, and a field without a column is left out.
pub open spec fn row_of(
    fields: Map<Seq<char>, nodedb_types::Value>,
    columns: Seq<Seq<char>>,
) -> Seq<nodedb_types::Value> {
    Seq::new(columns.len(), |i: int| native::field_or_null(fields, columns[i]))
}

/// Puts named fields in the order of the columns.
pub fn ordered_row(fields: &Vec<(String, nodedb_types::Value)>, columns: &[String]) -> (r: Vec<
    nodedb_types::Value,
>)
    requires
        wire::distinct_names(fields@),
    ensures
        r@ == row_of(wire::fields_map(fields@), names_view(columns@)),
{
    let mut out: Vec<nodedb_types::Value> = Vec::new();
    let ghost whole = row_of(wire::fields_map(fields@), names_view(columns@));
    let mut i: usize = 0;
    while i < columns.len()
        invariant
            i <= columns@.len(),
            wire::distinct_names(fields@),
            whole == row_of(wire::fields_map(fields@), names_view(columns@)),
            out@ == whole.take(i as int),
        decreases columns@.len() - i,
    {
        out.push(native::field_or_null_of(fields, columns[i].as_str()));
        proof {
            assert(whole.take(i as int + 1) =~= whole.take(i as int).push(whole[i as int]));
        }
        i = i + 1;
    }
    proof {
        assert(whole.take(i as int) =~= whole);
    }
    out
}

/// The fields of a row, by the names of its columns.
pub open spec fn row_fields(
    columns: Seq<Seq<char>>,
    row: Seq<nodedb_types::Value>,
) -> Map<Seq<char>, nodedb_types::Value>
    decreases columns.len(),
{
    if columns.len() == 0 {
        Map::empty()
    } else if columns.len() <= row.len() {
        row_fields(columns.drop_last(), row).insert(columns.last(), row[columns.len() - 1])
    } else {
        row_fields(columns.drop_last(), row)
    }
}

/// The first position of a name at or after `i`.
pub open spec fn name_from(columns: Seq<Seq<char>>, name: Seq<char>, i: int) -> Option<int>
    decreases columns.len() - i,
{
    if i < 0 || i >= columns.len() {
        None
    } else if columns[i] == name {
        Some(i)
    } else {
        name_from(columns, name, i + 1)
    }
}

/// A row with the named column set. A name that is no column of the row
/// changes nothing.
pub open spec fn with_column(
    row: Seq<nodedb_types::Value>,
    columns: Seq<Seq<char>>,
    name: Seq<char>,
    value: nodedb_types::Value,
) -> Seq<nodedb_types::Value> {
    match name_from(columns, name, 0) {
        Some(i) => if i < row.len() {
            row.update(i, value)
        } else {
            row
        },
        None => row,
    }
}

/// Names the values of a row.
pub fn named_row(columns: &[String], row: &[nodedb_types::Value]) -> (r: Vec<
    (String, nodedb_types::Value),
>)
    ensures
        wire::distinct_names(r@),
        wire::fields_map(r@) == row_fields(names_view(columns@), row@),
{
    let mut out: Vec<(String, nodedb_types::Value)> = Vec::new();
    let ghost names = names_view(columns@);
    let mut i: usize = 0;
    proof {
        assert(wire::fields_map(out@) =~= Map::<Seq<char>, nodedb_types::Value>::empty());
    }
    while i < columns.len()
        invariant
            i <= columns@.len(),
            names == names_view(columns@),
            wire::distinct_names(out@),
            wire::fields_map(out@) == row_fields(names.take(i as int), row@),
        decreases columns@.len() - i,
    {
        proof {
            assert(names.take(i as int + 1).drop_last() =~= names.take(i as int));
        }
        if i < row.len() {
            wire::set_field(&mut out, columns[i].as_str(), native::copy_native(&row[i]));
        }
        i = i + 1;
    }
    proof {
        assert(names.take(i as int) =~= names);
    }
    out
}

/// The row as a document.
pub fn row_to_object(columns: &[String], row: &[nodedb_types::Value]) -> (r: nodedb_types::Value)
    ensures
        r == native::native_object(row_fields(names_view(columns@), row@)),
{
    native::native_record(named_row(columns, row))
}

/// Sets the named column of a row.
pub fn set_column(
    row: &mut Vec<nodedb_types::Value>,
    columns: &[String],
    name: &str,
    value: nodedb_types::Value,
)
    ensures
        final(row)@ == with_column(old(row)@, names_view(columns@), name@, value),
{
    let ghost names = names_view(columns@);
    let mut i: usize = 0;
    while i < columns.len()
        invariant
            i <= columns@.len(),
            names == names_view(columns@),
            row@ == old(row)@,
            name_from(names, name@, 0) == name_from(names, name@, i as int),
        decreases columns@.len() - i,
    {
        if text::str_eq(columns[i].as_str(), name) {
            if i < row.len() {
                row.set(i, value);
            }
            return;
        }
        i = i + 1;
    }
}

} // verus!
