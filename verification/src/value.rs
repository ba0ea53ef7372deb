//! Field values.
//!
//! The engine looks inside nulls, booleans, integers, strings and byte
//! strings. Every other kind of value (floats, arrays, objects, dates and so
//! on) is carried through untouched.
use vstd::prelude::*;

verus! {

/// The dynamic value type of the wire format.
#[verifier::external_type_specification]
#[verifier::external_body]
pub struct ExNativeValue(nodedb_types::Value);

/// A field value.
#[derive(Debug)]
pub enum Datum {
    /// A missing value.
    Null,
    /// A boolean.
    Bool(bool),
    /// A signed integer.
    Integer(i64),
    /// A string.
    String(String),
    /// A byte string.
    Bytes(Vec<u8>),
    /// A value of any other kind.
    Other(nodedb_types::Value),
}

/// What a [`Datum`] is.
pub enum DatumView {
    Null,
    Bool(bool),
    Integer(i64),
    String(Seq<char>),
    Bytes(Seq<u8>),
    Other(nodedb_types::Value),
}

impl View for Datum {
    type V = DatumView;

    open spec fn view(&self) -> DatumView {
        match *self {
            Datum::Null => DatumView::Null,
            Datum::Bool(b) => DatumView::Bool(b),
            Datum::Integer(i) => DatumView::Integer(i),
            Datum::String(s) => DatumView::String(s@),
            Datum::Bytes(b) => DatumView::Bytes(b@),
            Datum::Other(v) => DatumView::Other(v),
        }
    }
}

/// A row of values.
pub open spec fn row_view(row: Seq<Datum>) -> Seq<DatumView> {
    row.map_values(|v: Datum| v@)
}

/// Several rows of values.
pub open spec fn rows_view(rows: Seq<Vec<Datum>>) -> Seq<Seq<DatumView>> {
    rows.map_values(|r: Vec<Datum>| row_view(r@))
}

/// A list of names.
pub open spec fn names_view(names: Seq<String>) -> Seq<Seq<char>> {
    names.map_values(|s: String| s@)
}

} // verus!
