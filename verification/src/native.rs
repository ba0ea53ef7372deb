//! Dynamic values of the `nodedb_types` crate: building, comparing and taking
//! them apart.
//!
//! A dynamic value is opaque here. Each function makes one outside call, and
//! what that call returns has a name.
use crate::value::{Datum, DatumView};
use crate::wire;
use vstd::prelude::*;

verus! {

/// The dynamic value that holds a plain one.
pub uninterp spec fn native_of(d: DatumView) -> nodedb_types::Value;

/// The dynamic array of these elements.
pub uninterp spec fn native_array(items: Seq<nodedb_types::Value>) -> nodedb_types::Value;

/// The dynamic object of these fields.
pub uninterp spec fn native_object(
    fields: Map<Seq<char>, nodedb_types::Value>,
) -> nodedb_types::Value;

/// The elements of a dynamic value, where it is an array.
pub uninterp spec fn native_items(v: nodedb_types::Value) -> Option<Seq<nodedb_types::Value>>;

/// Whether the crate's `==` holds of two dynamic values.
pub uninterp spec fn native_equal(a: nodedb_types::Value, b: nodedb_types::Value) -> bool;

/// The float that `str::parse` reads from a text, as a dynamic value.
pub uninterp spec fn parsed_float(s: Seq<char>) -> Option<nodedb_types::Value>;

/// The null value.
pub open spec fn null() -> nodedb_types::Value {
    native_of(DatumView::Null)
}

/// The value of a field, null where there is none.
pub open spec fn field_or_null(
    fields: Map<Seq<char>, nodedb_types::Value>,
    name: Seq<char>,
) -> nodedb_types::Value {
    if fields.dom().contains(name) {
        fields[name]
    } else {
        null()
    }
}

/// Builds a `nodedb_types::Value` from a plain value: the variant of the same
/// name, holding the same contents. The result is the one named [`native_of`].
#[verifier::external_body]
pub(crate) fn native(d: Datum) -> (r: nodedb_types::Value)
    requires
        d !is Other,
    ensures
        r == native_of(d@),
{
    match d {
        Datum::Null => nodedb_types::Value::Null,
        Datum::Bool(b) => nodedb_types::Value::Bool(b),
        Datum::Integer(i) => nodedb_types::Value::Integer(i),
        Datum::String(s) => nodedb_types::Value::String(s),
        Datum::Bytes(b) => nodedb_types::Value::Bytes(b),
        Datum::Other(v) => v,
    }
}

/// Calls `nodedb_types::Value::is_null`, which holds of the null value alone.
#[verifier::external_body]
pub(crate) fn is_null(v: &nodedb_types::Value) -> (r: bool)
    ensures
        r == (*v == native_of(DatumView::Null)),
{
    v.is_null()
}

/// Calls `nodedb_types::Value::clone`, which copies the value.
#[verifier::external_body]
pub(crate) fn copy_native(v: &nodedb_types::Value) -> (r: nodedb_types::Value)
    ensures
        r == *v,
{
    v.clone()
}

/// Calls the `==` of `nodedb_types::Value`. The result is the one named
/// [`native_equal`]. A plain value, which is no float, equals itself and no
/// other.
#[verifier::external_body]
pub(crate) fn native_eq(a: &nodedb_types::Value, b: &nodedb_types::Value) -> (r: bool)
    ensures
        r == native_equal(*a, *b),
        wire::plain(*a) || wire::plain(*b) ==> r == (*a == *b),
{
    a == b
}

/// Whether two dynamic values are taken as the same. A plain value is the same
/// as itself alone; of others the crate's `==` decides.
pub open spec fn same_value(a: nodedb_types::Value, b: nodedb_types::Value) -> bool {
    if wire::plain(a) || wire::plain(b) {
        a == b
    } else {
        native_equal(a, b)
    }
}

/// Whether two dynamic values are taken as the same.
pub fn is_same(a: &nodedb_types::Value, b: &nodedb_types::Value) -> (r: bool)
    ensures
        r == same_value(*a, *b),
{
    native_eq(a, b)
}

/// Builds a `nodedb_types::Value::Array`. The result is the one named
/// [`native_array`].
#[verifier::external_body]
pub(crate) fn native_list(items: Vec<nodedb_types::Value>) -> (r: nodedb_types::Value)
    ensures
        r == native_array(items@),
{
    nodedb_types::Value::Array(items)
}

/// Builds a `nodedb_types::Value::Object` of the given fields. The result is
/// the one named [`native_object`].
#[verifier::external_body]
pub(crate) fn native_record(fields: Vec<(String, nodedb_types::Value)>) -> (r: nodedb_types::Value)
    requires
        wire::distinct_names(fields@),
    ensures
        r == native_object(wire::fields_map(fields@)),
{
    nodedb_types::Value::Object(fields.into_iter().collect())
}

/// What a dynamic value is made of.
#[derive(Debug)]
pub enum NativeShape {
    /// An array of elements.
    Array(Vec<nodedb_types::Value>),
    /// Any other value, unchanged.
    Single(nodedb_types::Value),
}

/// Takes the elements out of a `nodedb_types::Value` that is an array, and
/// hands any other value back. The elements are those named [`native_items`].
#[verifier::external_body]
pub(crate) fn native_shape(v: nodedb_types::Value) -> (r: NativeShape)
    ensures
        match r {
            NativeShape::Array(items) => native_items(v) == Some(items@),
            NativeShape::Single(w) => native_items(v) is None && w == v,
        },
{
    match v {
        nodedb_types::Value::Array(items) => NativeShape::Array(items),
        other => NativeShape::Single(other),
    }
}

/// The elements of a dynamic value that is an array or a set.
pub uninterp spec fn native_elements(v: nodedb_types::Value) -> Option<Seq<nodedb_types::Value>>;

/// Calls `nodedb_types::Value::as_array` and copies the elements, which an array
/// or a set has. They are those named [`native_elements`].
#[verifier::external_body]
pub(crate) fn elements(v: &nodedb_types::Value) -> (r: Option<Vec<nodedb_types::Value>>)
    ensures
        match r {
            Some(items) => native_elements(*v) == Some(items@),
            None => native_elements(*v) is None,
        },
{
    v.as_array().map(|items| items.to_vec())
}

/// The coordinates and attributes of a dynamic value that is an array cell.
pub uninterp spec fn native_cell(v: nodedb_types::Value) -> Option<Seq<nodedb_types::Value>>;

/// Copies the coordinates of a `nodedb_types::Value::ArrayCell`, then its
/// attributes. They are those named [`native_cell`].
#[verifier::external_body]
pub(crate) fn cell_parts(v: &nodedb_types::Value) -> (r: Option<Vec<nodedb_types::Value>>)
    ensures
        match r {
            Some(parts) => native_cell(*v) == Some(parts@),
            None => native_cell(*v) is None,
        },
{
    match v {
        nodedb_types::Value::ArrayCell(c) => Some([c.coords.clone(), c.attrs.clone()].concat()),
        _ => None,
    }
}

/// Calls `str::parse` for a float. The result, as a dynamic value, is the one
/// named [`parsed_float`].
#[verifier::external_body]
pub(crate) fn parse_float(s: &str) -> (r: Option<nodedb_types::Value>)
    ensures
        r == parsed_float(s@),
{
    s.parse().ok().map(nodedb_types::Value::Float)
}

/// Copies a list of dynamic values.
pub fn copy_natives(values: &[nodedb_types::Value]) -> (r: Vec<nodedb_types::Value>)
    ensures
        r@ == values@,
{
    let mut out: Vec<nodedb_types::Value> = Vec::new();
    let mut i: usize = 0;
    while i < values.len()
        invariant
            i <= values@.len(),
            out@ == values@.take(i as int),
        decreases values@.len() - i,
    {
        out.push(copy_native(&values[i]));
        proof {
            assert(values@.take(i as int + 1) =~= values@.take(i as int).push(values@[i as int]));
        }
        i = i + 1;
    }
    proof {
        assert(values@.take(i as int) =~= values@);
    }
    out
}

/// The value of a field, null where there is none.
pub fn field_or_null_of(fields: &Vec<(String, nodedb_types::Value)>, name: &str) -> (r:
    nodedb_types::Value)
    requires
        wire::distinct_names(fields@),
    ensures
        r == field_or_null(wire::fields_map(fields@), name@),
{
    let mut i: usize = 0;
    while i < fields.len()
        invariant
            i <= fields@.len(),
            wire::distinct_names(fields@),
            forall|j: int| 0 <= j < i ==> (#[trigger] fields@[j]).0@ != name@,
        decreases fields@.len() - i,
    {
        if crate::text::str_eq(fields[i].0.as_str(), name) {
            proof {
                wire::lemma_fields_at(fields@, i as int);
            }
            return copy_native(&fields[i].1);
        }
        i = i + 1;
    }
    native(Datum::Null)
}

} // verus!
