//! JSON values of the `serde_json` crate and their conversion to dynamic
//! values.
use crate::columnar::rows;
use crate::error::{ErrorView, LiteError};
use crate::native;
use crate::value::{names_view, Datum, DatumView};
use crate::wire;
use vstd::prelude::*;

verus! {

/// A JSON value.
#[verifier::external_type_specification]
#[verifier::external_body]
pub struct ExJsonValue(serde_json::Value);

/// A JSON number.
#[verifier::external_type_specification]
#[verifier::external_body]
pub struct ExJsonNumber(serde_json::Number);

/// What a JSON value is, all the way down.
pub enum JsonTree {
    Null,
    Bool(bool),
    Number(serde_json::Number),
    String(Seq<char>),
    Array(Seq<JsonTree>),
    /// The names and values of the entries, in the order of the value.
    Object(Seq<(Seq<char>, JsonTree)>),
}

/// One level of a JSON value.
#[derive(Debug)]
pub enum JsonShape {
    /// No value.
    Null,
    /// A boolean.
    Bool(bool),
    /// A number.
    Number(serde_json::Number),
    /// A string.
    String(String),
    /// The elements of an array.
    Array(Vec<serde_json::Value>),
    /// The entries of an object.
    Object(Vec<(String, serde_json::Value)>),
}

/// What a `serde_json::Value` holds.
pub uninterp spec fn json_tree(v: serde_json::Value) -> JsonTree;

/// What `sonic_rs::from_slice` reads from `bytes`, or the text of its error.
pub uninterp spec fn decoded_json(bytes: Seq<u8>) -> Result<serde_json::Value, Seq<char>>;

/// The integer that `serde_json::Number::as_i64` gives for a number.
pub uninterp spec fn number_int(n: serde_json::Number) -> Option<i64>;

/// The float that `serde_json::Number::as_f64` gives for a number, as a
/// dynamic value.
pub uninterp spec fn number_float(n: serde_json::Number) -> Option<nodedb_types::Value>;

/// What the elements are.
pub open spec fn trees(items: Seq<serde_json::Value>) -> Seq<JsonTree> {
    items.map_values(|v: serde_json::Value| json_tree(v))
}

/// What the entries are.
pub open spec fn entry_trees(entries: Seq<(String, serde_json::Value)>) -> Seq<
    (Seq<char>, JsonTree),
> {
    entries.map_values(|e: (String, serde_json::Value)| (e.0@, json_tree(e.1)))
}

/// No two entries share a name.
pub open spec fn distinct_entries(entries: Seq<(String, serde_json::Value)>) -> bool {
    forall|i: int, j: int|
        0 <= i < j < entries.len() ==> (#[trigger] entries[i]).0@ != (#[trigger] entries[j]).0@
}

/// Calls `sonic_rs::from_slice` for a JSON value. The result is the one named
/// [`decoded_json`].
#[verifier::external_body]
pub(crate) fn decode_json(bytes: &[u8]) -> (r: Result<serde_json::Value, String>)
    ensures
        match r {
            Ok(v) => decoded_json(bytes@) == Ok::<serde_json::Value, Seq<char>>(v),
            Err(e) => decoded_json(bytes@) == Err::<serde_json::Value, Seq<char>>(e@),
        },
{
    sonic_rs::from_slice(bytes).map_err(|e| e.to_string())
}

/// Tells the variants of a `serde_json::Value` apart and takes out what they
/// hold. The parts are those of the tree named [`json_tree`]; an object has
/// each name once.
#[verifier::external_body]
pub(crate) fn json_shape(v: serde_json::Value) -> (r: JsonShape)
    ensures
        match r {
            JsonShape::Null => json_tree(v) is Null,
            JsonShape::Bool(b) => json_tree(v) == JsonTree::Bool(b),
            JsonShape::Number(n) => json_tree(v) == JsonTree::Number(n),
            JsonShape::String(s) => json_tree(v) == JsonTree::String(s@),
            JsonShape::Array(items) => json_tree(v) == JsonTree::Array(trees(items@)),
            JsonShape::Object(entries) => distinct_entries(entries@) && json_tree(v)
                == JsonTree::Object(entry_trees(entries@)),
        },
{
    match v {
        serde_json::Value::Null => JsonShape::Null,
        serde_json::Value::Bool(b) => JsonShape::Bool(b),
        serde_json::Value::Number(n) => JsonShape::Number(n),
        serde_json::Value::String(s) => JsonShape::String(s),
        serde_json::Value::Array(items) => JsonShape::Array(items),
        serde_json::Value::Object(map) => JsonShape::Object(map.into_iter().collect()),
    }
}

/// Calls `serde_json::Number::as_i64`. The result is the one named
/// [`number_int`].
#[verifier::external_body]
pub(crate) fn number_as_int(n: &serde_json::Number) -> (r: Option<i64>)
    ensures
        r == number_int(*n),
{
    n.as_i64()
}

/// Calls `serde_json::Number::as_f64`. The result, as a dynamic value, is the
/// one named [`number_float`].
#[verifier::external_body]
pub(crate) fn number_as_float(n: &serde_json::Number) -> (r: Option<nodedb_types::Value>)
    ensures
        r == number_float(*n),
{
    n.as_f64().map(nodedb_types::Value::Float)
}

/// The dynamic value of a JSON value: an integer where the number is one that
/// fits, else a float.
pub open spec fn converted(t: JsonTree) -> nodedb_types::Value
    decreases t,
{
    match t {
        JsonTree::Null => native::null(),
        JsonTree::Bool(b) => native::native_of(DatumView::Bool(b)),
        JsonTree::Number(n) => match number_int(n) {
            Some(i) => native::native_of(DatumView::Integer(i)),
            None => match number_float(n) {
                Some(f) => f,
                None => native::null(),
            },
        },
        JsonTree::String(s) => native::native_of(DatumView::String(s)),
        JsonTree::Array(items) => native::native_array(converted_items(items)),
        JsonTree::Object(entries) => native::native_object(converted_entries(entries)),
    }
}

/// The dynamic values of several JSON values.
pub open spec fn converted_items(items: Seq<JsonTree>) -> Seq<nodedb_types::Value>
    decreases items,
{
    if items.len() == 0 {
        Seq::empty()
    } else {
        converted_items(items.drop_last()).push(converted(items.last()))
    }
}

proof fn lemma_items(items: Seq<JsonTree>)
    ensures
        converted_items(items).len() == items.len(),
        forall|i: int|
            0 <= i < items.len() ==> #[trigger] converted_items(items)[i] == converted(items[i]),
    decreases items.len(),
{
    if items.len() > 0 {
        lemma_items(items.drop_last());
    }
}

/// The fields of an object with these entries, each name once.
pub open spec fn converted_entries(entries: Seq<(Seq<char>, JsonTree)>) -> Map<
    Seq<char>,
    nodedb_types::Value,
>
    decreases entries,
{
    if entries.len() == 0 {
        Map::empty()
    } else {
        converted_entries(entries.drop_last()).insert(entries.last().0, converted(entries.last().1))
    }
}

proof fn lemma_entries(
    fields: Seq<(String, nodedb_types::Value)>,
    entries: Seq<(Seq<char>, JsonTree)>,
)
    requires
        wire::distinct_names(fields),
        fields.len() == entries.len(),
        forall|j: int|
            0 <= j < fields.len() ==> (#[trigger] fields[j]).0@ == entries[j].0 && fields[j].1
                == converted(entries[j].1),
    ensures
        wire::fields_map(fields) == converted_entries(entries),
    decreases fields.len(),
{
    if fields.len() == 0 {
        assert(wire::fields_map(fields) =~= Map::<Seq<char>, nodedb_types::Value>::empty());
    } else {
        let n = fields.len() - 1;
        assert(wire::distinct_names(fields.drop_last())) by {
            assert forall|i: int, j: int| 0 <= i < j < n implies (
            #[trigger] fields.drop_last()[i]).0@ != (#[trigger] fields.drop_last()[j]).0@ by {
                assert(fields[i].0@ != fields[j].0@);
            }
        }
        assert forall|j: int| 0 <= j < n implies (#[trigger] fields.drop_last()[j]).0@
            == entries.drop_last()[j].0 && fields.drop_last()[j].1 == converted(
            entries.drop_last()[j].1,
        ) by {
            assert(fields[j].0@ == entries[j].0);
        }
        lemma_entries(fields.drop_last(), entries.drop_last());
        assert(fields[n].0@ == entries[n].0);
        assert forall|j: int| 0 <= j < n implies (#[trigger] fields.drop_last()[j]).0@
            != fields[n].0@ by {
            assert(fields[j].0@ != fields[n].0@);
        }
        wire::lemma_fields_push(fields.drop_last(), fields, fields[n].0@, fields[n].1);
    }
}

/// Converts a JSON value.
pub fn json_value_to_ndb(v: serde_json::Value) -> (r: nodedb_types::Value)
    ensures
        r == converted(json_tree(v)),
    decreases json_tree(v),
{
    match json_shape(v) {
        JsonShape::Null => native::native(Datum::Null),
        JsonShape::Bool(b) => native::native(Datum::Bool(b)),
        JsonShape::Number(n) => match number_as_int(&n) {
            Some(i) => native::native(Datum::Integer(i)),
            None => match number_as_float(&n) {
                Some(f) => f,
                None => native::native(Datum::Null),
            },
        },
        JsonShape::String(s) => native::native(Datum::String(s)),
        JsonShape::Array(items) => {
            let ghost all = trees(items@);
            let mut out: Vec<nodedb_types::Value> = Vec::new();
            for item in it: items
                invariant
                    json_tree(v) == JsonTree::Array(all),
                    it.seq() == items@,
                    all == trees(items@),
                    out@.len() == it.index(),
                    forall|j: int| 0 <= j < it.index() ==> #[trigger] out@[j] == converted(all[j]),
            {
                proof {
                    let parts = json_tree(v)->Array_0;
                    assert(parts[it.index() as int] == json_tree(item));
                    assert(decreases_to!(json_tree(v) => parts));
                    assert(decreases_to!(parts => parts[it.index() as int]));
                }
                out.push(json_value_to_ndb(item));
            }
            proof {
                lemma_items(all);
                assert(out@ =~= converted_items(all));
            }
            native::native_list(out)
        },
        JsonShape::Object(entries) => {
            assert(decreases_to!(json_tree(v) => json_tree(v)->Object_0));
            native::native_record(convert_entries(entries))
        },
    }
}

/// Converts the entries of an object.
pub(crate) fn convert_entries(entries: Vec<(String, serde_json::Value)>) -> (r: Vec<
    (String, nodedb_types::Value),
>)
    requires
        distinct_entries(entries@),
    ensures
        wire::distinct_names(r@),
        wire::fields_map(r@) == converted_entries(entry_trees(entries@)),
    decreases entry_trees(entries@),
{
    let ghost all = entry_trees(entries@);
    let mut out: Vec<(String, nodedb_types::Value)> = Vec::new();
    for entry in it: entries
        invariant
            it.seq() == entries@,
            distinct_entries(entries@),
            all == entry_trees(entries@),
            out@.len() == it.index(),
            forall|j: int|
                0 <= j < it.index() ==> (#[trigger] out@[j]).0@ == all[j].0 && out@[j].1
                    == converted(all[j].1),
    {
        proof {
            let at = it.index() as int;
            assert(all[at] == (entry.0@, json_tree(entry.1)));
            assert(decreases_to!(all => all[at]));
            assert(decreases_to!(all[at] => all[at].1));
        }
        out.push((entry.0, json_value_to_ndb(entry.1)));
    }
    proof {
        assert forall|i: int, j: int| 0 <= i < j < out@.len() implies (#[trigger] out@[i]).0@ != (
        #[trigger] out@[j]).0@ by {
            assert(entries@[i].0@ != entries@[j].0@);
            assert(all[i].0 == entries@[i].0@);
            assert(all[j].0 == entries@[j].0@);
        }
        lemma_entries(out@, all);
    }
    out
}

/// The row of a JSON object, in the order of the columns.
pub open spec fn json_row(t: JsonTree, columns: Seq<Seq<char>>) -> Result<
    Seq<nodedb_types::Value>,
    ErrorView,
> {
    match t {
        JsonTree::Object(entries) => Ok(rows::row_of(converted_entries(entries), columns)),
        _ => Err(ErrorView::Serialization("each element in JSON array must be an object"@)),
    }
}

/// Puts the entries of a JSON object in the order of the columns.
pub fn json_object_to_row(obj: serde_json::Value, columns: &[String]) -> (r: Result<
    Vec<nodedb_types::Value>,
    LiteError,
>)
    ensures
        match r {
            Ok(row) => json_row(json_tree(obj), names_view(columns@)) == Ok::<
                Seq<nodedb_types::Value>,
                ErrorView,
            >(row@),
            Err(e) => json_row(json_tree(obj), names_view(columns@)) == Err::<
                Seq<nodedb_types::Value>,
                ErrorView,
            >(e@),
        },
{
    match json_shape(obj) {
        JsonShape::Object(entries) => {
            let fields = convert_entries(entries);
            Ok(rows::ordered_row(&fields, columns))
        },
        _ => Err(
            LiteError::Serialization {
                detail: "each element in JSON array must be an object".to_owned(),
            },
        ),
    }
}

} // verus!
