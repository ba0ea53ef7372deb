//! Dynamic values as JSON, and documents as JSON text.
use crate::wire;
use vstd::prelude::*;

verus! {

/// What a dynamic value is, all the way down.
pub enum NativeTree {
    Null,
    Bool(bool),
    Integer(i64),
    /// A float, as the value itself.
    Float(nodedb_types::Value),
    String(Seq<char>),
    Array(Seq<NativeTree>),
    Object(Map<Seq<char>, NativeTree>),
    /// A value that JSON has no form for.
    Other,
}

/// One level of a dynamic value.
#[derive(Debug)]
pub enum NativeLevel {
    /// No value.
    Null,
    /// A boolean.
    Bool(bool),
    /// An integer.
    Integer(i64),
    /// A float, as the value itself.
    Float(nodedb_types::Value),
    /// A text.
    String(String),
    /// The elements of an array.
    Array(Vec<nodedb_types::Value>),
    /// The fields of an object.
    Object(Vec<(String, nodedb_types::Value)>),
    /// A value that JSON has no form for.
    Other,
}

/// A JSON value without parts.
#[derive(Debug)]
pub enum JsonScalar {
    /// No value.
    Null,
    /// A boolean.
    Bool(bool),
    /// An integer.
    Integer(i64),
    /// A float, as a dynamic value.
    Float(nodedb_types::Value),
    /// A text.
    String(String),
}

/// What a [`JsonScalar`] is.
pub enum ScalarView {
    Null,
    Bool(bool),
    Integer(i64),
    Float(nodedb_types::Value),
    String(Seq<char>),
}

impl View for JsonScalar {
    type V = ScalarView;

    open spec fn view(&self) -> ScalarView {
        match *self {
            JsonScalar::Null => ScalarView::Null,
            JsonScalar::Bool(b) => ScalarView::Bool(b),
            JsonScalar::Integer(i) => ScalarView::Integer(i),
            JsonScalar::Float(f) => ScalarView::Float(f),
            JsonScalar::String(s) => ScalarView::String(s@),
        }
    }
}

/// What a `nodedb_types::Value` holds.
pub uninterp spec fn native_tree(v: nodedb_types::Value) -> NativeTree;

/// The `serde_json::Value` without parts that stands for a scalar.
pub uninterp spec fn json_scalar(s: ScalarView) -> serde_json::Value;

/// The `serde_json::Value` that is an array of these elements.
pub uninterp spec fn json_array(items: Seq<serde_json::Value>) -> serde_json::Value;

/// The `serde_json::Value` that is an object with these fields.
pub uninterp spec fn json_object(fields: Map<Seq<char>, serde_json::Value>) -> serde_json::Value;

/// What `sonic_rs::to_string` writes for a JSON value, none where it fails.
pub uninterp spec fn json_text(v: serde_json::Value) -> Option<Seq<char>>;

/// What the elements are.
pub open spec fn item_trees(items: Seq<nodedb_types::Value>) -> Seq<NativeTree> {
    items.map_values(|v: nodedb_types::Value| native_tree(v))
}

/// What the fields are.
pub open spec fn field_trees(fields: Seq<(String, nodedb_types::Value)>) -> Map<
    Seq<char>,
    NativeTree,
>
    decreases fields.len(),
{
    if fields.len() == 0 {
        Map::empty()
    } else {
        field_trees(fields.drop_last()).insert(fields.last().0@, native_tree(fields.last().1))
    }
}

/// The map that a list of JSON entries with distinct names stands for.
pub open spec fn entry_map(entries: Seq<(String, serde_json::Value)>) -> Map<
    Seq<char>,
    serde_json::Value,
>
    decreases entries.len(),
{
    if entries.len() == 0 {
        Map::empty()
    } else {
        entry_map(entries.drop_last()).insert(entries.last().0@, entries.last().1)
    }
}

/// Tells the variants of a `nodedb_types::Value` apart and takes out what they
/// hold. The parts are those of the tree named [`native_tree`]; an object has
/// each name once.
#[verifier::external_body]
pub(crate) fn native_level(v: nodedb_types::Value) -> (r: NativeLevel)
    ensures
        match r {
            NativeLevel::Null => native_tree(v) is Null,
            NativeLevel::Bool(b) => native_tree(v) == NativeTree::Bool(b),
            NativeLevel::Integer(i) => native_tree(v) == NativeTree::Integer(i),
            NativeLevel::Float(f) => native_tree(v) == NativeTree::Float(f) && f == v,
            NativeLevel::String(s) => native_tree(v) == NativeTree::String(s@),
            NativeLevel::Array(items) => native_tree(v) == NativeTree::Array(item_trees(items@)),
            NativeLevel::Object(fields) => wire::distinct_names(fields@) && native_tree(v)
                == NativeTree::Object(field_trees(fields@)),
            NativeLevel::Other => native_tree(v) is Other,
        },
{
    match v {
        nodedb_types::Value::Null => NativeLevel::Null,
        nodedb_types::Value::Bool(b) => NativeLevel::Bool(b),
        nodedb_types::Value::Integer(i) => NativeLevel::Integer(i),
        nodedb_types::Value::Float(_) => NativeLevel::Float(v),
        nodedb_types::Value::String(s) => NativeLevel::String(s),
        nodedb_types::Value::Array(items) => NativeLevel::Array(items),
        nodedb_types::Value::Object(map) => NativeLevel::Object(map.into_iter().collect()),
        _ => NativeLevel::Other,
    }
}

/// Calls `serde_json::Value::from` for a scalar. The result is the one named
/// [`json_scalar`].
#[verifier::external_body]
fn scalar_to_json(s: JsonScalar) -> (r: serde_json::Value)
    ensures
        r == json_scalar(s@),
{
    match s {
        JsonScalar::Null => serde_json::Value::Null,
        JsonScalar::Bool(b) => serde_json::Value::from(b),
        JsonScalar::Integer(i) => serde_json::Value::from(i),
        JsonScalar::Float(nodedb_types::Value::Float(f)) => serde_json::Value::from(f),
        JsonScalar::Float(_) => serde_json::Value::Null,
        JsonScalar::String(s) => serde_json::Value::from(s),
    }
}

/// Makes a `serde_json::Value` that is an array. The result is the one named
/// [`json_array`].
#[verifier::external_body]
fn items_to_json(items: Vec<serde_json::Value>) -> (r: serde_json::Value)
    ensures
        r == json_array(items@),
{
    serde_json::Value::Array(items)
}

/// Makes a `serde_json::Value` that is an object. The result, whatever the order
/// of the entries, is the one named [`json_object`].
#[verifier::external_body]
fn entries_to_json(entries: Vec<(String, serde_json::Value)>) -> (r: serde_json::Value)
    requires
        crate::json::distinct_entries(entries@),
    ensures
        r == json_object(entry_map(entries@)),
{
    serde_json::Value::Object(entries.into_iter().collect())
}

/// Calls `sonic_rs::to_string`. The result is the one named [`json_text`].
#[verifier::external_body]
fn json_to_text(v: &serde_json::Value) -> (r: Option<String>)
    ensures
        match r {
            Some(s) => json_text(*v) == Some(s@),
            None => json_text(*v) is None,
        },
{
    sonic_rs::to_string(v).ok()
}

/// The JSON value of a dynamic value. What JSON has no form for is null.
pub open spec fn json_of(t: NativeTree) -> serde_json::Value
    decreases t,
{
    match t {
        NativeTree::Null => json_scalar(ScalarView::Null),
        NativeTree::Bool(b) => json_scalar(ScalarView::Bool(b)),
        NativeTree::Integer(i) => json_scalar(ScalarView::Integer(i)),
        NativeTree::Float(f) => json_scalar(ScalarView::Float(f)),
        NativeTree::String(s) => json_scalar(ScalarView::String(s)),
        NativeTree::Array(items) => json_array(json_items(items)),
        NativeTree::Object(fields) => json_object(json_fields(fields)),
        NativeTree::Other => json_scalar(ScalarView::Null),
    }
}

/// The JSON values of several dynamic values.
pub open spec fn json_items(items: Seq<NativeTree>) -> Seq<serde_json::Value>
    decreases items,
{
    if items.len() == 0 {
        Seq::empty()
    } else {
        json_items(items.drop_last()).push(json_of(items.last()))
    }
}

/// The JSON values of the fields of an object.
pub open spec fn json_fields(fields: Map<Seq<char>, NativeTree>) -> Map<
    Seq<char>,
    serde_json::Value,
>
    decreases fields,
{
    Map::new(
        |name: Seq<char>| fields.dom().contains(name),
        |name: Seq<char>|
            if fields.dom().finite() && fields.dom().contains(name) {
                json_of(fields[name])
            } else {
                json_scalar(ScalarView::Null)
            },
    )
}

proof fn lemma_items(items: Seq<NativeTree>)
    ensures
        json_items(items).len() == items.len(),
        forall|i: int|
            0 <= i < items.len() ==> #[trigger] json_items(items)[i] == json_of(items[i]),
    decreases items.len(),
{
    if items.len() > 0 {
        lemma_items(items.drop_last());
    }
}

proof fn lemma_field_trees(fields: Seq<(String, nodedb_types::Value)>)
    requires
        wire::distinct_names(fields),
    ensures
        field_trees(fields).dom().finite(),
        forall|i: int|
            0 <= i < fields.len() ==> field_trees(fields).dom().contains(
                (#[trigger] fields[i]).0@,
            ) && field_trees(fields)[fields[i].0@] == native_tree(fields[i].1),
    decreases fields.len(),
{
    if fields.len() > 0 {
        let rest = fields.drop_last();
        assert forall|i: int, j: int| 0 <= i < j < rest.len() implies (#[trigger] rest[i]).0@ != (
        #[trigger] rest[j]).0@ by {
            assert(fields[i].0@ != fields[j].0@);
        }
        lemma_field_trees(rest);
        let last = fields.len() - 1;
        assert forall|i: int| 0 <= i < fields.len() implies field_trees(fields).dom().contains(
            (#[trigger] fields[i]).0@,
        ) && field_trees(fields)[fields[i].0@] == native_tree(fields[i].1) by {
            if i < last {
                assert(rest[i] == fields[i]);
                assert(fields[i].0@ != fields[last].0@);
            }
        }
    }
}

proof fn lemma_entries(
    entries: Seq<(String, serde_json::Value)>,
    fields: Seq<(String, nodedb_types::Value)>,
)
    requires
        wire::distinct_names(fields),
        entries.len() == fields.len(),
        forall|j: int|
            0 <= j < fields.len() ==> (#[trigger] entries[j]).0@ == fields[j].0@ && entries[j].1
                == json_of(native_tree(fields[j].1)),
    ensures
        entry_map(entries) == json_fields(field_trees(fields)),
    decreases fields.len(),
{
    lemma_field_trees(fields);
    if fields.len() == 0 {
        assert(entry_map(entries) =~= json_fields(field_trees(fields)));
    } else {
        let rest = fields.drop_last();
        let before = entries.drop_last();
        assert forall|i: int, j: int| 0 <= i < j < rest.len() implies (#[trigger] rest[i]).0@ != (
        #[trigger] rest[j]).0@ by {
            assert(fields[i].0@ != fields[j].0@);
        }
        assert forall|j: int| 0 <= j < rest.len() implies (#[trigger] before[j]).0@ == rest[j].0@
            && before[j].1 == json_of(native_tree(rest[j].1)) by {
            assert(entries[j].0@ == fields[j].0@);
        }
        lemma_entries(before, rest);
        lemma_field_trees(rest);
        assert(entries[entries.len() - 1].0@ == fields[fields.len() - 1].0@);
        assert(entry_map(entries) =~= json_fields(field_trees(fields)));
    }
}

/// Converts a dynamic value to JSON.
pub fn value_to_serde_json(v: nodedb_types::Value) -> (r: serde_json::Value)
    ensures
        r == json_of(native_tree(v)),
    decreases native_tree(v),
{
    match native_level(v) {
        NativeLevel::Null => scalar_to_json(JsonScalar::Null),
        NativeLevel::Bool(b) => scalar_to_json(JsonScalar::Bool(b)),
        NativeLevel::Integer(i) => scalar_to_json(JsonScalar::Integer(i)),
        NativeLevel::Float(f) => scalar_to_json(JsonScalar::Float(f)),
        NativeLevel::String(s) => scalar_to_json(JsonScalar::String(s)),
        NativeLevel::Array(items) => {
            let ghost all = item_trees(items@);
            let mut out: Vec<serde_json::Value> = Vec::new();
            for item in it: items
                invariant
                    native_tree(v) == NativeTree::Array(all),
                    it.seq() == items@,
                    all == item_trees(items@),
                    out@.len() == it.index(),
                    forall|j: int| 0 <= j < it.index() ==> #[trigger] out@[j] == json_of(all[j]),
            {
                proof {
                    let parts = native_tree(v)->Array_0;
                    assert(parts[it.index() as int] == native_tree(item));
                    assert(decreases_to!(native_tree(v) => parts));
                    assert(decreases_to!(parts => parts[it.index() as int]));
                }
                out.push(value_to_serde_json(item));
            }
            proof {
                lemma_items(all);
                assert(out@ =~= json_items(all));
            }
            items_to_json(out)
        },
        NativeLevel::Object(fields) => {
            assert(decreases_to!(native_tree(v) => native_tree(v)->Object_0));
            fields_to_json(fields)
        },
        NativeLevel::Other => scalar_to_json(JsonScalar::Null),
    }
}

/// Converts the fields of an object to JSON.
pub fn fields_to_json(fields: Vec<(String, nodedb_types::Value)>) -> (r: serde_json::Value)
    requires
        wire::distinct_names(fields@),
    ensures
        r == json_object(json_fields(field_trees(fields@))),
    decreases field_trees(fields@),
{
    let ghost all = field_trees(fields@);
    let mut out: Vec<(String, serde_json::Value)> = Vec::new();
    proof {
        lemma_field_trees(fields@);
    }
    for field in it: fields
        invariant
            it.seq() == fields@,
            wire::distinct_names(fields@),
            all == field_trees(fields@),
            all.dom().finite(),
            forall|i: int|
                0 <= i < fields@.len() ==> all.dom().contains((#[trigger] fields@[i]).0@)
                    && all[fields@[i].0@] == native_tree(fields@[i].1),
            out@.len() == it.index(),
            forall|j: int|
                0 <= j < it.index() ==> (#[trigger] out@[j]).0@ == fields@[j].0@ && out@[j].1
                    == json_of(native_tree(fields@[j].1)),
    {
        proof {
            assert(fields@[it.index() as int] == field);
            assert(decreases_to!(all => all[field.0@]));
        }
        out.push((field.0, value_to_serde_json(field.1)));
    }
    proof {
        assert forall|i: int, j: int| 0 <= i < j < out@.len() implies (#[trigger] out@[i]).0@ != (
        #[trigger] out@[j]).0@ by {
            assert(fields@[i].0@ != fields@[j].0@);
        }
        lemma_entries(out@, fields@);
    }
    entries_to_json(out)
}

/// The text of a document with these fields: an empty object where it cannot be
/// written.
pub open spec fn fields_text(fields: Map<Seq<char>, NativeTree>) -> Seq<char> {
    match json_text(json_object(json_fields(fields))) {
        Some(s) => s,
        None => "{}"@,
    }
}

/// What named values are.
pub open spec fn map_trees(fields: Map<Seq<char>, nodedb_types::Value>) -> Map<
    Seq<char>,
    NativeTree,
> {
    fields.map_values(|v: nodedb_types::Value| native_tree(v))
}

proof fn lemma_map_trees(fields: Seq<(String, nodedb_types::Value)>)
    requires
        wire::distinct_names(fields),
    ensures
        field_trees(fields) == map_trees(wire::fields_map(fields)),
    decreases fields.len(),
{
    if fields.len() == 0 {
        assert(field_trees(fields) =~= map_trees(wire::fields_map(fields)));
    } else {
        let rest = fields.drop_last();
        let last = fields.len() - 1;
        assert forall|i: int, j: int| 0 <= i < j < rest.len() implies (#[trigger] rest[i]).0@ != (
        #[trigger] rest[j]).0@ by {
            assert(fields[i].0@ != fields[j].0@);
        }
        lemma_map_trees(rest);
        assert forall|j: int| 0 <= j < last implies (#[trigger] rest[j]).0@ != fields[last].0@ by {
            assert(fields[j].0@ != fields[last].0@);
        }
        wire::lemma_fields_push(rest, fields, fields[last].0@, fields[last].1);
        assert(field_trees(fields) =~= map_trees(wire::fields_map(fields)));
    }
}

/// The text of a document whose fields were read, an empty object where they
/// could not be.
pub open spec fn text_of(fields: Option<Map<Seq<char>, nodedb_types::Value>>) -> Seq<char> {
    match fields {
        Some(m) => fields_text(map_trees(m)),
        None => "{}"@,
    }
}

/// The text of a document whose fields were read, an empty object where they
/// could not be.
pub fn document_text(fields: Option<Vec<(String, nodedb_types::Value)>>) -> (r: String)
    requires
        fields is Some ==> wire::distinct_names(fields->Some_0@),
    ensures
        r@ == text_of(
            match fields {
                Some(f) => Some(wire::fields_map(f@)),
                None => None,
            },
        ),
{
    match fields {
        Some(f) => {
            proof {
                lemma_map_trees(f@);
            }
            let v = fields_to_json(f);
            match json_to_text(&v) {
                Some(s) => s,
                None => "{}".to_owned(),
            }
        },
        None => "{}".to_owned(),
    }
}

/// A dynamic value is rendered as the JSON value of its kind with the same
/// contents: an array element by element, an object field by field.
pub proof fn rendered_value_keeps_its_parts(t: NativeTree)
    ensures
        t is Null ==> json_of(t) == json_scalar(ScalarView::Null),
        t matches NativeTree::Bool(b) ==> json_of(t) == json_scalar(ScalarView::Bool(b)),
        t matches NativeTree::Integer(i) ==> json_of(t) == json_scalar(ScalarView::Integer(i)),
        t matches NativeTree::Float(f) ==> json_of(t) == json_scalar(ScalarView::Float(f)),
        t matches NativeTree::String(s) ==> json_of(t) == json_scalar(ScalarView::String(s)),
        t matches NativeTree::Array(items) ==> exists|parts: Seq<serde_json::Value>| #[trigger]
            json_array(parts) == json_of(t) && parts.len() == items.len() && forall|i: int|
                0 <= i < items.len() ==> #[trigger] parts[i] == json_of(items[i]),
        t matches NativeTree::Object(fields) ==> fields.dom().finite() ==> exists|
            parts: Map<Seq<char>, serde_json::Value>,
        | #[trigger]
            json_object(parts) == json_of(t) && parts.dom() == fields.dom() && forall|
                name: Seq<char>,
            | #[trigger]
                fields.dom().contains(name) ==> parts[name] == json_of(fields[name]),
{
    match t {
        NativeTree::Array(items) => {
            lemma_items(items);
            assert(json_array(json_items(items)) == json_of(t));
        },
        NativeTree::Object(fields) => {
            let parts = json_fields(fields);
            assert(json_object(parts) == json_of(t));
            assert(parts.dom() =~= fields.dom());
        },
        _ => {},
    }
}

/// A document is rendered as an object of its fields, and one whose fields could
/// not be read as an empty object.
pub proof fn document_text_is_an_object(
    fields: Map<Seq<char>, nodedb_types::Value>,
    parts: Map<Seq<char>, serde_json::Value>,
)
    requires
        fields.dom().finite(),
        parts.dom() == fields.dom(),
        forall|name: Seq<char>| #[trigger]
            fields.dom().contains(name) ==> parts[name] == json_of(native_tree(fields[name])),
    ensures
        json_text(json_object(parts)) is Some ==> text_of(Some(fields)) == json_text(
            json_object(parts),
        )->0,
        json_text(json_object(parts)) is None ==> text_of(Some(fields)) == "{}"@,
        text_of(None) == "{}"@,
{
    let trees = map_trees(fields);
    assert(trees.dom() =~= fields.dom());
    assert(json_fields(trees) =~= parts);
}

} // verus!
