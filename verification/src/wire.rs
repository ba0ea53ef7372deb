//! The MessagePack wire format, as the `zerompk` crate reads and writes it.
//!
//! What a byte string decodes to is given a name here. The contracts of the
//! engines speak of those names.
use crate::native;
use crate::query::engine;
use crate::value::DatumView;
use vstd::prelude::*;

verus! {

/// What `zerompk::from_msgpack` reads from `bytes` as a signed integer.
pub uninterp spec fn decoded_i64(bytes: Seq<u8>) -> Option<i64>;

/// What `zerompk::to_msgpack_vec` writes for a signed integer.
pub uninterp spec fn encoded_i64(v: i64) -> Seq<u8>;

/// What `zerompk::from_msgpack` reads from `bytes` as a dynamic value, or the
/// text of its error.
pub uninterp spec fn decoded_native(bytes: Seq<u8>) -> Result<nodedb_types::Value, Seq<char>>;

/// What `zerompk::from_msgpack` reads from `bytes` as a map from field names
/// to dynamic values, or the text of its error.
pub uninterp spec fn decoded_fields(bytes: Seq<u8>) -> Result<
    Map<Seq<char>, nodedb_types::Value>,
    Seq<char>,
>;

/// No two entries share a name.
pub open spec fn distinct_names(fields: Seq<(String, nodedb_types::Value)>) -> bool {
    forall|i: int, j: int|
        0 <= i < j < fields.len() ==> (#[trigger] fields[i]).0@ != (#[trigger] fields[j]).0@
}

/// Whether some entry has this name.
pub open spec fn has_field(fields: Seq<(String, nodedb_types::Value)>, name: Seq<char>) -> bool {
    exists|i: int| 0 <= i < fields.len() && (#[trigger] fields[i]).0@ == name
}

/// The map that a list of entries with distinct names stands for.
pub open spec fn fields_map(fields: Seq<(String, nodedb_types::Value)>) -> Map<
    Seq<char>,
    nodedb_types::Value,
> {
    Map::new(
        |name: Seq<char>| has_field(fields, name),
        |name: Seq<char>|
            fields[choose|i: int| 0 <= i < fields.len() && (#[trigger] fields[i]).0@ == name].1,
    )
}

/// Whether `bytes` are an encoding of `map`: short enough for the format's
/// length fields, they read back as exactly that map.
pub open spec fn encodes_fields(bytes: Seq<u8>, map: Map<Seq<char>, nodedb_types::Value>) -> bool {
    bytes.len() <= u32::MAX ==> decoded_fields(bytes) == Ok::<
        Map<Seq<char>, nodedb_types::Value>,
        Seq<char>,
    >(map)
}

/// Whether `zerompk::from_msgpack` gives a dynamic value back from what
/// `zerompk::to_msgpack_vec` writes for it.
pub uninterp spec fn readable(v: nodedb_types::Value) -> bool;

/// Whether a dynamic value can be stored and read back: it is plain, a float, or
/// was read before.
pub open spec fn storable(v: nodedb_types::Value) -> bool {
    plain(v) || engine::native_kind_of(v) is Float || readable(v)
}

/// Whether the values of all entries can be stored and read back.
pub open spec fn all_storable(fields: Seq<(String, nodedb_types::Value)>) -> bool {
    forall|i: int| 0 <= i < fields.len() ==> storable((#[trigger] fields[i]).1)
}

/// Calls `zerompk::from_msgpack` for a signed integer. The result is the one
/// named [`decoded_i64`].
#[verifier::external_body]
pub(crate) fn decode_i64(bytes: &[u8]) -> (r: Option<i64>)
    ensures
        r == decoded_i64(bytes@),
{
    zerompk::from_msgpack(bytes).ok()
}

/// Calls `zerompk::to_msgpack_vec` for a signed integer. Writing an integer
/// into a growing buffer cannot fail, and reading it back yields the integer.
#[verifier::external_body]
pub(crate) fn encode_i64(v: i64) -> (r: Result<Vec<u8>, String>)
    ensures
        match r {
            Ok(b) => b@ == encoded_i64(v) && decoded_i64(b@) == Some(v),
            Err(_) => false,
        },
{
    zerompk::to_msgpack_vec(&v).map_err(|e| e.to_string())
}

/// The float, as a dynamic value, that `zerompk::from_msgpack` reads from `bytes`.
pub uninterp spec fn decoded_float(bytes: Seq<u8>) -> Option<nodedb_types::Value>;

/// What `zerompk::to_msgpack_vec` writes for the float in a dynamic value, none
/// for a value that is no float.
pub uninterp spec fn encoded_float(v: nodedb_types::Value) -> Option<Seq<u8>>;

/// Calls `zerompk::from_msgpack` for a float. The result, as a dynamic value, is
/// the one named [`decoded_float`].
#[verifier::external_body]
pub(crate) fn decode_float(bytes: &[u8]) -> (r: Option<nodedb_types::Value>)
    ensures
        r == decoded_float(bytes@),
{
    zerompk::from_msgpack(bytes).ok().map(nodedb_types::Value::Float)
}

/// Calls `zerompk::to_msgpack_vec` for the float in a dynamic value. The result
/// is the one named [`encoded_float`], and reading it back yields the value.
#[verifier::external_body]
pub(crate) fn encode_float(v: &nodedb_types::Value) -> (r: Option<Vec<u8>>)
    ensures
        match r {
            Some(b) => encoded_float(*v) == Some(b@) && decoded_float(b@) == Some(*v),
            None => encoded_float(*v) is None,
        },
{
    match v {
        nodedb_types::Value::Float(x) => zerompk::to_msgpack_vec(x).ok(),
        _ => None,
    }
}

/// Calls `zerompk::from_msgpack` for a dynamic value. The result is the one
/// named [`decoded_native`]. A value that was read can be written and read
/// again: it is [`readable`].
#[verifier::external_body]
pub(crate) fn decode_native(bytes: &[u8]) -> (r: Result<nodedb_types::Value, String>)
    ensures
        match r {
            Ok(v) => decoded_native(bytes@) == Ok::<nodedb_types::Value, Seq<char>>(v) && readable(
                v,
            ),
            Err(e) => decoded_native(bytes@) == Err::<nodedb_types::Value, Seq<char>>(e@),
        },
{
    zerompk::from_msgpack(bytes).map_err(|e| e.to_string())
}

/// Calls `zerompk::from_msgpack` for a map from names to dynamic values. The
/// entries, in no particular order, are those of the map named
/// [`decoded_fields`]. A value that was read can be written and read again: it
/// is [`readable`].
#[verifier::external_body]
pub(crate) fn decode_fields(bytes: &[u8]) -> (r: Result<
    Vec<(String, nodedb_types::Value)>,
    String,
>)
    ensures
        match r {
            Ok(f) => distinct_names(f@) && decoded_fields(bytes@) == Ok::<
                Map<Seq<char>, nodedb_types::Value>,
                Seq<char>,
            >(fields_map(f@)) && forall|i: int|
                0 <= i < f@.len() ==> readable((#[trigger] f@[i]).1),
            Err(e) => decoded_fields(bytes@) == Err::<
                Map<Seq<char>, nodedb_types::Value>,
                Seq<char>,
            >(e@),
        },
{
    let map: Result<std::collections::HashMap<String, nodedb_types::Value>, zerompk::Error> =
        zerompk::from_msgpack(bytes);
    map.map(|m| m.into_iter().collect()).map_err(|e| e.to_string())
}

/// Calls `zerompk::to_msgpack_vec` for a map from names to dynamic values.
/// Writing into a growing buffer cannot fail for these types. The order of the
/// entries in the output is left open; whatever it is, reading the bytes back
/// yields the map, where its values are plain, floats, or were read before.
#[verifier::external_body]
pub(crate) fn encode_fields(fields: Vec<(String, nodedb_types::Value)>) -> (r: Result<
    Vec<u8>,
    String,
>)
    requires
        distinct_names(fields@),
    ensures
        match r {
            Ok(b) => all_storable(fields@) ==> encodes_fields(b@, fields_map(fields@)),
            Err(_) => false,
        },
{
    let map: std::collections::HashMap<String, nodedb_types::Value> = fields.into_iter().collect();
    zerompk::to_msgpack_vec(&map).map_err(|e| e.to_string())
}

/// Whether a dynamic value holds a plain one.
pub open spec fn plain(v: nodedb_types::Value) -> bool {
    exists|d: DatumView| d !is Other && v == #[trigger] native::native_of(d)
}

/// Whether `bytes` are an encoding of an object with these fields: short
/// enough for the format's length fields, they read back as exactly that.
pub open spec fn encodes_record(bytes: Seq<u8>, map: Map<Seq<char>, nodedb_types::Value>) -> bool {
    bytes.len() <= u32::MAX ==> decoded_native(bytes) == Ok::<nodedb_types::Value, Seq<char>>(
        native::native_object(map),
    )
}

/// Calls `zerompk::to_msgpack_vec` for a `nodedb_types::Value::Object` of plain
/// values. Writing into a growing buffer cannot fail. The order of the fields in
/// the output is left open; whatever it is, reading the bytes back yields the
/// object.
#[verifier::external_body]
pub(crate) fn encode_record(fields: Vec<(String, nodedb_types::Value)>) -> (r: Result<
    Vec<u8>,
    String,
>)
    requires
        distinct_names(fields@),
        forall|i: int| 0 <= i < fields@.len() ==> plain((#[trigger] fields@[i]).1),
    ensures
        match r {
            Ok(b) => encodes_record(b@, fields_map(fields@)),
            Err(_) => false,
        },
{
    let object = nodedb_types::Value::Object(fields.into_iter().collect());
    zerompk::to_msgpack_vec(&object).map_err(|e| e.to_string())
}

/// The fields of a dynamic value, where it is an object.
pub uninterp spec fn native_fields(v: nodedb_types::Value) -> Option<
    Map<Seq<char>, nodedb_types::Value>,
>;

/// Takes the fields out of a `nodedb_types::Value` that is an object, in no
/// particular order.
#[verifier::external_body]
pub(crate) fn object_fields(v: nodedb_types::Value) -> (r: Option<
    Vec<(String, nodedb_types::Value)>,
>)
    ensures
        match r {
            Some(f) => distinct_names(f@) && native_fields(v) == Some(fields_map(f@)),
            None => native_fields(v) is None,
        },
{
    match v {
        nodedb_types::Value::Object(map) => Some(map.into_iter().collect()),
        _ => None,
    }
}

/// The field of a dynamic value with a name, where it is an object that has one.
pub open spec fn field_at(v: nodedb_types::Value, name: Seq<char>) -> Option<nodedb_types::Value> {
    match native_fields(v) {
        Some(fields) => if fields.dom().contains(name) {
            Some(fields[name])
        } else {
            None
        },
        None => None,
    }
}

/// Calls `nodedb_types::Value::get` and copies what it finds: the field of an
/// object with that name.
#[verifier::external_body]
pub(crate) fn get_field(v: &nodedb_types::Value, name: &str) -> (r: Option<nodedb_types::Value>)
    ensures
        r == field_at(*v, name@),
{
    v.get(name).cloned()
}

/// What `zerompk::to_msgpack_vec` writes for a list of names.
pub uninterp spec fn encoded_names(names: Seq<Seq<char>>) -> Seq<u8>;

/// Calls `zerompk::to_msgpack_vec` for a list of names. Writing strings into a
/// growing buffer cannot fail.
#[verifier::external_body]
pub(crate) fn encode_names(names: &Vec<String>) -> (r: Result<Vec<u8>, String>)
    ensures
        match r {
            Ok(b) => b@ == encoded_names(names@.map_values(|s: String| s@)),
            Err(_) => false,
        },
{
    zerompk::to_msgpack_vec(names).map_err(|e| e.to_string())
}

/// What `zerompk::to_msgpack_vec` writes for a list of vector identities.
pub uninterp spec fn encoded_id_map(entries: Seq<(Seq<char>, Seq<char>, u32)>) -> Seq<u8>;

/// Calls `zerompk::to_msgpack_vec` for a list of vector identities: the index
/// entry, the document and the slot. Writing into a growing buffer cannot
/// fail.
#[verifier::external_body]
pub(crate) fn encode_id_map(entries: &Vec<(String, String, u32)>) -> (r: Result<Vec<u8>, String>)
    ensures
        match r {
            Ok(b) => b@ == encoded_id_map(
                entries@.map_values(|e: (String, String, u32)| (e.0@, e.1@, e.2)),
            ),
            Err(_) => false,
        },
{
    zerompk::to_msgpack_vec(entries).map_err(|e| e.to_string())
}

/// Sets the value of one field.
pub fn set_field(
    fields: &mut Vec<(String, nodedb_types::Value)>,
    name: &str,
    value: nodedb_types::Value,
)
    requires
        distinct_names(old(fields)@),
    ensures
        distinct_names(final(fields)@),
        fields_map(final(fields)@) == fields_map(old(fields)@).insert(name@, value),
        all_storable(old(fields)@) && storable(value) ==> all_storable(final(fields)@),
{
    let ghost before = fields@;
    let mut i: usize = 0;
    while i < fields.len()
        invariant
            i <= fields@.len(),
            fields@ == before,
            before == old(fields)@,
            distinct_names(before),
            forall|j: int| 0 <= j < i ==> (#[trigger] before[j]).0@ != name@,
        decreases fields@.len() - i,
    {
        if crate::text::str_eq(fields[i].0.as_str(), name) {
            fields.set(i, (name.to_owned(), value));
            proof {
                lemma_fields_update(before, fields@, i as int, name@, value);
            }
            return;
        }
        i = i + 1;
    }
    fields.push((name.to_owned(), value));
    proof {
        lemma_fields_push(before, fields@, name@, value);
    }
}

/// Under distinct names, the map holds each entry.
pub proof fn lemma_fields_at(fields: Seq<(String, nodedb_types::Value)>, i: int)
    requires
        distinct_names(fields),
        0 <= i < fields.len(),
    ensures
        fields_map(fields).dom().contains(fields[i].0@),
        fields_map(fields)[fields[i].0@] == fields[i].1,
{
    let name = fields[i].0@;
    assert(has_field(fields, name));
    let k = choose|k: int| 0 <= k < fields.len() && (#[trigger] fields[k]).0@ == name;
    assert(0 <= k < fields.len() && fields[k].0@ == name);
    if k < i {
        assert(fields[k].0@ != fields[i].0@);
    }
    if i < k {
        assert(fields[i].0@ != fields[k].0@);
    }
}

proof fn lemma_fields_update(
    before: Seq<(String, nodedb_types::Value)>,
    after: Seq<(String, nodedb_types::Value)>,
    i: int,
    name: Seq<char>,
    value: nodedb_types::Value,
)
    requires
        distinct_names(before),
        0 <= i < before.len(),
        before[i].0@ == name,
        after.len() == before.len(),
        after[i].0@ == name,
        after[i].1 == value,
        forall|j: int| 0 <= j < before.len() && j != i ==> (#[trigger] after[j]) == before[j],
    ensures
        distinct_names(after),
        fields_map(after) == fields_map(before).insert(name, value),
{
    assert forall|a: int, b: int| 0 <= a < b < after.len() implies (#[trigger] after[a]).0@
        != (#[trigger] after[b]).0@ by {
        assert(before[a].0@ != before[b].0@);
    }
    assert forall|n: Seq<char>| has_field(after, n) == (n == name || has_field(before, n)) by {
        if has_field(after, n) {
            let k = choose|k: int| 0 <= k < after.len() && (#[trigger] after[k]).0@ == n;
            if k != i {
                assert(before[k].0@ == n);
            }
        }
        if n == name {
            assert(after[i].0@ == n);
        }
        if has_field(before, n) {
            let k = choose|k: int| 0 <= k < before.len() && (#[trigger] before[k]).0@ == n;
            if k != i {
                assert(after[k].0@ == n);
            } else {
                assert(after[i].0@ == n);
            }
        }
    }
    assert forall|n: Seq<char>| has_field(after, n) implies #[trigger] fields_map(after)[n]
        == fields_map(before).insert(name, value)[n] by {
        let k = choose|k: int| 0 <= k < after.len() && (#[trigger] after[k]).0@ == n;
        lemma_fields_at(after, k);
        if k != i {
            assert(before[k] == after[k]);
            lemma_fields_at(before, k);
            if n == name {
                assert(after[k].0@ != after[i].0@);
            }
        }
    }
    assert(fields_map(after) =~= fields_map(before).insert(name, value));
}

/// A new name at the end adds one entry to the map.
pub proof fn lemma_fields_push(
    before: Seq<(String, nodedb_types::Value)>,
    after: Seq<(String, nodedb_types::Value)>,
    name: Seq<char>,
    value: nodedb_types::Value,
)
    requires
        distinct_names(before),
        forall|j: int| 0 <= j < before.len() ==> (#[trigger] before[j]).0@ != name,
        after.len() == before.len() + 1,
        after[before.len() as int].0@ == name,
        after[before.len() as int].1 == value,
        forall|j: int| 0 <= j < before.len() ==> (#[trigger] after[j]) == before[j],
    ensures
        distinct_names(after),
        fields_map(after) == fields_map(before).insert(name, value),
{
    let last = before.len() as int;
    assert forall|a: int, b: int| 0 <= a < b < after.len() implies (#[trigger] after[a]).0@
        != (#[trigger] after[b]).0@ by {
        assert(after[a] == before[a]);
        if b < last {
            assert(before[a].0@ != before[b].0@);
        }
    }
    assert forall|n: Seq<char>| has_field(after, n) == (n == name || has_field(before, n)) by {
        if has_field(after, n) {
            let k = choose|k: int| 0 <= k < after.len() && (#[trigger] after[k]).0@ == n;
            if k != last {
                assert(before[k].0@ == n);
            }
        }
        if n == name {
            assert(after[last].0@ == n);
        }
        if has_field(before, n) {
            let k = choose|k: int| 0 <= k < before.len() && (#[trigger] before[k]).0@ == n;
            assert(after[k].0@ == n);
        }
    }
    assert forall|n: Seq<char>| has_field(after, n) implies #[trigger] fields_map(after)[n]
        == fields_map(before).insert(name, value)[n] by {
        let k = choose|k: int| 0 <= k < after.len() && (#[trigger] after[k]).0@ == n;
        lemma_fields_at(after, k);
        if k != last {
            assert(before[k] == after[k]);
            lemma_fields_at(before, k);
        }
    }
    assert(fields_map(after) =~= fields_map(before).insert(name, value));
}

} // verus!
