//! The payload of an insert: rows as JSON, MessagePack or line protocol.
use crate::columnar::ilp;
use crate::columnar::rows;
use crate::error::{ErrorView, LiteError};
use crate::json;
use crate::json::{JsonShape, JsonTree};
use crate::native;
use crate::native::NativeShape;
use crate::text;
use crate::value::names_view;
use crate::wire;
use vstd::prelude::*;

verus! {

/// The rows of several JSON values, or the first error among them.
pub open spec fn json_rows(items: Seq<JsonTree>, columns: Seq<Seq<char>>) -> Result<
    Seq<Seq<nodedb_types::Value>>,
    ErrorView,
>
    decreases items.len(),
{
    if items.len() == 0 {
        Ok(Seq::empty())
    } else {
        match (json_rows(items.drop_last(), columns), json::json_row(items.last(), columns)) {
            (Err(e), _) => Err(e),
            (Ok(before), Ok(row)) => Ok(before.push(row)),
            (Ok(_), Err(e)) => Err(e),
        }
    }
}

/// The row of a dynamic value that is an object, in the order of the columns.
pub open spec fn native_row(v: nodedb_types::Value, columns: Seq<Seq<char>>) -> Result<
    Seq<nodedb_types::Value>,
    ErrorView,
> {
    match wire::native_fields(v) {
        Some(fields) => Ok(rows::row_of(fields, columns)),
        None => Err(ErrorView::Serialization("each msgpack element must be an object map"@)),
    }
}

/// The rows of several dynamic values, or the first error among them.
pub open spec fn native_rows(items: Seq<nodedb_types::Value>, columns: Seq<Seq<char>>) -> Result<
    Seq<Seq<nodedb_types::Value>>,
    ErrorView,
>
    decreases items.len(),
{
    if items.len() == 0 {
        Ok(Seq::empty())
    } else {
        match (native_rows(items.drop_last(), columns), native_row(items.last(), columns)) {
            (Err(e), _) => Err(e),
            (Ok(before), Ok(row)) => Ok(before.push(row)),
            (Ok(_), Err(e)) => Err(e),
        }
    }
}

/// The rows of a payload, in the order of the columns: one object or an array
/// of objects in JSON or MessagePack, or lines.
pub open spec fn payload_rows(
    payload: Seq<u8>,
    format: Seq<char>,
    columns: Seq<Seq<char>>,
) -> Result<Seq<Seq<nodedb_types::Value>>, ErrorView> {
    if format == "json"@ {
        match json::decoded_json(payload) {
            Err(e) => Err(ErrorView::Serialization("json payload decode: "@ + e)),
            Ok(v) => match json::json_tree(v) {
                JsonTree::Array(items) => json_rows(items, columns),
                JsonTree::Object(entries) => Ok(
                    seq![rows::row_of(json::converted_entries(entries), columns)],
                ),
                _ => Err(
                    ErrorView::Serialization(
                        "json payload must be an object or array of objects"@,
                    ),
                ),
            },
        }
    } else if format == "msgpack"@ {
        match wire::decoded_native(payload) {
            Err(e) => Err(ErrorView::Serialization("msgpack payload decode: "@ + e)),
            Ok(v) => match native::native_items(v) {
                Some(items) => native_rows(items, columns),
                None => match wire::native_fields(v) {
                    Some(fields) => Ok(seq![rows::row_of(fields, columns)]),
                    None => Err(
                        ErrorView::Serialization(
                            "msgpack payload must be an object or array of objects"@,
                        ),
                    ),
                },
            },
        }
    } else if format == "ilp"@ {
        ilp::ilp_rows(payload, columns)
    } else {
        Err(
            ErrorView::BadRequest(
                "unknown columnar insert format '"@ + format
                    + "'; expected json/msgpack/ilp"@,
            ),
        )
    }
}

/// What rows or an error say.
pub open spec fn rows_outcome(
    r: Result<Vec<Vec<nodedb_types::Value>>, LiteError>,
) -> Result<Seq<Seq<nodedb_types::Value>>, ErrorView> {
    match r {
        Ok(rows) => Ok(rows::table_view(rows@)),
        Err(e) => Err(e@),
    }
}

/// What a row or an error says.
pub open spec fn row_outcome(r: Result<Vec<nodedb_types::Value>, LiteError>) -> Result<
    Seq<nodedb_types::Value>,
    ErrorView,
> {
    match r {
        Ok(row) => Ok(row@),
        Err(e) => Err(e@),
    }
}

proof fn lemma_json_first_error(items: Seq<JsonTree>, columns: Seq<Seq<char>>, k: int)
    requires
        0 <= k <= items.len(),
        json_rows(items.take(k), columns) is Err,
    ensures
        json_rows(items, columns) == json_rows(items.take(k), columns),
    decreases items.len() - k,
{
    if k < items.len() {
        assert(items.take(k + 1).drop_last() =~= items.take(k));
        lemma_json_first_error(items, columns, k + 1);
    } else {
        assert(items.take(k) =~= items);
    }
}

proof fn lemma_native_first_error(
    items: Seq<nodedb_types::Value>,
    columns: Seq<Seq<char>>,
    k: int,
)
    requires
        0 <= k <= items.len(),
        native_rows(items.take(k), columns) is Err,
    ensures
        native_rows(items, columns) == native_rows(items.take(k), columns),
    decreases items.len() - k,
{
    if k < items.len() {
        assert(items.take(k + 1).drop_last() =~= items.take(k));
        lemma_native_first_error(items, columns, k + 1);
    } else {
        assert(items.take(k) =~= items);
    }
}

/// Reads the rows of several JSON values.
fn read_json_rows(items: Vec<serde_json::Value>, columns: &[String]) -> (r: Result<
    Vec<Vec<nodedb_types::Value>>,
    LiteError,
>)
    ensures
        rows_outcome(r) == json_rows(json::trees(items@), names_view(columns@)),
{
    let ghost all = json::trees(items@);
    let ghost names = names_view(columns@);
    let mut out: Vec<Vec<nodedb_types::Value>> = Vec::new();
    proof {
        assert(rows::table_view(out@) =~= Seq::<Seq<nodedb_types::Value>>::empty());
    }
    for item in it: items
        invariant
            it.seq() == items@,
            all == json::trees(items@),
            names == names_view(columns@),
            json_rows(all.take(it.index() as int), names) == Ok::<
                Seq<Seq<nodedb_types::Value>>,
                ErrorView,
            >(rows::table_view(out@)),
    {
        proof {
            let at = it.index() as int;
            assert(all[at] == json::json_tree(item));
            assert(all.take(at + 1).drop_last() =~= all.take(at));
        }
        match json::json_object_to_row(item, columns) {
            Ok(row) => {
                let ghost before = rows::table_view(out@);
                out.push(row);
                proof {
                    assert(rows::table_view(out@) =~= before.push(row@));
                }
            },
            Err(e) => {
                proof {
                    lemma_json_first_error(all, names, it.index() as int + 1);
                }
                return Err(e);
            },
        }
    }
    proof {
        assert(all.take(all.len() as int) =~= all);
    }
    Ok(out)
}

/// Puts the fields of a dynamic value in the order of the columns.
pub fn value_object_to_row(v: nodedb_types::Value, columns: &[String]) -> (r: Result<
    Vec<nodedb_types::Value>,
    LiteError,
>)
    ensures
        row_outcome(r) == native_row(v, names_view(columns@)),
{
    match wire::object_fields(v) {
        Some(fields) => Ok(rows::ordered_row(&fields, columns)),
        None => Err(
            LiteError::Serialization {
                detail: "each msgpack element must be an object map".to_owned(),
            },
        ),
    }
}

/// Reads the rows of several dynamic values.
fn read_native_rows(items: Vec<nodedb_types::Value>, columns: &[String]) -> (r: Result<
    Vec<Vec<nodedb_types::Value>>,
    LiteError,
>)
    ensures
        rows_outcome(r) == native_rows(items@, names_view(columns@)),
{
    let ghost all = items@;
    let ghost names = names_view(columns@);
    let mut out: Vec<Vec<nodedb_types::Value>> = Vec::new();
    proof {
        assert(rows::table_view(out@) =~= Seq::<Seq<nodedb_types::Value>>::empty());
    }
    for item in it: items
        invariant
            it.seq() == items@,
            all == items@,
            names == names_view(columns@),
            native_rows(all.take(it.index() as int), names) == Ok::<
                Seq<Seq<nodedb_types::Value>>,
                ErrorView,
            >(rows::table_view(out@)),
    {
        proof {
            let at = it.index() as int;
            assert(all[at] == item);
            assert(all.take(at + 1).drop_last() =~= all.take(at));
        }
        match value_object_to_row(item, columns) {
            Ok(row) => {
                let ghost before = rows::table_view(out@);
                out.push(row);
                proof {
                    assert(rows::table_view(out@) =~= before.push(row@));
                }
            },
            Err(e) => {
                proof {
                    lemma_native_first_error(all, names, it.index() as int + 1);
                }
                return Err(e);
            },
        }
    }
    proof {
        assert(all.take(all.len() as int) =~= all);
    }
    Ok(out)
}

/// One row on its own.
fn single_row(row: Vec<nodedb_types::Value>) -> (r: Vec<Vec<nodedb_types::Value>>)
    ensures
        rows::table_view(r@) == seq![row@],
{
    let mut out: Vec<Vec<nodedb_types::Value>> = Vec::new();
    out.push(row);
    proof {
        assert(rows::table_view(out@) =~= seq![row@]);
    }
    out
}

/// Reads the rows of a payload.
pub fn decode_payload(payload: &[u8], format: &str, columns: &[String]) -> (r: Result<
    Vec<Vec<nodedb_types::Value>>,
    LiteError,
>)
    ensures
        rows_outcome(r) == payload_rows(payload@, format@, names_view(columns@)),
{
    if text::str_eq(format, "json") {
        let v = match json::decode_json(payload) {
            Ok(v) => v,
            Err(e) => return Err(
                LiteError::Serialization {
                    detail: text::concat2("json payload decode: ", e.as_str()),
                },
            ),
        };
        match json::json_shape(v) {
            JsonShape::Array(items) => read_json_rows(items, columns),
            JsonShape::Object(entries) => {
                let fields = json::convert_entries(entries);
                Ok(single_row(rows::ordered_row(&fields, columns)))
            },
            _ => Err(
                LiteError::Serialization {
                    detail: "json payload must be an object or array of objects".to_owned(),
                },
            ),
        }
    } else if text::str_eq(format, "msgpack") {
        let v = match wire::decode_native(payload) {
            Ok(v) => v,
            Err(e) => return Err(
                LiteError::Serialization {
                    detail: text::concat2("msgpack payload decode: ", e.as_str()),
                },
            ),
        };
        match native::native_shape(v) {
            NativeShape::Array(items) => read_native_rows(items, columns),
            NativeShape::Single(w) => match wire::object_fields(w) {
                Some(fields) => Ok(single_row(rows::ordered_row(&fields, columns))),
                None => Err(
                    LiteError::Serialization {
                        detail: "msgpack payload must be an object or array of objects".to_owned(),
                    },
                ),
            },
        }
    } else if text::str_eq(format, "ilp") {
        ilp::parse_ilp(payload, columns)
    } else {
        Err(
            LiteError::BadRequest {
                detail: text::concat3(
                    "unknown columnar insert format '",
                    format,
                    "'; expected json/msgpack/ilp",
                ),
            },
        )
    }
}

} // verus!
