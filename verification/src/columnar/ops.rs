//! Inserts that refuse a duplicate as a unique violation.
use crate::columnar::writes;
use crate::columnar::writes::{EndView, InsertEnd, InsertParams, InsertView, Table, TableView};
use crate::error::{ErrorView, LiteError};
use crate::filter;
use crate::result;
use crate::result::{QueryResult, ResultView};
use crate::text;
use crate::wire;
use vstd::prelude::*;

verus! {

/// The text that `Debug` gives of a plain dynamic value.
pub uninterp spec fn debug_text(v: nodedb_types::Value) -> Seq<char>;

/// Calls the `Debug` formatting of `nodedb_types::Value`. For a plain value the
/// text is the one named [`debug_text`]. Any other text is left open, since the
/// fields of an object come in no fixed order.
#[verifier::external_body]
fn value_text(v: &nodedb_types::Value) -> (r: String)
    ensures
        wire::plain(*v) ==> r@ == debug_text(*v),
{
    format!("{v:?}")
}

/// The name of the key column of the incoming rows.
pub open spec fn key_name(mode: writes::InsertMode) -> Seq<char> {
    if mode.key < mode.columns.len() {
        mode.columns[mode.key as int]
    } else {
        "pk"@
    }
}

/// Whether a text says that a key is there already: the name of its column and
/// the key itself.
pub open spec fn tells_key(
    name: Seq<char>,
    key: nodedb_types::Value,
    shown: Seq<char>,
    detail: Seq<char>,
) -> bool {
    detail == name + " = "@ + shown && (wire::plain(key) ==> shown == debug_text(key))
}

/// Whether this is what an insert answers at its end: the written rows under a
/// command tag, or the refusal of a duplicate as a unique violation.
pub open spec fn unique_answer(
    collection: Seq<char>,
    name: Seq<char>,
    end: EndView,
    answer: Result<(ResultView, Seq<Seq<nodedb_types::Value>>), ErrorView>,
) -> bool {
    match end {
        EndView::Unreadable(e) => answer is Err && answer->Err_0 == e,
        EndView::Refused(key) => match answer {
            Err(ErrorView::UniqueViolation { collection: c, detail }) => c == collection
                && exists|shown: Seq<char>| #[trigger] tells_key(name, key, shown, detail),
            _ => false,
        },
        EndView::Unanswered => answer is Err && answer->Err_0 == ErrorView::BadRequest(
            filter::unanswered(),
        ),
        EndView::Written(written) => answer is Ok && answer->Ok_0 == (
            result::tagged_view(written.len() as u64, "INSERT"@),
            written,
        ),
    }
}

/// Whether these are the table and the answer after an insert that ends so.
pub open spec fn answered_at(
    collection: Seq<char>,
    before: TableView,
    params: InsertView,
    after: TableView,
    end: EndView,
    answer: Result<(ResultView, Seq<Seq<nodedb_types::Value>>), ErrorView>,
) -> bool {
    writes::insert_done(before, params, after, end) && unique_answer(
        collection,
        key_name(writes::insert_mode(before, params)),
        end,
        answer,
    )
}

/// Whether these are the table and the answer after an insert. A collection that
/// is not there is refused.
pub open spec fn insert_answered(
    collection: Seq<char>,
    before: Option<TableView>,
    params: InsertView,
    after: Option<TableView>,
    answer: Result<(ResultView, Seq<Seq<nodedb_types::Value>>), ErrorView>,
) -> bool {
    match (before, after) {
        (None, None) => answer is Err && answer->Err_0 == ErrorView::BadRequest(
            writes::missing_collection(collection),
        ),
        (Some(old_table), Some(new_table)) => exists|end: EndView| #[trigger]
            answered_at(collection, old_table, params, new_table, end, answer),
        _ => false,
    }
}

proof fn lemma_answered(
    collection: Seq<char>,
    before: TableView,
    params: InsertView,
    after: TableView,
    end: EndView,
    answer: Result<(ResultView, Seq<Seq<nodedb_types::Value>>), ErrorView>,
)
    requires
        answered_at(collection, before, params, after, end, answer),
    ensures
        insert_answered(collection, Some(before), params, Some(after), answer),
{
    let a = Some(before);
    let b = Some(after);
    assert(a->Some_0 == before && b->Some_0 == after);
    assert(answered_at(collection, a->Some_0, params, b->Some_0, end, answer));
}

/// Inserts rows into a columnar collection. A duplicate under a unique insert is
/// a unique violation.
///
/// The answer holds the rows that were written. A refused row ends the insert;
/// the rows before it stay.
pub fn insert(collection: &str, stored: Option<Table>, params: &InsertParams) -> (r: (
    Option<Table>,
    Result<(QueryResult, Vec<Vec<nodedb_types::Value>>), LiteError>,
))
    ensures
        insert_answered(
            collection@,
            writes::stored_view(stored),
            params@,
            writes::stored_view(r.0),
            writes::insert_view(r.1),
        ),
{
    let mut table = match stored {
        Some(t) => t,
        None => return (None, Err(writes::no_collection(collection))),
    };
    let name = table.key_name(params.schema_bytes);
    let ghost start = table@;
    let end = table.insert(params);
    let ghost ended = end@;
    let answer: Result<(QueryResult, Vec<Vec<nodedb_types::Value>>), LiteError> = match end {
        InsertEnd::Unreadable(e) => Err(e),
        InsertEnd::Refused(key) => {
            let shown = value_text(&key);
            let detail = text::concat3(name.as_str(), " = ", shown.as_str());
            proof {
                assert(detail@ =~= name@ + " = "@ + shown@);
                assert(tells_key(name@, key, shown@, detail@));
            }
            Err(LiteError::UniqueViolation { collection: collection.to_owned(), detail })
        },
        InsertEnd::Unanswered => Err(filter::no_answer()),
        InsertEnd::Written(written) => Ok(
            (QueryResult::tagged(written.len() as u64, "INSERT"), written),
        ),
    };
    proof {
        let ghost said = writes::insert_view(answer);
        assert(said is Err ==> ended !is Written);
        if let EndView::Written(rows) = ended {
            assert(said is Ok);
            assert(said->Ok_0.1 == rows);
            assert(said->Ok_0.0 == result::tagged_view(rows.len() as u64, "INSERT"@));
        }
        if let EndView::Refused(key) = ended {
            assert(said is Err);
            assert(said->Err_0 is UniqueViolation);
            assert(said->Err_0->UniqueViolation_collection == collection@);
            let d = said->Err_0->UniqueViolation_detail;
            assert(exists|shown: Seq<char>| #[trigger] tells_key(name@, key, shown, d));
        }
        assert(unique_answer(collection@, name@, ended, said));
    }
    let after = Some(table);
    proof {
        let ghost said = writes::insert_view(answer);
        assert(answered_at(collection@, start, params@, after->0@, ended, said));
        lemma_answered(collection@, start, params@, after->0@, ended, said);
    }
    (after, answer)
}

impl Table {
    /// The name of the key column of rows that follow an encoded schema, or the
    /// stored one.
    fn key_name(&self, schema_bytes: &[u8]) -> (r: String)
        ensures
            forall|params: InsertView|
                params.schema_bytes == schema_bytes@ ==> r@ == key_name(
                    #[trigger] writes::insert_mode(self@, params),
                ),
    {
        let decoded = if schema_bytes.len() > 0 {
            writes::decode_schema(schema_bytes)
        } else {
            None
        };
        let (names, key) = match decoded {
            Some(columns) => (writes::names_of(&columns), writes::key_position(&columns)),
            None => (writes::names_of(&self.columns), writes::key_position(&self.columns)),
        };
        if key < names.len() {
            names[key].as_str().to_owned()
        } else {
            "pk".to_owned()
        }
    }
}

} // verus!
