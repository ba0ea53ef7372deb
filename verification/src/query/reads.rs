//! Which rows scans and point reads answer with.
use crate::error::{ErrorView, LiteError};
use crate::native;
use crate::query::catalog;
use crate::query::catalog::{EngineType, TableSchema};
use crate::query::engine;
use crate::query::engine::{
    Found, NativeKind, ParamValue, PointRead, ScanSource, SqlValue,
};
use crate::result::QueryResult;
use crate::text;
use crate::value;
use crate::value::{names_view, Datum, DatumView};
use vstd::prelude::*;

verus! {

/// The rows from `i` on that the predicate wants, in order.
pub open spec fn wanted_from(
    incoming: Seq<Seq<nodedb_types::Value>>,
    verdicts: Seq<Result<bool, ErrorView>>,
    i: int,
) -> Seq<Seq<nodedb_types::Value>>
    decreases incoming.len() - i,
{
    if i < 0 || i >= incoming.len() {
        Seq::empty()
    } else if verdicts[i] == Ok::<bool, ErrorView>(true) {
        seq![incoming[i]] + wanted_from(incoming, verdicts, i + 1)
    } else {
        wanted_from(incoming, verdicts, i + 1)
    }
}

proof fn lemma_scan(
    kept: Seq<Seq<nodedb_types::Value>>,
    limit: Option<usize>,
    incoming: Seq<Seq<nodedb_types::Value>>,
    verdicts: Seq<Result<bool, ErrorView>>,
    i: int,
)
    requires
        0 <= i,
        forall|j: int| 0 <= j < incoming.len() ==> (#[trigger] verdicts[j]) is Ok,
        limit matches Some(l) ==> kept.len() < l,
    ensures
        engine::scanned(kept, limit, incoming, verdicts, i).1 is None,
        limit is None ==> engine::scanned(kept, limit, incoming, verdicts, i).0 == kept
            + wanted_from(incoming, verdicts, i),
        limit matches Some(l) ==> engine::scanned(kept, limit, incoming, verdicts, i).0 == first(
            kept + wanted_from(incoming, verdicts, i),
            l as nat,
        ),
    decreases incoming.len() - i,
{
    let all = kept + wanted_from(incoming, verdicts, i);
    if i < incoming.len() {
        assert(verdicts[i] is Ok);
        let wanted = verdicts[i]->Ok_0;
        let now = if wanted {
            kept.push(incoming[i])
        } else {
            kept
        };
        let rest = wanted_from(incoming, verdicts, i + 1);
        assert(all =~= now + rest);
        if engine::wants_more(now.len(), limit) {
            lemma_scan(now, limit, incoming, verdicts, i + 1);
        } else {
            let l = limit->0;
            assert(now.len() == l);
            assert(first(all, l as nat) =~= now);
        }
    } else {
        assert(all =~= kept);
        if limit is Some {
            assert(first(all, limit->0 as nat) == all);
        }
    }
}

/// The first rows, up to a number.
pub open spec fn first(
    all: Seq<Seq<nodedb_types::Value>>,
    n: nat,
) -> Seq<Seq<nodedb_types::Value>> {
    if all.len() <= n {
        all
    } else {
        all.take(n as int)
    }
}

/// A scan keeps exactly the rows that its predicate wants, in the order they are
/// listed, and stops at its limit.
pub proof fn scan_keeps_the_wanted_rows(
    limit: Option<usize>,
    incoming: Seq<Seq<nodedb_types::Value>>,
    verdicts: Seq<Result<bool, ErrorView>>,
)
    requires
        forall|j: int| 0 <= j < incoming.len() ==> (#[trigger] verdicts[j]) is Ok,
        limit matches Some(l) ==> l > 0,
    ensures
        engine::scanned(Seq::empty(), limit, incoming, verdicts, 0).1 is None,
        engine::scanned(Seq::empty(), limit, incoming, verdicts, 0).0 == match limit {
            Some(l) => first(wanted_from(incoming, verdicts, 0), l as nat),
            None => wanted_from(incoming, verdicts, 0),
        },
{
    let none = Seq::<Seq<nodedb_types::Value>>::empty();
    lemma_scan(none, limit, incoming, verdicts, 0);
    assert(none + wanted_from(incoming, verdicts, 0) =~= wanted_from(incoming, verdicts, 0));
}

/// A scan without a limit ends with the first error of its predicate, and keeps
/// the wanted rows before it.
pub proof fn scan_ends_at_the_first_error(
    kept: Seq<Seq<nodedb_types::Value>>,
    incoming: Seq<Seq<nodedb_types::Value>>,
    verdicts: Seq<Result<bool, ErrorView>>,
    i: int,
    at: int,
)
    requires
        0 <= i <= at < incoming.len(),
        verdicts[at] is Err,
        forall|j: int| i <= j < at ==> (#[trigger] verdicts[j]) is Ok,
    ensures
        engine::scanned(kept, None, incoming, verdicts, i).1 == Some(verdicts[at]->Err_0),
    decreases at - i,
{
    if i < at {
        assert(verdicts[i] is Ok);
        let now = if verdicts[i]->Ok_0 {
            kept.push(incoming[i])
        } else {
            kept
        };
        scan_ends_at_the_first_error(now, incoming, verdicts, i + 1, at);
    }
}

/// A literal keeps its kind and its value. As a text it is written out: an
/// integer in decimal, a boolean as its word.
pub proof fn literals_keep_their_values(v: &SqlValue, s: String, d: Datum)
    requires
        call_ensures(engine::sql_value_to_string, (v,), s),
        call_ensures(engine::sql_value_to_value, (v,), d),
    ensures
        v matches SqlValue::Int(i) ==> s@ == text::signed_decimal(*i as int) && d@
            == DatumView::Integer(*i),
        v matches SqlValue::String(t) ==> s@ == t@ && d@ == DatumView::String(t@),
        v matches SqlValue::Bool(b) ==> s@ == (if *b {
            "true"@
        } else {
            "false"@
        }) && d@ == DatumView::Bool(*b),
        v matches SqlValue::Float(f) ==> d@ == DatumView::Other(*f),
        v matches SqlValue::Null ==> d@ == DatumView::Null && s@ == ""@,
{
}

/// A query of literals alone answers one row with one value for each.
pub proof fn constants_make_one_row(columns: &[String], values: &[SqlValue], r: QueryResult)
    requires
        call_ensures(engine::execute_constant_result, (columns, values), r),
    ensures
        r@.columns == names_view(columns@),
        r@.rows.len() == 1,
        r@.rows[0].len() == values@.len(),
        forall|i: int|
            0 <= i < values@.len() ==> match #[trigger] values@[i] {
                SqlValue::Int(n) => r@.rows[0][i] == DatumView::Integer(n),
                SqlValue::String(t) => r@.rows[0][i] == DatumView::String(t@),
                SqlValue::Bool(b) => r@.rows[0][i] == DatumView::Bool(b),
                SqlValue::Float(f) => r@.rows[0][i] == DatumView::Other(f),
                _ => r@.rows[0][i] == DatumView::Null,
            },
{
}

/// A parameter is bound by its own kind and value, an identifier as a text, and
/// what cannot be bound as null.
pub proof fn parameters_keep_their_values(k: NativeKind, r: ParamValue)
    requires
        call_ensures(engine::kind_to_param, (k,), r),
    ensures
        match k {
            NativeKind::Bool(b) => r == ParamValue::Bool(b),
            NativeKind::Integer(i) => r == ParamValue::Int64(i),
            NativeKind::Float(f) => r == ParamValue::Float64(f),
            NativeKind::String(s) => r matches ParamValue::Text(t) && t@ == s@,
            NativeKind::Uuid(s) => r matches ParamValue::Text(t) && t@ == s@,
            _ => r is Null,
        },
{
}

/// A scan reads where its collection keeps its rows, under their names. A
/// collection that its engine does not know is refused.
pub proof fn scans_read_their_engines(
    collection: &str,
    engine: EngineType,
    bitemporal: bool,
    strict: Option<&TableSchema>,
    columnar: Option<&TableSchema>,
    r: Result<(ScanSource, Vec<String>), LiteError>,
)
    requires
        call_ensures(engine::scan_source, (collection, engine, bitemporal, strict, columnar), r),
    ensures
        engine == EngineType::DocumentSchemaless ==> r is Ok && (r->Ok_0.0 == if bitemporal {
            ScanSource::History
        } else {
            ScanSource::Store
        }) && names_view(r->Ok_0.1@) == seq!["id"@, "document"@],
        engine == EngineType::DocumentStrict ==> (r is Ok <==> strict is Some),
        engine == EngineType::DocumentStrict && r is Ok ==> r->Ok_0.0 == ScanSource::Strict
            && r->Ok_0.1@.len() == strict->0.columns@.len() && forall|i: int|
            0 <= i < r->Ok_0.1@.len() ==> (#[trigger] r->Ok_0.1@[i])@ == strict->0.columns@[i].name@,
        engine == EngineType::Columnar ==> (r is Ok <==> columnar is Some),
        engine == EngineType::Columnar && r is Ok ==> r->Ok_0.0 == ScanSource::Columnar
            && r->Ok_0.1@.len() == columnar->0.columns@.len() && forall|i: int|
            0 <= i < r->Ok_0.1@.len() ==> (#[trigger] r->Ok_0.1@[i])@
                == columnar->0.columns@[i].name@,
{
    if r is Ok {
        let names = names_view(r->Ok_0.1@);
        assert(names.len() == r->Ok_0.1@.len());
        assert forall|i: int| 0 <= i < names.len() implies names[i] == (
        #[trigger] r->Ok_0.1@[i])@ by {}
        if engine == EngineType::DocumentStrict {
            let s = *strict->0;
            assert forall|i: int| 0 <= i < r->Ok_0.1@.len() implies (#[trigger] r->Ok_0.1@[i])@
                == s.columns@[i].name@ by {
                assert(names[i] == engine::schema_names(s)[i]);
            }
        }
        if engine == EngineType::Columnar {
            let s = *columnar->0;
            assert forall|i: int| 0 <= i < r->Ok_0.1@.len() implies (#[trigger] r->Ok_0.1@[i])@
                == s.columns@[i].name@ by {
                assert(names[i] == engine::schema_names(s)[i]);
            }
        }
    }
}

/// A point read of a document looks it up by the text of its key and answers with
/// the key and the document, or with nothing where it is not there.
pub proof fn point_read_finds_its_document(
    collection: &str,
    key: &SqlValue,
    strict: Option<&TableSchema>,
    read: Result<PointRead, LiteError>,
    written: String,
    document: Option<String>,
    answer: QueryResult,
)
    requires
        call_ensures(
            engine::point_read,
            (collection, EngineType::DocumentSchemaless, key, strict),
            read,
        ),
        call_ensures(engine::sql_value_to_string, (key,), written),
        read is Ok ==> call_ensures(
            engine::execute_point_get,
            (read->Ok_0, Found::Document(document)),
            answer,
        ),
    ensures
        read is Ok && read->Ok_0 is Document,
        document is Some ==> answer@.rows == seq![
            seq![DatumView::String(written@), DatumView::String(document->0@)],
        ],
        document is None ==> answer@.rows.len() == 0,
{
}

/// A point read of a strict row looks it up by its key, read as the kind of its
/// first key column, and answers with the row, or with none.
pub proof fn point_read_finds_its_row(
    collection: &str,
    key: &SqlValue,
    schema: &TableSchema,
    k: int,
    read: Result<PointRead, LiteError>,
    written: String,
    row: Option<Vec<Datum>>,
    answer: QueryResult,
)
    requires
        0 <= k < schema.columns@.len(),
        schema.columns@[k].primary_key,
        forall|i: int| 0 <= i < k ==> !(#[trigger] schema.columns@[i]).primary_key,
        call_ensures(
            engine::point_read,
            (collection, EngineType::DocumentStrict, key, Some(schema)),
            read,
        ),
        call_ensures(engine::sql_value_to_string, (key,), written),
        read is Ok ==> call_ensures(
            engine::execute_point_get,
            (read->Ok_0, Found::Row(row)),
            answer,
        ),
    ensures
        read is Ok,
        read->Ok_0 matches PointRead::Strict { columns, row_key } && names_view(columns@)
            == engine::schema_names(*schema) && row_key == engine::key_value(
            written@,
            catalog::kind_of(schema.columns@[k].column_type),
        ),
        row is Some ==> answer@.rows == seq![value::row_view(row->0@)],
        row is None ==> answer@.rows.len() == 0,
{
    lemma_key_column(*schema, 0, k);
}

proof fn lemma_key_column(s: TableSchema, i: int, k: int)
    requires
        0 <= i <= k < s.columns@.len(),
        s.columns@[k].primary_key,
        forall|j: int| i <= j < k ==> !(#[trigger] s.columns@[j]).primary_key,
    ensures
        engine::key_column_from(s, i) == Some(k),
    decreases k - i,
{
    if i < k {
        assert(!s.columns@[i].primary_key);
        lemma_key_column(s, i + 1, k);
    }
}

/// An integer key column reads a key that is written in decimal as that integer,
/// and any other column of texts reads it as it is.
pub proof fn keys_are_read_by_their_columns(
    n: i64,
    key: &str,
    number: nodedb_types::Value,
    kind: catalog::ColumnKind,
    other: nodedb_types::Value,
)
    requires
        key@ == text::signed_decimal(n as int),
        call_ensures(engine::parse_pk_value, (key, catalog::ColumnKind::Int64), number),
        kind != catalog::ColumnKind::Int64 && kind != catalog::ColumnKind::Uuid,
        call_ensures(engine::parse_pk_value, (key, kind), other),
    ensures
        number == native::native_of(DatumView::Integer(n)),
        other == native::native_of(DatumView::String(key@)),
{
    crate::columnar::values::lemma_signed_decimal(n);
}

} // verus!
