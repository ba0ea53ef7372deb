//! Running planned queries: literals, scans and point reads.
use crate::columnar::ilp;
use crate::columnar::rows;
use crate::document::body;
use crate::document::plan;
use crate::error::{ErrorView, LiteError};
use crate::native;
use crate::query::catalog;
use crate::query::catalog::{ColumnKind, EngineType, TableSchema};
use crate::result;
use crate::result::{QueryResult, ResultView};
use crate::text;
use crate::value;
use crate::value::{names_view, Datum, DatumView};
use vstd::prelude::*;

verus! {

/// A literal of a query.
#[derive(Debug)]
pub enum SqlValue {
    /// No value.
    Null,
    /// A boolean.
    Bool(bool),
    /// An integer.
    Int(i64),
    /// A float, as a dynamic value.
    Float(nodedb_types::Value),
    /// A text.
    String(String),
    /// A literal of any other kind.
    Other,
}

/// What `to_string` writes for a float that a dynamic value holds, and nothing
/// for any other value.
pub uninterp spec fn float_text_of(v: nodedb_types::Value) -> Seq<char>;

/// Calls `to_string` on the float in a `nodedb_types::Value`. The result is the
/// one named [`float_text_of`].
#[verifier::external_body]
fn float_text(v: &nodedb_types::Value) -> (r: String)
    ensures
        r@ == float_text_of(*v),
{
    match v {
        nodedb_types::Value::Float(f) => f.to_string(),
        _ => String::new(),
    }
}

/// The text of a literal, empty where it has none.
pub open spec fn literal_text(v: SqlValue) -> Seq<char> {
    match v {
        SqlValue::String(s) => s@,
        SqlValue::Int(i) => text::signed_decimal(i as int),
        SqlValue::Float(f) => float_text_of(f),
        SqlValue::Bool(b) => if b {
            "true"@
        } else {
            "false"@
        },
        _ => ""@,
    }
}

/// Writes the text of a literal.
pub fn sql_value_to_string(v: &SqlValue) -> (r: String)
    ensures
        r@ == literal_text(*v),
{
    match v {
        SqlValue::String(s) => s.as_str().to_owned(),
        SqlValue::Int(i) => text::signed_decimal_string(*i),
        SqlValue::Float(f) => float_text(f),
        SqlValue::Bool(b) => if *b {
            "true".to_owned()
        } else {
            "false".to_owned()
        },
        _ => "".to_owned(),
    }
}

/// The field value of a literal.
pub open spec fn literal_value(v: SqlValue) -> DatumView {
    match v {
        SqlValue::Int(i) => DatumView::Integer(i),
        SqlValue::Float(f) => DatumView::Other(f),
        SqlValue::String(s) => DatumView::String(s@),
        SqlValue::Bool(b) => DatumView::Bool(b),
        _ => DatumView::Null,
    }
}

/// Makes a field value of a literal.
pub fn sql_value_to_value(v: &SqlValue) -> (r: Datum)
    ensures
        r@ == literal_value(*v),
{
    match v {
        SqlValue::Int(i) => Datum::Integer(*i),
        SqlValue::Float(f) => Datum::Other(native::copy_native(f)),
        SqlValue::String(s) => Datum::String(s.as_str().to_owned()),
        SqlValue::Bool(b) => Datum::Bool(*b),
        _ => Datum::Null,
    }
}

/// The field values of literals.
pub open spec fn literal_row(values: Seq<SqlValue>) -> Seq<DatumView> {
    values.map_values(|v: SqlValue| literal_value(v))
}

/// Answers a query of literals alone with one row.
pub fn execute_constant_result(columns: &[String], values: &[SqlValue]) -> (r: QueryResult)
    ensures
        r@ == (ResultView {
            columns: names_view(columns@),
            rows: seq![literal_row(values@)],
            rows_affected: 0,
            command: None,
        }),
{
    let names = copy_names(columns);
    let mut row: Vec<Datum> = Vec::new();
    let ghost all = literal_row(values@);
    let mut i: usize = 0;
    proof {
        assert(value::row_view(row@) =~= all.take(0));
    }
    while i < values.len()
        invariant
            i <= values@.len(),
            all == literal_row(values@),
            value::row_view(row@) == all.take(i as int),
        decreases values@.len() - i,
    {
        let ghost before = value::row_view(row@);
        let datum = sql_value_to_value(&values[i]);
        row.push(datum);
        proof {
            assert(value::row_view(row@) =~= before.push(datum@));
            assert(all.take(i as int + 1) =~= all.take(i as int).push(all[i as int]));
        }
        i = i + 1;
    }
    proof {
        assert(all.take(i as int) =~= all);
    }
    let mut rows: Vec<Vec<Datum>> = Vec::new();
    rows.push(row);
    let r = QueryResult { columns: names, rows, rows_affected: 0, command: None };
    proof {
        assert(r@.rows =~= seq![literal_row(values@)]);
    }
    r
}

/// Copies a list of names.
pub(crate) fn copy_names(names: &[String]) -> (r: Vec<String>)
    ensures
        names_view(r@) == names_view(names@),
{
    let mut out: Vec<String> = Vec::new();
    let ghost all = names_view(names@);
    let mut i: usize = 0;
    while i < names.len()
        invariant
            i <= names@.len(),
            all == names_view(names@),
            names_view(out@) == all.take(i as int),
        decreases names@.len() - i,
    {
        let ghost before = names_view(out@);
        let name = names[i].as_str().to_owned();
        out.push(name);
        proof {
            assert(names_view(out@) =~= before.push(name@));
            assert(all.take(i as int + 1) =~= all.take(i as int).push(all[i as int]));
        }
        i = i + 1;
    }
    proof {
        assert(all.take(i as int) =~= all);
    }
    out
}

/// The dynamic value that holds an identifier.
pub uninterp spec fn native_uuid(s: Seq<char>) -> nodedb_types::Value;

/// Builds a `nodedb_types::Value::Uuid`. The result is the one named
/// [`native_uuid`].
#[verifier::external_body]
fn uuid_value(s: String) -> (r: nodedb_types::Value)
    ensures
        r == native_uuid(s@),
{
    nodedb_types::Value::Uuid(s)
}

/// The primary-key value of a text, by the kind of its column. A text that is no
/// integer stays a text.
pub open spec fn key_value(key: Seq<char>, kind: ColumnKind) -> nodedb_types::Value {
    match kind {
        ColumnKind::Int64 => match ilp::int_of(key) {
            Some(i) => native::native_of(DatumView::Integer(i)),
            None => native::native_of(DatumView::String(key)),
        },
        ColumnKind::Uuid => native_uuid(key),
        _ => native::native_of(DatumView::String(key)),
    }
}

/// Reads a primary-key value from a text.
pub fn parse_pk_value(key: &str, kind: ColumnKind) -> (r: nodedb_types::Value)
    ensures
        r == key_value(key@, kind),
{
    match kind {
        ColumnKind::Int64 => {
            let chars = text::chars_of(key);
            match ilp::read_int(chars.as_slice()) {
                Some(i) => native::native(Datum::Integer(i)),
                None => native::native(Datum::String(key.to_owned())),
            }
        },
        ColumnKind::Uuid => uuid_value(key.to_owned()),
        _ => native::native(Datum::String(key.to_owned())),
    }
}

/// A bound parameter of a query.
#[derive(Debug)]
pub enum ParamValue {
    /// No value.
    Null,
    /// A boolean.
    Bool(bool),
    /// An integer.
    Int64(i64),
    /// A float, as a dynamic value.
    Float64(nodedb_types::Value),
    /// A text.
    Text(String),
}

/// What a [`ParamValue`] is.
pub enum ParamView {
    Null,
    Bool(bool),
    Int64(i64),
    Float64(nodedb_types::Value),
    Text(Seq<char>),
}

impl View for ParamValue {
    type V = ParamView;

    open spec fn view(&self) -> ParamView {
        match *self {
            ParamValue::Null => ParamView::Null,
            ParamValue::Bool(b) => ParamView::Bool(b),
            ParamValue::Int64(i) => ParamView::Int64(i),
            ParamValue::Float64(f) => ParamView::Float64(f),
            ParamValue::Text(s) => ParamView::Text(s@),
        }
    }
}

/// The simple kinds of dynamic values.
#[derive(Debug)]
pub enum NativeKind {
    /// No value.
    Null,
    /// A boolean.
    Bool(bool),
    /// An integer.
    Integer(i64),
    /// A float, as the value itself.
    Float(nodedb_types::Value),
    /// A text.
    String(String),
    /// An identifier.
    Uuid(String),
    /// A value of any other kind.
    Other,
}

/// What a [`NativeKind`] is.
pub enum NativeKindView {
    Null,
    Bool(bool),
    Integer(i64),
    Float(nodedb_types::Value),
    String(Seq<char>),
    Uuid(Seq<char>),
    Other,
}

impl View for NativeKind {
    type V = NativeKindView;

    open spec fn view(&self) -> NativeKindView {
        match *self {
            NativeKind::Null => NativeKindView::Null,
            NativeKind::Bool(b) => NativeKindView::Bool(b),
            NativeKind::Integer(i) => NativeKindView::Integer(i),
            NativeKind::Float(f) => NativeKindView::Float(f),
            NativeKind::String(s) => NativeKindView::String(s@),
            NativeKind::Uuid(s) => NativeKindView::Uuid(s@),
            NativeKind::Other => NativeKindView::Other,
        }
    }
}

/// The kind and contents of a dynamic value.
pub uninterp spec fn native_kind_of(v: nodedb_types::Value) -> NativeKindView;

/// Tells the simple variants of `nodedb_types::Value` apart. The result is the
/// one named [`native_kind_of`]; a float is handed on as it is.
#[verifier::external_body]
pub(crate) fn native_kind(v: &nodedb_types::Value) -> (r: NativeKind)
    ensures
        r@ == native_kind_of(*v),
        match r {
            NativeKind::Float(f) => f == *v,
            _ => true,
        },
{
    match v {
        nodedb_types::Value::Null => NativeKind::Null,
        nodedb_types::Value::Bool(b) => NativeKind::Bool(*b),
        nodedb_types::Value::Integer(n) => NativeKind::Integer(*n),
        nodedb_types::Value::Float(_) => NativeKind::Float(v.clone()),
        nodedb_types::Value::String(s) => NativeKind::String(s.clone()),
        nodedb_types::Value::Uuid(s) => NativeKind::Uuid(s.clone()),
        _ => NativeKind::Other,
    }
}

/// The parameter for a value of a kind. Identifiers are bound as texts, and
/// kinds that cannot be bound as null.
pub open spec fn param_of(k: NativeKindView) -> ParamView {
    match k {
        NativeKindView::Null => ParamView::Null,
        NativeKindView::Bool(b) => ParamView::Bool(b),
        NativeKindView::Integer(i) => ParamView::Int64(i),
        NativeKindView::Float(f) => ParamView::Float64(f),
        NativeKindView::String(s) => ParamView::Text(s),
        NativeKindView::Uuid(s) => ParamView::Text(s),
        NativeKindView::Other => ParamView::Null,
    }
}

/// The parameter for a value of a kind.
pub fn kind_to_param(k: NativeKind) -> (r: ParamValue)
    ensures
        r@ == param_of(k@),
{
    match k {
        NativeKind::Null => ParamValue::Null,
        NativeKind::Bool(b) => ParamValue::Bool(b),
        NativeKind::Integer(i) => ParamValue::Int64(i),
        NativeKind::Float(f) => ParamValue::Float64(f),
        NativeKind::String(s) => ParamValue::Text(s),
        NativeKind::Uuid(s) => ParamValue::Text(s),
        NativeKind::Other => ParamValue::Null,
    }
}

/// The parameter for a dynamic value.
pub fn value_to_param(v: &nodedb_types::Value) -> (r: ParamValue)
    ensures
        r@ == param_of(native_kind_of(*v)),
{
    kind_to_param(native_kind(v))
}

/// What is done once a statement is planned.
#[derive(Debug, Clone, Copy, PartialEq, Eq, Structural)]
pub enum Planned {
    /// There is nothing to run: the answer is empty.
    Nothing,
    /// The first plan is run.
    RunFirst,
}

/// Decides what a statement does once it is planned, given the number of its
/// plans or the planner's error.
pub fn after_planning(plans: Result<usize, String>) -> (r: Result<Planned, LiteError>)
    ensures
        match (plans, r) {
            (Ok(n), Ok(p)) => p == if n == 0 {
                Planned::Nothing
            } else {
                Planned::RunFirst
            },
            (Err(e), Err(f)) => f@ == ErrorView::Query("SQL plan: "@ + e@),
            _ => false,
        },
{
    match plans {
        Ok(n) => if n == 0 {
            Ok(Planned::Nothing)
        } else {
            Ok(Planned::RunFirst)
        },
        Err(e) => Err(LiteError::Query { detail: text::concat2("SQL plan: ", e.as_str()) }),
    }
}

/// Where a scan reads its rows from.
#[derive(Debug, Clone, Copy, PartialEq, Eq, Structural)]
pub enum ScanSource {
    /// The live documents in the history.
    History,
    /// The replicated store.
    Store,
    /// The strict engine.
    Strict,
    /// The columnar engine.
    Columnar,
    /// Nowhere: there are no rows.
    Nowhere,
}

/// What a scan of a collection reads, and the names of its columns.
pub open spec fn scan_spec(
    collection: Seq<char>,
    engine: EngineType,
    bitemporal: bool,
    strict: Option<&TableSchema>,
    columnar: Option<&TableSchema>,
) -> Result<(ScanSource, Seq<Seq<char>>), ErrorView> {
    match engine {
        EngineType::DocumentSchemaless => Ok(
            (
                if bitemporal {
                    ScanSource::History
                } else {
                    ScanSource::Store
                },
                seq!["id"@, "document"@],
            ),
        ),
        EngineType::DocumentStrict => match strict {
            Some(s) => Ok((ScanSource::Strict, schema_names(*s))),
            None => Err(
                ErrorView::BadRequest(
                    "strict collection '"@ + collection + "' does not exist"@,
                ),
            ),
        },
        EngineType::Columnar => match columnar {
            Some(s) => Ok((ScanSource::Columnar, schema_names(*s))),
            None => Err(
                ErrorView::BadRequest(
                    "columnar collection '"@ + collection + "' does not exist"@,
                ),
            ),
        },
        _ => Ok((ScanSource::Nowhere, Seq::empty())),
    }
}

/// The names of the columns of a schema.
pub open spec fn schema_names(s: TableSchema) -> Seq<Seq<char>> {
    s.columns@.map_values(|c: catalog::ColumnDefinition| c.name@)
}

/// The names of the columns of a schema.
fn names_of_schema(s: &TableSchema) -> (r: Vec<String>)
    ensures
        names_view(r@) == schema_names(*s),
{
    let mut out: Vec<String> = Vec::new();
    let ghost all = schema_names(*s);
    let mut i: usize = 0;
    while i < s.columns.len()
        invariant
            i <= s.columns@.len(),
            all == schema_names(*s),
            names_view(out@) == all.take(i as int),
        decreases s.columns@.len() - i,
    {
        let ghost before = names_view(out@);
        let name = s.columns[i].name.as_str().to_owned();
        out.push(name);
        proof {
            assert(names_view(out@) =~= before.push(name@));
            assert(all.take(i as int + 1) =~= all.take(i as int).push(all[i as int]));
        }
        i = i + 1;
    }
    proof {
        assert(all.take(i as int) =~= all);
    }
    out
}

/// What a scan answer says.
pub open spec fn scan_outcome(r: Result<(ScanSource, Vec<String>), LiteError>) -> Result<
    (ScanSource, Seq<Seq<char>>),
    ErrorView,
> {
    match r {
        Ok((s, names)) => Ok((s, names_view(names@))),
        Err(e) => Err(e@),
    }
}

/// Decides what a scan of a collection reads.
pub fn scan_source(
    collection: &str,
    engine: EngineType,
    bitemporal: bool,
    strict: Option<&TableSchema>,
    columnar: Option<&TableSchema>,
) -> (r: Result<(ScanSource, Vec<String>), LiteError>)
    ensures
        scan_outcome(r) == scan_spec(collection@, engine, bitemporal, strict, columnar),
{
    match engine {
        EngineType::DocumentSchemaless => {
            let mut names: Vec<String> = Vec::new();
            names.push("id".to_owned());
            names.push("document".to_owned());
            proof {
                assert(names_view(names@) =~= seq!["id"@, "document"@]);
            }
            let source = if bitemporal {
                ScanSource::History
            } else {
                ScanSource::Store
            };
            Ok((source, names))
        },
        EngineType::DocumentStrict => match strict {
            Some(s) => Ok((ScanSource::Strict, names_of_schema(s))),
            None => Err(
                LiteError::BadRequest {
                    detail: text::concat3("strict collection '", collection, "' does not exist"),
                },
            ),
        },
        EngineType::Columnar => match columnar {
            Some(s) => Ok((ScanSource::Columnar, names_of_schema(s))),
            None => Err(
                LiteError::BadRequest {
                    detail: text::concat3("columnar collection '", collection, "' does not exist"),
                },
            ),
        },
        _ => {
            let names: Vec<String> = Vec::new();
            proof {
                assert(names_view(names@) =~= Seq::<Seq<char>>::empty());
            }
            Ok((ScanSource::Nowhere, names))
        },
    }
}

/// Where the rows of a scan go. It knows how many rows are wanted, so that a
/// scan ends once there are enough.
#[derive(Debug)]
pub struct RowSink {
    /// The names of the columns.
    pub columns: Vec<String>,
    /// The rows so far.
    pub rows: Vec<Vec<nodedb_types::Value>>,
    /// How many rows are wanted, where that is limited.
    pub limit: Option<usize>,
}

/// Whether more rows are wanted.
pub open spec fn wants_more(n: nat, limit: Option<usize>) -> bool {
    match limit {
        Some(l) => n < l,
        None => true,
    }
}

/// The rows after a scan, from the row `i` on, and the error that ended it.
/// A row that the predicate rejects is not kept, a predicate that fails ends the
/// scan, and so does a row after which no more are wanted.
pub open spec fn scanned(
    kept: Seq<Seq<nodedb_types::Value>>,
    limit: Option<usize>,
    incoming: Seq<Seq<nodedb_types::Value>>,
    verdicts: Seq<Result<bool, ErrorView>>,
    i: int,
) -> (Seq<Seq<nodedb_types::Value>>, Option<ErrorView>)
    decreases incoming.len() - i,
{
    if i < 0 || i >= incoming.len() {
        (kept, None)
    } else {
        match verdicts[i] {
            Err(e) => (kept, Some(e)),
            Ok(wanted) => {
                let now = if wanted {
                    kept.push(incoming[i])
                } else {
                    kept
                };
                if wants_more(now.len(), limit) {
                    scanned(now, limit, incoming, verdicts, i + 1)
                } else {
                    (now, None)
                }
            },
        }
    }
}

/// What verdicts say.
pub open spec fn verdicts_view(verdicts: Seq<Result<bool, LiteError>>) -> Seq<
    Result<bool, ErrorView>,
> {
    verdicts.map_values(
        |v: Result<bool, LiteError>|
            match v {
                Ok(b) => Ok::<bool, ErrorView>(b),
                Err(e) => Err::<bool, ErrorView>(e@),
            },
    )
}

impl RowSink {
    /// Takes a row with the verdict of the predicate, and says whether more rows
    /// are wanted.
    pub fn push(&mut self, row: Vec<nodedb_types::Value>, verdict: Result<bool, LiteError>) -> (r:
        Result<bool, LiteError>)
        ensures
            final(self).columns == old(self).columns,
            final(self).limit == old(self).limit,
            match verdict {
                Err(e) => r == Err::<bool, LiteError>(e) && final(self).rows == old(self).rows,
                Ok(wanted) => rows::table_view(final(self).rows@) == (if wanted {
                    rows::table_view(old(self).rows@).push(row@)
                } else {
                    rows::table_view(old(self).rows@)
                }) && r == Ok::<bool, LiteError>(
                    wants_more(final(self).rows@.len(), old(self).limit),
                ),
            },
    {
        match verdict {
            Err(e) => Err(e),
            Ok(wanted) => {
                let ghost before = rows::table_view(self.rows@);
                if wanted {
                    self.rows.push(row);
                    proof {
                        assert(rows::table_view(self.rows@) =~= before.push(row@));
                    }
                }
                let more: bool = match self.limit {
                    Some(l) => self.rows.len() < l,
                    None => true,
                };
                Ok(more)
            },
        }
    }
}

/// Scans rows into a sink, given the verdict of the predicate on each.
pub fn scan_into(
    sink: &mut RowSink,
    incoming: Vec<Vec<nodedb_types::Value>>,
    verdicts: Vec<Result<bool, LiteError>>,
) -> (r: Result<(), LiteError>)
    requires
        verdicts@.len() == incoming@.len(),
    ensures
        final(sink).columns == old(sink).columns,
        final(sink).limit == old(sink).limit,
        ({
            let (kept, error) = scanned(
                rows::table_view(old(sink).rows@),
                old(sink).limit,
                rows::table_view(incoming@),
                verdicts_view(verdicts@),
                0,
            );
            &&& rows::table_view(final(sink).rows@) == kept
            &&& match r {
                Ok(_) => error is None,
                Err(e) => error == Some(e@),
            }
        }),
{
    let ghost all = rows::table_view(incoming@);
    let ghost said = verdicts_view(verdicts@);
    let ghost start = rows::table_view(sink.rows@);
    let ghost limit = sink.limit;
    let mut judged = verdicts;
    let mut i: usize = 0;
    while i < incoming.len()
        invariant
            i <= incoming@.len(),
            all == rows::table_view(incoming@),
            said == verdicts_view(verdicts@),
            verdicts@.len() == incoming@.len(),
            judged@.len() == incoming@.len() - i,
            judged@ == verdicts@.skip(i as int),
            sink.columns == old(sink).columns,
            sink.limit == old(sink).limit,
            limit == old(sink).limit,
            start == rows::table_view(old(sink).rows@),
            scanned(start, limit, all, said, 0) == scanned(
                rows::table_view(sink.rows@),
                limit,
                all,
                said,
                i as int,
            ),
        decreases incoming@.len() - i,
    {
        let row = native::copy_natives(incoming[i].as_slice());
        let verdict = judged.remove(0);
        proof {
            assert(verdict == verdicts@[i as int]);
            assert(judged@ =~= verdicts@.skip(i as int + 1));
            assert(all[i as int] == row@);
        }
        match sink.push(row, verdict) {
            Err(e) => return Err(e),
            Ok(more) => {
                if !more {
                    return Ok(());
                }
            },
        }
        i = i + 1;
    }
    Ok(())
}

/// Whether these are the rows of a sink and the outcome after a scan.
pub open spec fn scan_done(
    before: Seq<Seq<nodedb_types::Value>>,
    limit: Option<usize>,
    listed: Seq<Seq<nodedb_types::Value>>,
    verdicts: Seq<Result<bool, ErrorView>>,
    after: Seq<Seq<nodedb_types::Value>>,
    error: Option<ErrorView>,
) -> bool {
    (after, error) == scanned(before, limit, listed, verdicts, 0)
}

/// What an outcome without a value says.
pub open spec fn failure(r: Result<(), LiteError>) -> Option<ErrorView> {
    match r {
        Ok(_) => None,
        Err(e) => Some(e@),
    }
}

/// Scans a collection into a sink: the rows that its source lists, given the
/// verdict of the predicate on each. An engine without rows leaves the sink as
/// it is.
pub fn execute_scan_into(
    sink: &mut RowSink,
    collection: &str,
    engine: EngineType,
    bitemporal: bool,
    strict: Option<&TableSchema>,
    columnar: Option<&TableSchema>,
    listed: Vec<Vec<nodedb_types::Value>>,
    verdicts: Vec<Result<bool, LiteError>>,
) -> (r: Result<(), LiteError>)
    requires
        verdicts@.len() == listed@.len(),
    ensures
        final(sink).limit == old(sink).limit,
        match scan_spec(collection@, engine, bitemporal, strict, columnar) {
            Err(e) => failure(r) == Some(e) && *final(sink) == *old(sink),
            Ok((source, names)) => if source == ScanSource::Nowhere {
                r is Ok && *final(sink) == *old(sink)
            } else {
                names_view(final(sink).columns@) == names && scan_done(
                    rows::table_view(old(sink).rows@),
                    old(sink).limit,
                    rows::table_view(listed@),
                    verdicts_view(verdicts@),
                    rows::table_view(final(sink).rows@),
                    failure(r),
                )
            },
        },
{
    match scan_source(collection, engine, bitemporal, strict, columnar) {
        Err(e) => Err(e),
        Ok((source, names)) => {
            if source == ScanSource::Nowhere {
                return Ok(());
            }
            sink.columns = names;
            scan_into(sink, listed, verdicts)
        },
    }
}

/// The row of a document: its identifier and its text.
pub fn document_row(id: &str, document: &str) -> (r: Vec<nodedb_types::Value>)
    ensures
        r@ == seq![
            native::native_of(DatumView::String(id@)),
            native::native_of(DatumView::String(document@)),
        ],
{
    let mut row: Vec<nodedb_types::Value> = Vec::new();
    row.push(native::native(Datum::String(id.to_owned())));
    row.push(native::native(Datum::String(document.to_owned())));
    row
}

/// The row of a document in the history, whose stored body becomes its text.
pub fn history_row(id: &str, body: &[u8]) -> (r: Vec<nodedb_types::Value>)
    ensures
        r@.len() == 2,
        r@[0] == native::native_of(DatumView::String(id@)),
        body@.len() == 0 ==> r@[1] == native::native_of(DatumView::String("{}"@)),
        body::text_keyed(body@) ==> r@[1] == native::native_of(
            DatumView::String(plan::version_text(body@)),
        ),
{
    let text = plan::stored_document_text(body);
    document_row(id, text.as_str())
}

/// What a point read looks up.
#[derive(Debug)]
pub enum PointRead {
    /// A document of the replicated store.
    Document { key: String },
    /// A row of the strict engine.
    Strict { columns: Vec<String>, row_key: nodedb_types::Value },
    /// Nothing: the answer is empty.
    Nothing,
}

/// What a [`PointRead`] is.
pub enum PointReadView {
    Document { key: Seq<char> },
    Strict { columns: Seq<Seq<char>>, row_key: nodedb_types::Value },
    Nothing,
}

impl View for PointRead {
    type V = PointReadView;

    open spec fn view(&self) -> PointReadView {
        match *self {
            PointRead::Document { key } => PointReadView::Document { key: key@ },
            PointRead::Strict { columns, row_key } => PointReadView::Strict {
                columns: names_view(columns@),
                row_key,
            },
            PointRead::Nothing => PointReadView::Nothing,
        }
    }
}

/// The first primary-key column of a schema at or after `i`.
pub open spec fn key_column_from(s: TableSchema, i: int) -> Option<int>
    decreases s.columns@.len() - i,
{
    if i < 0 || i >= s.columns@.len() {
        None
    } else if s.columns@[i].primary_key {
        Some(i)
    } else {
        key_column_from(s, i + 1)
    }
}

/// What a point read of a collection looks up.
pub open spec fn point_read_spec(
    collection: Seq<char>,
    engine: EngineType,
    key: SqlValue,
    strict: Option<&TableSchema>,
) -> Result<PointReadView, ErrorView> {
    match engine {
        EngineType::DocumentSchemaless => Ok(PointReadView::Document { key: literal_text(key) }),
        EngineType::DocumentStrict => match strict {
            None => Err(
                ErrorView::BadRequest(
                    "strict collection '"@ + collection + "' does not exist"@,
                ),
            ),
            Some(s) => match key_column_from(*s, 0) {
                None => Err(
                    ErrorView::BadRequest(
                        "strict collection '"@ + collection + "' has no primary key column"@,
                    ),
                ),
                Some(k) => Ok(
                    PointReadView::Strict {
                        columns: schema_names(*s),
                        row_key: key_value(
                            literal_text(key),
                            catalog::kind_of(s.columns@[k].column_type),
                        ),
                    },
                ),
            },
        },
        _ => Ok(PointReadView::Nothing),
    }
}

/// What a point read or an error says.
pub open spec fn point_outcome(r: Result<PointRead, LiteError>) -> Result<
    PointReadView,
    ErrorView,
> {
    match r {
        Ok(p) => Ok(p@),
        Err(e) => Err(e@),
    }
}

/// The first primary-key column of a schema.
fn find_key_column(s: &TableSchema) -> (r: Option<usize>)
    ensures
        match r {
            Some(k) => k < s.columns@.len() && key_column_from(*s, 0) == Some(k as int),
            None => key_column_from(*s, 0) is None,
        },
{
    let mut i: usize = 0;
    while i < s.columns.len()
        invariant
            i <= s.columns@.len(),
            key_column_from(*s, 0) == key_column_from(*s, i as int),
        decreases s.columns@.len() - i,
    {
        if s.columns[i].primary_key {
            return Some(i);
        }
        i = i + 1;
    }
    None
}

/// Decides what a point read of a collection looks up.
pub fn point_read(
    collection: &str,
    engine: EngineType,
    key: &SqlValue,
    strict: Option<&TableSchema>,
) -> (r: Result<PointRead, LiteError>)
    ensures
        point_outcome(r) == point_read_spec(collection@, engine, *key, strict),
{
    let written = sql_value_to_string(key);
    match engine {
        EngineType::DocumentSchemaless => Ok(PointRead::Document { key: written }),
        EngineType::DocumentStrict => {
            let s = match strict {
                Some(s) => s,
                None => return Err(
                    LiteError::BadRequest {
                        detail: text::concat3(
                            "strict collection '",
                            collection,
                            "' does not exist",
                        ),
                    },
                ),
            };
            match find_key_column(s) {
                Some(k) => Ok(
                    PointRead::Strict {
                        columns: names_of_schema(s),
                        row_key: parse_pk_value(
                            written.as_str(),
                            catalog::column_kind(&s.columns[k].column_type),
                        ),
                    },
                ),
                None => Err(
                    LiteError::BadRequest {
                        detail: text::concat3(
                            "strict collection '",
                            collection,
                            "' has no primary key column",
                        ),
                    },
                ),
            }
        },
        _ => Ok(PointRead::Nothing),
    }
}

/// The answer to a point read of a document.
pub fn document_answer(key: &str, document: Option<String>) -> (r: QueryResult)
    ensures
        r@ == match document {
            Some(d) => ResultView {
                columns: seq!["id"@, "document"@],
                rows: seq![seq![DatumView::String(key@), DatumView::String(d@)]],
                rows_affected: 0,
                command: None,
            },
            None => result::affected_view(0),
        },
{
    match document {
        None => QueryResult::empty(),
        Some(d) => {
            let mut columns: Vec<String> = Vec::new();
            columns.push("id".to_owned());
            columns.push("document".to_owned());
            let ghost shown = d@;
            let mut row: Vec<Datum> = Vec::new();
            row.push(Datum::String(key.to_owned()));
            row.push(Datum::String(d));
            proof {
                assert(value::row_view(row@) =~= seq![
                    DatumView::String(key@),
                    DatumView::String(shown),
                ]);
            }
            let mut rows: Vec<Vec<Datum>> = Vec::new();
            rows.push(row);
            let r = QueryResult { columns, rows, rows_affected: 0, command: None };
            proof {
                assert(r@.columns =~= seq!["id"@, "document"@]);
                assert(r@.rows =~= seq![
                    seq![DatumView::String(key@), DatumView::String(shown)],
                ]);
            }
            r
        },
    }
}

/// The answer to a point read of a strict row: its columns, and the row if it was
/// found.
pub fn strict_answer(columns: Vec<String>, found: Option<Vec<Datum>>) -> (r: QueryResult)
    ensures
        r@ == (ResultView {
            columns: names_view(columns@),
            rows: match found {
                Some(row) => seq![value::row_view(row@)],
                None => Seq::empty(),
            },
            rows_affected: 0,
            command: None,
        }),
{
    let mut rows: Vec<Vec<Datum>> = Vec::new();
    match found {
        Some(row) => {
            rows.push(row);
            proof {
                assert(value::rows_view(rows@) =~= seq![value::row_view(row@)]);
            }
        },
        None => {
            proof {
                assert(value::rows_view(rows@) =~= Seq::empty());
            }
        },
    }
    QueryResult { columns, rows, rows_affected: 0, command: None }
}

/// What a lookup found.
#[derive(Debug)]
pub enum Found {
    /// The text of a document, if it was there.
    Document(Option<String>),
    /// A strict row, if it was there.
    Row(Option<Vec<Datum>>),
    /// Nothing was looked up.
    Nothing,
}

/// Whether a lookup was the one that a point read asked for.
pub open spec fn looked_up(read: PointRead, found: Found) -> bool {
    match read {
        PointRead::Document { .. } => found is Document,
        PointRead::Strict { .. } => found is Row,
        PointRead::Nothing => found is Nothing,
    }
}

/// The answer to a point read, given what its lookup found.
pub open spec fn point_answer(read: PointReadView, found: Found) -> ResultView {
    match (read, found) {
        (PointReadView::Document { key }, Found::Document(Some(d))) => ResultView {
            columns: seq!["id"@, "document"@],
            rows: seq![seq![DatumView::String(key), DatumView::String(d@)]],
            rows_affected: 0,
            command: None,
        },
        (PointReadView::Strict { columns, .. }, Found::Row(row)) => ResultView {
            columns,
            rows: match row {
                Some(row) => seq![value::row_view(row@)],
                None => Seq::empty(),
            },
            rows_affected: 0,
            command: None,
        },
        _ => result::affected_view(0),
    }
}

/// Answers a point read, given what its lookup found.
pub fn execute_point_get(read: PointRead, found: Found) -> (r: QueryResult)
    requires
        looked_up(read, found),
    ensures
        r@ == point_answer(read@, found),
{
    match read {
        PointRead::Document { key } => match found {
            Found::Document(d) => document_answer(key.as_str(), d),
            _ => QueryResult::empty(),
        },
        PointRead::Strict { columns, .. } => match found {
            Found::Row(row) => strict_answer(columns, row),
            _ => QueryResult::empty(),
        },
        PointRead::Nothing => QueryResult::empty(),
    }
}

/// A scan never keeps more rows than are wanted, and keeps what it had.
pub proof fn scan_respects_the_limit(
    kept: Seq<Seq<nodedb_types::Value>>,
    limit: Option<usize>,
    incoming: Seq<Seq<nodedb_types::Value>>,
    verdicts: Seq<Result<bool, ErrorView>>,
    i: int,
)
    requires
        wants_more(kept.len(), limit),
    ensures
        ({
            let after = scanned(kept, limit, incoming, verdicts, i).0;
            &&& limit matches Some(l) ==> after.len() <= l
            &&& kept.len() <= after.len() && after.take(kept.len() as int) == kept
        }),
    decreases incoming.len() - i,
{
    let after = scanned(kept, limit, incoming, verdicts, i).0;
    if i < 0 || i >= incoming.len() {
        assert(after.take(kept.len() as int) =~= kept);
    } else {
        match verdicts[i] {
            Err(_) => {
                assert(after.take(kept.len() as int) =~= kept);
            },
            Ok(wanted) => {
                let now = if wanted {
                    kept.push(incoming[i])
                } else {
                    kept
                };
                if wants_more(now.len(), limit) {
                    scan_respects_the_limit(now, limit, incoming, verdicts, i + 1);
                    assert(after.take(kept.len() as int) =~= after.take(now.len() as int).take(
                        kept.len() as int,
                    ));
                }
                assert(now.take(kept.len() as int) =~= kept);
            },
        }
    }
}

} // verus!
