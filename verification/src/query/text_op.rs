//! Text operations: what each runs, and its answer.
//!
//! A hybrid search runs several legs, each of which asks for three times as many
//! hits as are wanted, and the ranked lists are fused afterwards.
use crate::error::{ErrorView, LiteError};
use crate::query::record::Record;
use crate::result;
use crate::result::{QueryResult, ResultView};
use crate::text;
use crate::value;
use crate::value::{names_view, Datum, DatumView};
use crate::wire;
use vstd::prelude::*;

verus! {

/// A predicate on the metadata of a hit.
#[verifier::external_type_specification]
#[verifier::external_body]
pub struct ExMetadataFilter(nodedb_types::MetadataFilter);

/// What `zerompk::from_msgpack` reads from `bytes` as a metadata predicate, or
/// the text of its error.
pub uninterp spec fn decoded_metadata_filter(bytes: Seq<u8>) -> Result<
    nodedb_types::MetadataFilter,
    Seq<char>,
>;

/// The JSON value that `serde_json::to_value` makes of named values, null where
/// it fails.
pub uninterp spec fn metadata_json_of(
    fields: Map<Seq<char>, nodedb_types::Value>,
) -> serde_json::Value;

/// Whether `matches_metadata_filter` holds of a JSON value and a predicate.
pub uninterp spec fn metadata_holds(
    doc: serde_json::Value,
    filter: nodedb_types::MetadataFilter,
) -> bool;

/// Calls `zerompk::from_msgpack` for a metadata predicate. The result is the one
/// named [`decoded_metadata_filter`].
#[verifier::external_body]
fn decode_metadata_filter(bytes: &[u8]) -> (r: Result<
    nodedb_types::MetadataFilter,
    String,
>)
    ensures
        match r {
            Ok(f) => decoded_metadata_filter(bytes@) == Ok::<
                nodedb_types::MetadataFilter,
                Seq<char>,
            >(f),
            Err(e) => decoded_metadata_filter(bytes@) == Err::<
                nodedb_types::MetadataFilter,
                Seq<char>,
            >(e@),
        },
{
    zerompk::from_msgpack(bytes).map_err(|e| e.to_string())
}

/// Calls `serde_json::to_value` for named values, each name once. The result is
/// the one named [`metadata_json_of`].
#[verifier::external_body]
fn metadata_json(fields: Vec<(String, nodedb_types::Value)>) -> (r: serde_json::Value)
    requires
        wire::distinct_names(fields@),
    ensures
        r == metadata_json_of(wire::fields_map(fields@)),
{
    let map: std::collections::HashMap<String, nodedb_types::Value> = fields.into_iter().collect();
    serde_json::to_value(&map).unwrap_or_default()
}

/// Calls `nodedb_query::metadata_filter::matches_metadata_filter`. The result is
/// the one named [`metadata_holds`].
#[verifier::external_body]
fn metadata_matches(doc: &serde_json::Value, filter: &nodedb_types::MetadataFilter) -> (r:
    bool)
    ensures
        r == metadata_holds(*doc, *filter),
{
    nodedb_query::metadata_filter::matches_metadata_filter(doc, filter)
}

/// A text operation, without its query vectors and weights.
#[derive(Debug)]
pub enum TextOp {
    /// Ranks the documents that match a query.
    Search { collection: String, query: String, top_k: usize, fuzzy: bool, rls_filters: Vec<u8> },
    /// Scores every document.
    BM25ScoreScan { collection: String, query: String, score_alias: String, fuzzy: bool },
    /// Finds an exact phrase.
    PhraseSearch { collection: String, terms: Vec<String>, top_k: usize },
    /// Fuses a text search and a vector search.
    HybridSearch {
        collection: String,
        query_text: String,
        top_k: usize,
        fuzzy: bool,
        rls_filters: Vec<u8>,
        alias: Option<String>,
    },
    /// Fuses a text search, a vector search and a walk of the graph.
    HybridSearchTriple {
        collection: String,
        query_text: String,
        graph_seed_id: String,
        graph_depth: usize,
        graph_edge_label: Option<String>,
        top_k: usize,
        fuzzy: bool,
        rls_filters: Vec<u8>,
        alias: Option<String>,
    },
    /// Indexes a document that another database sent.
    FtsIndexDoc { collection: String, surrogate: u32, text: String },
    /// Removes a document that another database sent.
    FtsDeleteDoc { collection: String, surrogate: u32 },
    /// Sets how the texts of a collection are read.
    SetTextConfig {
        collection: String,
        analyzer_name: Option<String>,
        fuzzy_default: Option<bool>,
    },
}

/// A text search.
#[derive(Debug)]
pub struct TextLeg {
    /// The collection.
    pub collection: String,
    /// The query.
    pub query: String,
    /// How many hits are asked for.
    pub limit: usize,
    /// Whether typing errors are forgiven.
    pub fuzzy: bool,
}

/// What a [`TextLeg`] is.
pub struct TextLegView {
    pub collection: Seq<char>,
    pub query: Seq<char>,
    pub limit: usize,
    pub fuzzy: bool,
}

impl View for TextLeg {
    type V = TextLegView;

    open spec fn view(&self) -> TextLegView {
        TextLegView {
            collection: self.collection@,
            query: self.query@,
            limit: self.limit,
            fuzzy: self.fuzzy,
        }
    }
}

/// A walk of the graph along outgoing edges.
#[derive(Debug)]
pub struct GraphLeg {
    /// Where the walk starts.
    pub seed: String,
    /// The label of the edges to follow, or any.
    pub label: Option<String>,
    /// How far the walk goes.
    pub depth: usize,
    /// How many nodes are visited at most.
    pub max_visited: usize,
}

/// What a [`GraphLeg`] is.
pub struct GraphLegView {
    pub seed: Seq<char>,
    pub label: Option<Seq<char>>,
    pub depth: usize,
    pub max_visited: usize,
}

impl View for GraphLeg {
    type V = GraphLegView;

    open spec fn view(&self) -> GraphLegView {
        GraphLegView {
            seed: self.seed@,
            label: match self.label {
                Some(l) => Some(l@),
                None => None,
            },
            depth: self.depth,
            max_visited: self.max_visited,
        }
    }
}

/// A hybrid search.
#[derive(Debug)]
pub struct HybridPlan {
    /// The text search.
    pub text: TextLeg,
    /// How many hits of the vector search are asked for.
    pub vector_limit: usize,
    /// The predicate on the hits of the vector search.
    pub vector_filter: Option<nodedb_types::MetadataFilter>,
    /// The walk of the graph, where there is one.
    pub graph: Option<GraphLeg>,
    /// How many fused hits are wanted.
    pub limit: usize,
    /// The name of the score column.
    pub score_column: String,
}

/// What a [`HybridPlan`] is.
pub struct HybridPlanView {
    pub text: TextLegView,
    pub vector_limit: usize,
    pub vector_filter: Option<nodedb_types::MetadataFilter>,
    pub graph: Option<GraphLegView>,
    pub limit: usize,
    pub score_column: Seq<char>,
}

impl View for HybridPlan {
    type V = HybridPlanView;

    open spec fn view(&self) -> HybridPlanView {
        HybridPlanView {
            text: self.text@,
            vector_limit: self.vector_limit,
            vector_filter: self.vector_filter,
            graph: match self.graph {
                Some(g) => Some(g@),
                None => None,
            },
            limit: self.limit,
            score_column: self.score_column@,
        }
    }
}

/// What a text operation runs.
#[derive(Debug)]
pub enum TextPlan {
    /// A text search whose hits are judged by a predicate.
    Search { leg: TextLeg, filter: Option<nodedb_types::MetadataFilter> },
    /// A score for every document.
    ScoreScan { collection: String, query: String, fuzzy: bool, score_column: String },
    /// A search for a phrase.
    Phrase { collection: String, terms: Vec<String>, limit: usize },
    /// A hybrid search.
    Hybrid { plan: HybridPlan },
    /// Indexing a document under its own text, and noting its number.
    IndexDoc { collection: String, doc_id: String, content: String, surrogate: u32 },
    /// Removing the document of a number.
    DeleteDoc { collection: String, surrogate: u32 },
    /// Setting the analyzer and whether typing errors are forgiven, each where it
    /// is given.
    SetConfig { collection: String, analyzer: Option<String>, fuzzy_default: Option<bool> },
}

/// What a [`TextPlan`] is.
pub enum TextPlanView {
    Search { leg: TextLegView, filter: Option<nodedb_types::MetadataFilter> },
    ScoreScan {
        collection: Seq<char>,
        query: Seq<char>,
        fuzzy: bool,
        score_column: Seq<char>,
    },
    Phrase { collection: Seq<char>, terms: Seq<Seq<char>>, limit: usize },
    Hybrid { plan: HybridPlanView },
    IndexDoc { collection: Seq<char>, doc_id: Seq<char>, content: Seq<char>, surrogate: u32 },
    DeleteDoc { collection: Seq<char>, surrogate: u32 },
    SetConfig {
        collection: Seq<char>,
        analyzer: Option<Seq<char>>,
        fuzzy_default: Option<bool>,
    },
}

impl View for TextPlan {
    type V = TextPlanView;

    open spec fn view(&self) -> TextPlanView {
        match *self {
            TextPlan::Search { leg, filter } => TextPlanView::Search { leg: leg@, filter },
            TextPlan::ScoreScan { collection, query, fuzzy, score_column } => {
                TextPlanView::ScoreScan {
                    collection: collection@,
                    query: query@,
                    fuzzy,
                    score_column: score_column@,
                }
            },
            TextPlan::Phrase { collection, terms, limit } => TextPlanView::Phrase {
                collection: collection@,
                terms: names_view(terms@),
                limit,
            },
            TextPlan::Hybrid { plan } => TextPlanView::Hybrid { plan: plan@ },
            TextPlan::IndexDoc { collection, doc_id, content, surrogate } => {
                TextPlanView::IndexDoc {
                    collection: collection@,
                    doc_id: doc_id@,
                    content: content@,
                    surrogate,
                }
            },
            TextPlan::DeleteDoc { collection, surrogate } => TextPlanView::DeleteDoc {
                collection: collection@,
                surrogate,
            },
            TextPlan::SetConfig { collection, analyzer, fuzzy_default } => {
                TextPlanView::SetConfig {
                    collection: collection@,
                    analyzer: match analyzer {
                        Some(a) => Some(a@),
                        None => None,
                    },
                    fuzzy_default,
                }
            },
        }
    }
}

/// How many nodes a walk of the graph may visit at least.
pub const DEFAULT_MAX_VISITED: usize = 100_000;

/// The predicate of an operation: none for nothing, else what is encoded.
pub open spec fn read_filter(bytes: Seq<u8>) -> Result<
    Option<nodedb_types::MetadataFilter>,
    ErrorView,
> {
    if bytes.len() == 0 {
        Ok(None)
    } else {
        match decoded_metadata_filter(bytes) {
            Ok(f) => Ok(Some(f)),
            Err(e) => Err(ErrorView::Serialization("decode MetadataFilter: "@ + e)),
        }
    }
}

/// The name of the score column of a fused search.
pub open spec fn fused_column(alias: Option<String>) -> Seq<char> {
    match alias {
        Some(a) => a@,
        None => "rrf_score"@,
    }
}

/// A number, or the largest one where it does not fit.
pub open spec fn saturated(n: int) -> usize {
    if n > usize::MAX {
        usize::MAX
    } else {
        n as usize
    }
}

/// How many nodes a walk of the graph visits at most.
pub open spec fn visit_limit(depth: usize, legs: usize) -> usize {
    if saturated(depth * legs) < DEFAULT_MAX_VISITED {
        DEFAULT_MAX_VISITED
    } else {
        saturated(depth * legs)
    }
}

/// The hybrid search of an operation.
pub open spec fn hybrid_spec(
    collection: Seq<char>,
    query: Seq<char>,
    top_k: usize,
    fuzzy: bool,
    filter: Option<nodedb_types::MetadataFilter>,
    alias: Option<String>,
    graph: Option<GraphLegView>,
) -> TextPlanView {
    let legs = (top_k * 3) as usize;
    TextPlanView::Hybrid {
        plan: HybridPlanView {
            text: TextLegView { collection, query, limit: legs, fuzzy },
            vector_limit: legs,
            vector_filter: filter,
            graph,
            limit: top_k,
            score_column: fused_column(alias),
        },
    }
}

/// What a text operation runs, or why it is refused.
pub open spec fn text_plan(op: TextOp) -> Result<TextPlanView, ErrorView> {
    match op {
        TextOp::Search { collection, query, top_k, fuzzy, rls_filters } => {
            match read_filter(rls_filters@) {
                Err(e) => Err(e),
                Ok(filter) => Ok(
                    TextPlanView::Search {
                        leg: TextLegView {
                            collection: collection@,
                            query: query@,
                            limit: top_k,
                            fuzzy,
                        },
                        filter,
                    },
                ),
            }
        },
        TextOp::BM25ScoreScan { collection, query, score_alias, fuzzy } => Ok(
            TextPlanView::ScoreScan {
                collection: collection@,
                query: query@,
                fuzzy,
                score_column: score_alias@,
            },
        ),
        TextOp::PhraseSearch { collection, terms, top_k } => Ok(
            TextPlanView::Phrase {
                collection: collection@,
                terms: names_view(terms@),
                limit: top_k,
            },
        ),
        TextOp::HybridSearch { collection, query_text, top_k, fuzzy, rls_filters, alias } => {
            match read_filter(rls_filters@) {
                Err(e) => Err(e),
                Ok(filter) => Ok(
                    hybrid_spec(
                        collection@,
                        query_text@,
                        top_k,
                        fuzzy,
                        filter,
                        alias,
                        None,
                    ),
                ),
            }
        },
        TextOp::HybridSearchTriple {
            collection,
            query_text,
            graph_seed_id,
            graph_depth,
            graph_edge_label,
            top_k,
            fuzzy,
            rls_filters,
            alias,
        } => {
            match read_filter(rls_filters@) {
                Err(e) => Err(e),
                Ok(filter) => Ok(
                    hybrid_spec(
                        collection@,
                        query_text@,
                        top_k,
                        fuzzy,
                        filter,
                        alias,
                        if graph_depth > 0 {
                            Some(
                                GraphLegView {
                                    seed: graph_seed_id@,
                                    label: match graph_edge_label {
                                        Some(l) => Some(l@),
                                        None => None,
                                    },
                                    depth: graph_depth,
                                    max_visited: visit_limit(graph_depth, (top_k * 3) as usize),
                                },
                            )
                        } else {
                            None
                        },
                    ),
                ),
            }
        },
        TextOp::FtsIndexDoc { collection, surrogate, text } => Ok(
            TextPlanView::IndexDoc {
                collection: collection@,
                doc_id: text@,
                content: text@,
                surrogate,
            },
        ),
        TextOp::FtsDeleteDoc { collection, surrogate } => Ok(
            TextPlanView::DeleteDoc { collection: collection@, surrogate },
        ),
        TextOp::SetTextConfig { collection, analyzer_name, fuzzy_default } => Ok(
            TextPlanView::SetConfig {
                collection: collection@,
                analyzer: match analyzer_name {
                    Some(a) => Some(a@),
                    None => None,
                },
                fuzzy_default,
            },
        ),
    }
}

/// Whether the legs of a hybrid search can be counted.
pub open spec fn legs_fit(op: TextOp) -> bool {
    match op {
        TextOp::HybridSearch { top_k, .. } => top_k * 3 <= usize::MAX,
        TextOp::HybridSearchTriple { top_k, .. } => top_k * 3 <= usize::MAX,
        _ => true,
    }
}

/// What a plan or an error says.
pub open spec fn text_outcome(r: Result<TextPlan, LiteError>) -> Result<TextPlanView, ErrorView> {
    match r {
        Ok(p) => Ok(p@),
        Err(e) => Err(e@),
    }
}

/// Reads the predicate of an operation.
fn filter_of(bytes: &Vec<u8>) -> (r: Result<
    Option<nodedb_types::MetadataFilter>,
    LiteError,
>)
    ensures
        match r {
            Ok(f) => read_filter(bytes@) == Ok::<
                Option<nodedb_types::MetadataFilter>,
                ErrorView,
            >(f),
            Err(e) => read_filter(bytes@) == Err::<
                Option<nodedb_types::MetadataFilter>,
                ErrorView,
            >(e@),
        },
{
    if bytes.len() == 0 {
        return Ok(None);
    }
    match decode_metadata_filter(bytes.as_slice()) {
        Ok(f) => Ok(Some(f)),
        Err(e) => Err(
            LiteError::Serialization {
                detail: text::concat2("decode MetadataFilter: ", e.as_str()),
            },
        ),
    }
}

/// The name of the score column of a fused search.
fn fused_column_of(alias: &Option<String>) -> (r: String)
    ensures
        r@ == fused_column(*alias),
{
    match alias {
        Some(a) => a.as_str().to_owned(),
        None => "rrf_score".to_owned(),
    }
}

/// How many nodes a walk of the graph visits at most.
fn visit_limit_of(depth: usize, legs: usize) -> (r: usize)
    ensures
        r == visit_limit(depth, legs),
{
    let product: usize = match depth.checked_mul(legs) {
        Some(p) => p,
        None => usize::MAX,
    };
    if product < DEFAULT_MAX_VISITED {
        DEFAULT_MAX_VISITED
    } else {
        product
    }
}

/// Plans a text operation.
pub fn execute_text_op(op: &TextOp) -> (r: Result<TextPlan, LiteError>)
    requires
        legs_fit(*op),
    ensures
        text_outcome(r) == text_plan(*op),
{
    match op {
        TextOp::Search { collection, query, top_k, fuzzy, rls_filters } => {
            let filter = match filter_of(rls_filters) {
                Ok(f) => f,
                Err(e) => return Err(e),
            };
            let leg = TextLeg {
                collection: collection.as_str().to_owned(),
                query: query.as_str().to_owned(),
                limit: *top_k,
                fuzzy: *fuzzy,
            };
            Ok(TextPlan::Search { leg, filter })
        },
        TextOp::BM25ScoreScan { collection, query, score_alias, fuzzy } => Ok(
            TextPlan::ScoreScan {
                collection: collection.as_str().to_owned(),
                query: query.as_str().to_owned(),
                fuzzy: *fuzzy,
                score_column: score_alias.as_str().to_owned(),
            },
        ),
        TextOp::PhraseSearch { collection, terms, top_k } => Ok(
            TextPlan::Phrase {
                collection: collection.as_str().to_owned(),
                terms: crate::query::engine::copy_names(terms.as_slice()),
                limit: *top_k,
            },
        ),
        TextOp::HybridSearch { collection, query_text, top_k, fuzzy, rls_filters, alias } => {
            let filter = match filter_of(rls_filters) {
                Ok(f) => f,
                Err(e) => return Err(e),
            };
            let legs: usize = *top_k * 3;
            let plan = HybridPlan {
                text: TextLeg {
                    collection: collection.as_str().to_owned(),
                    query: query_text.as_str().to_owned(),
                    limit: legs,
                    fuzzy: *fuzzy,
                },
                vector_limit: legs,
                vector_filter: filter,
                graph: None,
                limit: *top_k,
                score_column: fused_column_of(alias),
            };
            Ok(TextPlan::Hybrid { plan })
        },
        TextOp::HybridSearchTriple {
            collection,
            query_text,
            graph_seed_id,
            graph_depth,
            graph_edge_label,
            top_k,
            fuzzy,
            rls_filters,
            alias,
        } => {
            let filter = match filter_of(rls_filters) {
                Ok(f) => f,
                Err(e) => return Err(e),
            };
            let legs: usize = *top_k * 3;
            let graph = if *graph_depth > 0 {
                let label = match graph_edge_label {
                    Some(l) => Some(l.as_str().to_owned()),
                    None => None,
                };
                Some(
                    GraphLeg {
                        seed: graph_seed_id.as_str().to_owned(),
                        label,
                        depth: *graph_depth,
                        max_visited: visit_limit_of(*graph_depth, legs),
                    },
                )
            } else {
                None
            };
            let plan = HybridPlan {
                text: TextLeg {
                    collection: collection.as_str().to_owned(),
                    query: query_text.as_str().to_owned(),
                    limit: legs,
                    fuzzy: *fuzzy,
                },
                vector_limit: legs,
                vector_filter: filter,
                graph,
                limit: *top_k,
                score_column: fused_column_of(alias),
            };
            Ok(TextPlan::Hybrid { plan })
        },
        TextOp::FtsIndexDoc { collection, surrogate, text } => Ok(
            TextPlan::IndexDoc {
                collection: collection.as_str().to_owned(),
                doc_id: text.as_str().to_owned(),
                content: text.as_str().to_owned(),
                surrogate: *surrogate,
            },
        ),
        TextOp::FtsDeleteDoc { collection, surrogate } => Ok(
            TextPlan::DeleteDoc {
                collection: collection.as_str().to_owned(),
                surrogate: *surrogate,
            },
        ),
        TextOp::SetTextConfig { collection, analyzer_name, fuzzy_default } => {
            let analyzer = match analyzer_name {
                Some(a) => Some(a.as_str().to_owned()),
                None => None,
            };
            Ok(
                TextPlan::SetConfig {
                    collection: collection.as_str().to_owned(),
                    analyzer,
                    fuzzy_default: *fuzzy_default,
                },
            )
        },
    }
}

/// A scored document.
#[derive(Debug)]
pub struct Hit {
    /// The document.
    pub id: String,
    /// Its score.
    pub score: nodedb_types::Value,
    /// Its metadata.
    pub metadata: Record,
}

/// The rows of scored documents.
pub open spec fn hit_rows(hits: Seq<(Seq<char>, nodedb_types::Value)>) -> Seq<Seq<DatumView>> {
    hits.map_values(
        |h: (Seq<char>, nodedb_types::Value)|
            seq![DatumView::String(h.0), DatumView::Other(h.1)],
    )
}

/// The answer of scored documents.
pub open spec fn scored_view(
    score_column: Seq<char>,
    hits: Seq<(Seq<char>, nodedb_types::Value)>,
) -> ResultView {
    ResultView {
        columns: seq!["id"@, score_column],
        rows: hit_rows(hits),
        rows_affected: 0,
        command: None,
    }
}

/// What scored documents are.
pub open spec fn scores_view(hits: Seq<(String, nodedb_types::Value)>) -> Seq<
    (Seq<char>, nodedb_types::Value),
> {
    hits.map_values(|h: (String, nodedb_types::Value)| (h.0@, h.1))
}

/// Answers with scored documents, one row each.
pub fn scored_answer(score_column: &str, hits: Vec<(String, nodedb_types::Value)>) -> (r:
    QueryResult)
    ensures
        r@ == scored_view(score_column@, scores_view(hits@)),
{
    let mut columns: Vec<String> = Vec::new();
    columns.push("id".to_owned());
    columns.push(score_column.to_owned());
    let ghost all = scores_view(hits@);
    let ghost wanted = hit_rows(all);
    let mut rows: Vec<Vec<Datum>> = Vec::new();
    proof {
        assert(value::rows_view(rows@) =~= wanted.take(0));
    }
    for hit in it: hits
        invariant
            it.seq() == hits@,
            all == scores_view(hits@),
            wanted == hit_rows(all),
            value::rows_view(rows@) == wanted.take(it.index() as int),
    {
        let ghost at = it.index() as int;
        let ghost before = value::rows_view(rows@);
        let ghost shown = (hit.0@, hit.1);
        let mut row: Vec<Datum> = Vec::new();
        row.push(Datum::String(hit.0));
        row.push(Datum::Other(hit.1));
        proof {
            assert(value::row_view(row@) =~= seq![
                DatumView::String(shown.0),
                DatumView::Other(shown.1),
            ]);
        }
        rows.push(row);
        proof {
            assert(all[at] == shown);
            assert(value::rows_view(rows@) =~= before.push(wanted[at]));
            assert(wanted.take(at + 1) =~= wanted.take(at).push(wanted[at]));
        }
    }
    let r = QueryResult { columns, rows, rows_affected: 0, command: None };
    proof {
        assert(wanted.take(wanted.len() as int) =~= wanted);
        assert(r@.columns =~= seq!["id"@, score_column@]);
    }
    r
}

/// Whether a hit passes a predicate on its metadata.
pub open spec fn passes(hit: Hit, filter: Option<nodedb_types::MetadataFilter>) -> bool {
    match filter {
        Some(f) => metadata_holds(metadata_json_of(hit.metadata@), f),
        None => true,
    }
}

/// The hits that pass a predicate, in order.
pub open spec fn passing(
    hits: Seq<Hit>,
    filter: Option<nodedb_types::MetadataFilter>,
) -> Seq<(Seq<char>, nodedb_types::Value)>
    decreases hits.len(),
{
    if hits.len() == 0 {
        Seq::empty()
    } else if passes(hits.last(), filter) {
        passing(hits.drop_last(), filter).push((hits.last().id@, hits.last().score))
    } else {
        passing(hits.drop_last(), filter)
    }
}

/// Every row of a search's answer belongs to a hit that passes the predicate.
pub proof fn answers_pass_the_filter(
    hits: Seq<Hit>,
    filter: Option<nodedb_types::MetadataFilter>,
    row: int,
)
    requires
        0 <= row < passing(hits, filter).len(),
    ensures
        exists|i: int|
            0 <= i < hits.len() && passes(#[trigger] hits[i], filter) && passing(hits, filter)[row]
                == (hits[i].id@, hits[i].score),
    decreases hits.len(),
{
    let rest = passing(hits.drop_last(), filter);
    if row < rest.len() {
        answers_pass_the_filter(hits.drop_last(), filter, row);
        let i = choose|i: int|
            0 <= i < hits.drop_last().len() && passes(#[trigger] hits.drop_last()[i], filter)
                && rest[row] == (hits.drop_last()[i].id@, hits.drop_last()[i].score);
        assert(hits[i] == hits.drop_last()[i]);
    } else {
        assert(hits[hits.len() - 1] == hits.last());
    }
}

/// Answers a search with the hits that pass its predicate.
pub fn search_answer(
    hits: Vec<Hit>,
    filter: &Option<nodedb_types::MetadataFilter>,
) -> (r: QueryResult)
    ensures
        r@ == scored_view("score"@, passing(hits@, *filter)),
{
    let ghost all = hits@;
    let mut kept: Vec<(String, nodedb_types::Value)> = Vec::new();
    proof {
        assert(scores_view(kept@) =~= passing(all.take(0), *filter));
    }
    for hit in it: hits
        invariant
            it.seq() == hits@,
            all == hits@,
            scores_view(kept@) == passing(all.take(it.index() as int), *filter),
    {
        let ghost at = it.index() as int;
        proof {
            assert(all[at] == hit);
            assert(all.take(at + 1).drop_last() =~= all.take(at));
        }
        let wanted: bool = match filter {
            Some(f) => {
                let doc = metadata_json(hit.metadata.to_fields());
                metadata_matches(&doc, f)
            },
            None => true,
        };
        if wanted {
            let ghost before = scores_view(kept@);
            let ghost shown = (hit.id@, hit.score);
            kept.push((hit.id, hit.score));
            proof {
                assert(scores_view(kept@) =~= before.push(shown));
            }
        }
    }
    proof {
        assert(all.take(all.len() as int) =~= all);
    }
    scored_answer("score", kept)
}

/// A document with its place in a ranked list.
#[derive(Debug)]
pub struct Ranked {
    /// The document.
    pub document_id: String,
    /// Its place, from zero.
    pub rank: usize,
}

/// What ranked documents are.
pub open spec fn ranked_view(list: Seq<Ranked>) -> Seq<(Seq<char>, usize)> {
    list.map_values(|r: Ranked| (r.document_id@, r.rank))
}

/// Ranks documents by their order.
pub fn rank_list(ids: &[String]) -> (r: Vec<Ranked>)
    ensures
        ranked_view(r@) == Seq::new(
            ids@.len(),
            |i: int| (names_view(ids@)[i], i as usize),
        ),
{
    let mut out: Vec<Ranked> = Vec::new();
    let ghost all = Seq::new(ids@.len(), |i: int| (names_view(ids@)[i], i as usize));
    let mut i: usize = 0;
    proof {
        assert(ranked_view(out@) =~= all.take(0));
    }
    while i < ids.len()
        invariant
            i <= ids@.len(),
            all == Seq::new(ids@.len(), |i: int| (names_view(ids@)[i], i as usize)),
            ranked_view(out@) == all.take(i as int),
        decreases ids@.len() - i,
    {
        let ghost before = ranked_view(out@);
        let entry = Ranked { document_id: ids[i].as_str().to_owned(), rank: i };
        out.push(entry);
        proof {
            assert(ranked_view(out@) =~= before.push((entry.document_id@, entry.rank)));
            assert(all.take(i as int + 1) =~= all.take(i as int).push(all[i as int]));
        }
        i = i + 1;
    }
    proof {
        assert(all.take(i as int) =~= all);
    }
    out
}

/// The answer to indexing a document, and whether it is queued for
/// synchronisation.
pub fn after_index(outbound: bool) -> (r: (bool, QueryResult))
    ensures
        r.0 == outbound,
        r.1@ == result::affected_view(1),
{
    (outbound, QueryResult::affected(1))
}

/// The answer to removing a document, and the removal that is queued for
/// synchronisation. A number without a document removes nothing.
pub fn after_delete(removed: Option<String>, outbound: bool) -> (r: (
    Option<String>,
    QueryResult,
))
    ensures
        r.1@ == result::affected_view(
            if removed is Some {
                1
            } else {
                0
            },
        ),
        match (removed, r.0) {
            (Some(d), Some(q)) => outbound && q@ == d@,
            (Some(_), None) => !outbound,
            (None, q) => q is None,
        },
{
    match removed {
        Some(d) => if outbound {
            (Some(d), QueryResult::affected(1))
        } else {
            (None, QueryResult::affected(1))
        },
        None => (None, QueryResult::affected(0)),
    }
}

} // verus!
