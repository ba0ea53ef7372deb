//! What text searches ask for, and which hits they answer with.
use crate::error::LiteError;
use crate::query::text_op;
use crate::query::text_op::{Hit, HybridPlan, Ranked, TextOp, TextPlan};
use crate::result::QueryResult;
use crate::value::DatumView;
use vstd::prelude::*;

verus! {

/// Whether the metadata of a hit meet a predicate. Without one every hit does.
pub open spec fn wanted(hit: Hit, filter: Option<nodedb_types::MetadataFilter>) -> bool {
    filter matches Some(f) ==> text_op::metadata_holds(
        text_op::metadata_json_of(hit.metadata@),
        f,
    )
}

/// The hits that meet a predicate, in order.
pub open spec fn wanted_hits(
    hits: Seq<Hit>,
    filter: Option<nodedb_types::MetadataFilter>,
) -> Seq<Hit> {
    hits.filter(|hit: Hit| wanted(hit, filter))
}

proof fn lemma_passing(hits: Seq<Hit>, filter: Option<nodedb_types::MetadataFilter>)
    ensures
        text_op::passing(hits, filter).len() == wanted_hits(hits, filter).len(),
        forall|i: int|
            0 <= i < wanted_hits(hits, filter).len() ==> #[trigger] text_op::passing(
                hits,
                filter,
            )[i] == (wanted_hits(hits, filter)[i].id@, wanted_hits(hits, filter)[i].score),
    decreases hits.len(),
{
    reveal(Seq::filter);
    if hits.len() > 0 {
        lemma_passing(hits.drop_last(), filter);
        let before = wanted_hits(hits.drop_last(), filter);
        let all = wanted_hits(hits, filter);
        assert(text_op::passes(hits.last(), filter) == wanted(hits.last(), filter));
        if wanted(hits.last(), filter) {
            assert(all == before.push(hits.last()));
        } else {
            assert(all == before);
        }
    }
}

/// A search answers with exactly the hits that meet its predicate, best first as
/// they came, each by its document and its score.
pub proof fn search_answers_with_the_wanted_hits(
    hits: Vec<Hit>,
    filter: &Option<nodedb_types::MetadataFilter>,
    r: QueryResult,
)
    requires
        call_ensures(text_op::search_answer, (hits, filter), r),
    ensures
        r@.columns == seq!["id"@, "score"@],
        r@.rows.len() == wanted_hits(hits@, *filter).len(),
        forall|i: int|
            0 <= i < r@.rows.len() ==> #[trigger] r@.rows[i] == seq![
                DatumView::String(wanted_hits(hits@, *filter)[i].id@),
                DatumView::Other(wanted_hits(hits@, *filter)[i].score),
            ],
{
    lemma_passing(hits@, *filter);
    let shown = text_op::passing(hits@, *filter);
    assert forall|i: int| 0 <= i < r@.rows.len() implies #[trigger] r@.rows[i] == seq![
        DatumView::String(wanted_hits(hits@, *filter)[i].id@),
        DatumView::Other(wanted_hits(hits@, *filter)[i].score),
    ] by {
        assert(shown[i] == (
            wanted_hits(hits@, *filter)[i].id@,
            wanted_hits(hits@, *filter)[i].score,
        ));
    }
}

/// Scored documents are answered one row each, in order, under the name that the
/// score goes by.
pub proof fn every_score_is_answered(
    column: &str,
    hits: Vec<(String, nodedb_types::Value)>,
    r: QueryResult,
)
    requires
        call_ensures(text_op::scored_answer, (column, hits), r),
    ensures
        r@.columns == seq!["id"@, column@],
        r@.rows.len() == hits@.len(),
        forall|i: int|
            0 <= i < hits@.len() ==> #[trigger] r@.rows[i] == seq![
                DatumView::String(hits@[i].0@),
                DatumView::Other(hits@[i].1),
            ],
{
    let shown = text_op::scores_view(hits@);
    assert(shown.len() == hits@.len());
    assert forall|i: int| 0 <= i < hits@.len() implies #[trigger] r@.rows[i] == seq![
        DatumView::String(hits@[i].0@),
        DatumView::Other(hits@[i].1),
    ] by {
        assert(shown[i] == (hits@[i].0@, hits@[i].1));
    }
}

/// A document is ranked by its place in the list, the first at zero.
pub proof fn documents_are_ranked_by_their_places(ids: &[String], r: Vec<Ranked>)
    requires
        call_ensures(text_op::rank_list, (ids,), r),
    ensures
        r@.len() == ids@.len(),
        forall|i: int|
            0 <= i < ids@.len() ==> (#[trigger] r@[i]).document_id@ == ids@[i]@ && r@[i].rank == i,
{
    let shown = text_op::ranked_view(r@);
    assert(shown.len() == r@.len());
    assert(ids.len() == ids@.len());
    assert forall|i: int| 0 <= i < ids@.len() implies (#[trigger] r@[i]).document_id@ == ids@[i]@
        && r@[i].rank == i by {
        assert(shown[i] == (r@[i].document_id@, r@[i].rank));
    }
}

/// Indexing counts one row. Removing counts the document that went, and only what
/// went is sent on, where documents are sent.
pub proof fn text_changes_are_counted(
    outbound: bool,
    removed: Option<String>,
    indexed: (bool, QueryResult),
    deleted: (Option<String>, QueryResult),
)
    requires
        call_ensures(text_op::after_index, (outbound,), indexed),
        call_ensures(text_op::after_delete, (removed, outbound), deleted),
    ensures
        indexed.0 == outbound,
        indexed.1@.rows_affected == 1,
        deleted.1@.rows_affected == if removed is Some {
            1u64
        } else {
            0u64
        },
        deleted.0 is Some <==> removed is Some && outbound,
        deleted.0 is Some ==> deleted.0->0@ == removed->0@,
{
}

/// What every hybrid search keeps of its operation: both legs ask for three times
/// the wanted hits.
pub open spec fn fuses(
    plan: HybridPlan,
    collection: Seq<char>,
    query: Seq<char>,
    top_k: usize,
    fuzzy: bool,
    alias: Option<String>,
) -> bool {
    &&& plan.text.collection@ == collection
    &&& plan.text.query@ == query
    &&& plan.text.limit == 3 * top_k
    &&& plan.text.fuzzy == fuzzy
    &&& plan.vector_limit == 3 * top_k
    &&& plan.limit == top_k
    &&& alias is Some ==> plan.score_column@ == alias->0@
    &&& alias is None ==> plan.score_column@ == "rrf_score"@
}

/// A text operation runs what it names, with its own collection, query, limit and
/// settings. A predicate that cannot be read refuses it. A walk of the graph is
/// part of it just where it goes at least one step.
pub proof fn text_operations_run_what_they_name(op: &TextOp, r: Result<TextPlan, LiteError>)
    requires
        text_op::legs_fit(*op),
        call_ensures(text_op::execute_text_op, (op,), r),
    ensures
        match *op {
            TextOp::Search { collection, query, top_k, fuzzy, rls_filters } => {
                &&& r is Ok <==> rls_filters@.len() == 0 || text_op::decoded_metadata_filter(
                    rls_filters@,
                ) is Ok
                &&& r is Ok ==> (r->Ok_0 matches TextPlan::Search { leg, filter } && leg.collection@
                    == collection@ && leg.query@ == query@ && leg.limit == top_k && leg.fuzzy
                    == fuzzy && (filter is None <==> rls_filters@.len() == 0) && (filter is Some
                    ==> filter->0 == text_op::decoded_metadata_filter(rls_filters@)->Ok_0))
            },
            TextOp::BM25ScoreScan { collection, query, score_alias, fuzzy } => r is Ok && (
            r->Ok_0 matches TextPlan::ScoreScan {
                collection: c,
                query: q,
                fuzzy: f,
                score_column: s,
            } && c@ == collection@ && q@ == query@ && f == fuzzy && s@ == score_alias@),
            TextOp::PhraseSearch { collection, terms, top_k } => r is Ok && (
            r->Ok_0 matches TextPlan::Phrase { collection: c, terms: t, limit } && c@ == collection@
                && t@.len() == terms@.len() && (forall|i: int|
                0 <= i < terms@.len() ==> (#[trigger] t@[i])@ == terms@[i]@) && limit == top_k),
            TextOp::HybridSearch { collection, query_text, top_k, fuzzy, rls_filters, alias } => {
                &&& r is Ok <==> rls_filters@.len() == 0 || text_op::decoded_metadata_filter(
                    rls_filters@,
                ) is Ok
                &&& r is Ok ==> (r->Ok_0 matches TextPlan::Hybrid { plan } && fuses(
                    plan,
                    collection@,
                    query_text@,
                    top_k,
                    fuzzy,
                    alias,
                ) && plan.graph is None)
            },
            TextOp::HybridSearchTriple {
                collection,
                query_text,
                graph_seed_id,
                graph_depth,
                graph_edge_label,
                top_k,
                fuzzy,
                rls_filters,
                alias,
            } => {
                &&& r is Ok <==> rls_filters@.len() == 0 || text_op::decoded_metadata_filter(
                    rls_filters@,
                ) is Ok
                &&& r is Ok ==> (r->Ok_0 matches TextPlan::Hybrid { plan } && fuses(
                    plan,
                    collection@,
                    query_text@,
                    top_k,
                    fuzzy,
                    alias,
                ) && (plan.graph is Some <==> graph_depth > 0) && (plan.graph is Some
                    ==> plan.graph->0.seed@ == graph_seed_id@ && plan.graph->0.depth == graph_depth
                    && (plan.graph->0.label is Some <==> graph_edge_label is Some) && (
                graph_edge_label is Some ==> plan.graph->0.label->0@ == graph_edge_label->0@)))
            },
            TextOp::FtsIndexDoc { collection, surrogate, text } => r is Ok && (
            r->Ok_0 matches TextPlan::IndexDoc { collection: c, doc_id, content, surrogate: s } && c@
                == collection@ && doc_id@ == text@ && content@ == text@ && s == surrogate),
            TextOp::FtsDeleteDoc { collection, surrogate } => r is Ok && (
            r->Ok_0 matches TextPlan::DeleteDoc { collection: c, surrogate: s } && c@ == collection@
                && s == surrogate),
            TextOp::SetTextConfig { collection, analyzer_name, fuzzy_default } => r is Ok && (
            r->Ok_0 matches TextPlan::SetConfig { collection: c, analyzer, fuzzy_default: f } && c@
                == collection@ && f == fuzzy_default && (analyzer is Some <==> analyzer_name is Some)
                && (analyzer is Some ==> analyzer->0@ == analyzer_name->0@)),
        },
{
    match *op {
        TextOp::PhraseSearch { collection, terms, top_k } => {
            if let TextPlan::Phrase { collection: c, terms: t, limit } = r->Ok_0 {
                let a = crate::value::names_view(t@);
                let b = crate::value::names_view(terms@);
                assert(a == b);
                assert(a.len() == t@.len() && b.len() == terms@.len());
                assert forall|i: int| 0 <= i < terms@.len() implies (#[trigger] t@[i])@
                    == terms@[i]@ by {
                    assert(a[i] == b[i]);
                }
            }
        },
        _ => {},
    }
}

} // verus!
