use nodedb_lite::error::LiteError;
use nodedb_lite::query::record::Record;
use nodedb_lite::query::text_op;
use nodedb_lite::query::text_op::{Hit, TextOp, TextPlan};
use nodedb_lite::value::Datum;
use nodedb_types::{MetadataFilter, Value};

fn hit(id: &str, tag: &str) -> Hit {
    let mut metadata = Record::new();
    metadata.set("tag", Value::String(tag.into()));
    Hit { id: id.to_string(), score: Value::Float(0.5), metadata }
}

fn triple(depth: usize, top_k: usize) -> TextOp {
    TextOp::HybridSearchTriple {
        collection: "docs".to_string(),
        query_text: "q".to_string(),
        graph_seed_id: "n1".to_string(),
        graph_depth: depth,
        graph_edge_label: Some("CITES".to_string()),
        top_k,
        fuzzy: false,
        rls_filters: Vec::new(),
        alias: None,
    }
}

#[test]
fn search_reads_its_predicate() {
    let filter = MetadataFilter::eq("tag", "a");
    let op = TextOp::Search {
        collection: "docs".to_string(),
        query: "q".to_string(),
        top_k: 5,
        fuzzy: true,
        rls_filters: zerompk::to_msgpack_vec(&filter).expect("encode"),
    };
    match text_op::execute_text_op(&op).expect("plan") {
        TextPlan::Search { leg, filter: Some(read) } => {
            assert_eq!(leg.limit, 5);
            assert!(leg.fuzzy);
            assert_eq!(read, filter);
        }
        other => panic!("unexpected {other:?}"),
    }
}

#[test]
fn unreadable_predicates_are_refused() {
    let op = TextOp::HybridSearch {
        collection: "docs".to_string(),
        query_text: "q".to_string(),
        top_k: 5,
        fuzzy: false,
        rls_filters: vec![0xc1],
        alias: None,
    };
    match text_op::execute_text_op(&op) {
        Err(LiteError::Serialization { detail }) => {
            assert!(detail.starts_with("decode MetadataFilter: "), "{detail}")
        }
        other => panic!("unexpected {other:?}"),
    }
}

#[test]
fn hybrid_legs_ask_for_three_times_as_many_hits() {
    let op = TextOp::HybridSearch {
        collection: "docs".to_string(),
        query_text: "q".to_string(),
        top_k: 10,
        fuzzy: false,
        rls_filters: Vec::new(),
        alias: Some("s".to_string()),
    };
    match text_op::execute_text_op(&op).expect("plan") {
        TextPlan::Hybrid { plan } => {
            assert_eq!(plan.text.limit, 30);
            assert_eq!(plan.vector_limit, 30);
            assert_eq!(plan.limit, 10);
            assert_eq!(plan.score_column, "s");
            assert!(plan.graph.is_none());
        }
        other => panic!("unexpected {other:?}"),
    }
}

#[test]
fn graph_leg_needs_a_depth_and_visits_enough() {
    match text_op::execute_text_op(&triple(0, 10)).expect("plan") {
        TextPlan::Hybrid { plan } => {
            assert!(plan.graph.is_none());
            assert_eq!(plan.score_column, "rrf_score");
        }
        other => panic!("unexpected {other:?}"),
    }
    match text_op::execute_text_op(&triple(2, 10)).expect("plan") {
        TextPlan::Hybrid { plan } => {
            let graph = plan.graph.expect("graph leg");
            assert_eq!(graph.seed, "n1");
            assert_eq!(graph.label.as_deref(), Some("CITES"));
            assert_eq!(graph.max_visited, text_op::DEFAULT_MAX_VISITED);
        }
        other => panic!("unexpected {other:?}"),
    }
    match text_op::execute_text_op(&triple(100, 1000)).expect("plan") {
        TextPlan::Hybrid { plan } => assert_eq!(plan.graph.expect("graph leg").max_visited, 300_000),
        other => panic!("unexpected {other:?}"),
    }
}

#[test]
fn answers_hold_only_hits_that_pass() {
    let filter = Some(MetadataFilter::eq("tag", "a"));
    let r = text_op::search_answer(vec![hit("1", "a"), hit("2", "b"), hit("3", "a")], &filter);
    assert_eq!(r.columns, vec!["id".to_string(), "score".to_string()]);
    assert_eq!(r.rows.len(), 2);
    assert!(matches!(&r.rows[0][0], Datum::String(s) if s == "1"));
    assert!(matches!(&r.rows[1][0], Datum::String(s) if s == "3"));
    assert!(matches!(&r.rows[0][1], Datum::Other(Value::Float(x)) if *x == 0.5));
    let r = text_op::search_answer(vec![hit("1", "a"), hit("2", "b")], &None);
    assert_eq!(r.rows.len(), 2);
}

#[test]
fn ranks_follow_the_order_of_a_list() {
    let list = text_op::rank_list(&["b".to_string(), "a".to_string()]);
    assert_eq!(list[0].document_id, "b");
    assert_eq!(list[0].rank, 0);
    assert_eq!(list[1].rank, 1);
}

#[test]
fn sent_documents_are_indexed_under_their_text() {
    let op =
        TextOp::FtsIndexDoc { collection: "docs".to_string(), surrogate: 9, text: "body".to_string() };
    match text_op::execute_text_op(&op).expect("plan") {
        TextPlan::IndexDoc { doc_id, content, surrogate, .. } => {
            assert_eq!(doc_id, "body");
            assert_eq!(content, "body");
            assert_eq!(surrogate, 9);
        }
        other => panic!("unexpected {other:?}"),
    }
    let (staged, r) = text_op::after_index(true);
    assert!(staged);
    assert_eq!(r.rows_affected, 1);
    let (staged, r) = text_op::after_delete(Some("body".to_string()), true);
    assert_eq!(staged.as_deref(), Some("body"));
    assert_eq!(r.rows_affected, 1);
    let (staged, r) = text_op::after_delete(None, true);
    assert!(staged.is_none());
    assert_eq!(r.rows_affected, 0);
}

#[test]
fn text_configuration_is_passed_on() {
    let op = TextOp::SetTextConfig {
        collection: "docs".to_string(),
        analyzer_name: Some("german".to_string()),
        fuzzy_default: None,
    };
    match text_op::execute_text_op(&op).expect("plan") {
        TextPlan::SetConfig { collection, analyzer, fuzzy_default } => {
            assert_eq!(collection, "docs");
            assert_eq!(analyzer.as_deref(), Some("german"));
            assert_eq!(fuzzy_default, None);
        }
        other => panic!("unexpected {other:?}"),
    }
}
