use nodedb_lite::dispatch::graph::{GraphHandler, GraphOp};
use nodedb_lite::graph::edges;
use nodedb_lite::graph::edges::{BatchEdge, CsrEdit, HistoryEdit};
use nodedb_lite::graph::execute;
use nodedb_lite::graph::execute::GraphRun;
use nodedb_lite::policy::RlsWriteCheck;
use nodedb_lite::storage::{Namespace, WriteOp};
use nodedb_types::Value;
use std::collections::HashMap;

fn edge(src: &str, dst: &str) -> BatchEdge {
    BatchEdge {
        collection: "social".to_string(),
        src_id: src.to_string(),
        label: "KNOWS".to_string(),
        dst_id: dst.to_string(),
    }
}

#[test]
fn edge_store_key_layout() {
    let k = edges::edge_store_key("social", "alice", "KNOWS", "bob");
    // Must contain all four components separated by NUL.
    let s = String::from_utf8_lossy(&k);
    assert!(s.contains("social"));
    assert!(s.contains("alice"));
    assert!(s.contains("KNOWS"));
    assert!(s.contains("bob"));
}

#[test]
fn different_edges_have_different_keys() {
    let a = edges::edge_store_key("g", "a", "E", "b");
    let b = edges::edge_store_key("g", "b", "E", "a");
    assert_ne!(a, b);
    assert_eq!(a, edges::edge_store_key("g", "a", "E", "b"));
}

#[test]
fn stored_edge_holds_its_parts() {
    let bytes = edges::edge_to_value("g", "a", "E", "b", b"props").expect("encode");
    let fields: HashMap<String, Value> = zerompk::from_msgpack(&bytes)
        .or_else(|_| {
            match zerompk::from_msgpack::<Value>(&bytes) {
                Ok(Value::Object(m)) => Ok(m),
                Ok(_) => panic!("no object"),
                Err(e) => Err(e),
            }
        })
        .expect("decode");
    assert_eq!(fields.get("src"), Some(&Value::String("a".into())));
    assert_eq!(fields.get("dst"), Some(&Value::String("b".into())));
}

#[test]
fn put_adds_the_edge_to_index_and_store() {
    let p = edges::edge_put("social", "alice", "KNOWS", "bob", b"", false).expect("put");
    assert_eq!(p.result.rows_affected, 1);
    assert!(matches!(&p.csr[0], CsrEdit::Add(e) if e.src_id == "alice" && e.dst_id == "bob"));
    assert!(p.history.is_empty());
    match &p.ops[0] {
        WriteOp::Put { ns, key, .. } => {
            assert!(matches!(ns, Namespace::Graph));
            assert_eq!(key, &edges::edge_store_key("social", "alice", "KNOWS", "bob"));
        }
        WriteOp::Delete { .. } => panic!("a put expected"),
    }
}

#[test]
fn bitemporal_put_and_delete_are_recorded() {
    let p = edges::edge_put("social", "alice", "KNOWS", "bob", b"", true).expect("put");
    assert!(matches!(&p.history[0], HistoryEdit::Insert { collection, .. } if collection == "social"));
    let p = edges::edge_delete("social", "alice", "KNOWS", "bob", true);
    assert!(matches!(&p.history[0], HistoryEdit::Delete { .. }));
    assert!(matches!(&p.csr[0], CsrEdit::Remove(_)));
}

#[test]
fn delete_undoes_put_in_the_store() {
    let put = edges::edge_put("social", "alice", "KNOWS", "bob", b"", false).expect("put");
    let del = edges::edge_delete("social", "alice", "KNOWS", "bob", false);
    match (&put.ops[0], &del.ops[0]) {
        (WriteOp::Put { key: a, .. }, WriteOp::Delete { key: b, .. }) => assert_eq!(a, b),
        _ => panic!("a put and a delete expected"),
    }
}

#[test]
fn batches_treat_each_edge_alone() {
    let batch = vec![edge("a", "b"), edge("b", "c"), edge("c", "a")];
    let p = edges::edge_put_batch(&batch, &[false, true, false]).expect("put");
    assert_eq!(p.csr.len(), 3);
    assert_eq!(p.ops.len(), 3);
    assert_eq!(p.history.len(), 1);
    assert_eq!(p.result.rows_affected, 3);
    let d = edges::edge_delete_batch(&batch, &[false, true, false]);
    assert_eq!(d.ops.len(), 3);
    assert_eq!(d.history.len(), 1);
    assert_eq!(d.result.rows_affected, 3);
}

fn edge_delete_op(rls_write_check: RlsWriteCheck) -> GraphOp {
    GraphOp::EdgeDelete {
        collection: "social".to_string(),
        src_id: "alice".to_string(),
        label: "KNOWS".to_string(),
        dst_id: "bob".to_string(),
        rls_write_check,
    }
}

#[test]
fn graph_operations_change_their_edges() {
    let put = GraphOp::EdgePut {
        collection: "social".to_string(),
        src_id: "alice".to_string(),
        label: "KNOWS".to_string(),
        dst_id: "bob".to_string(),
        properties: Vec::new(),
    };
    let key = edges::edge_store_key("social", "alice", "KNOWS", "bob");
    match execute::run(&put, &[false]) {
        Ok(GraphRun::Planned(p)) => {
            assert!(matches!(&p.ops[0], WriteOp::Put { key: k, .. } if *k == key));
            assert!(p.history.is_empty());
        }
        other => panic!("unexpected {other:?}"),
    }
    match execute::run(&edge_delete_op(RlsWriteCheck::NoPolicyApplies), &[true]) {
        Ok(GraphRun::Planned(p)) => {
            assert!(matches!(&p.ops[0], WriteOp::Delete { key: k, .. } if *k == key));
            assert_eq!(p.history.len(), 1);
        }
        other => panic!("unexpected {other:?}"),
    }
    let batch = GraphOp::EdgePutBatch { edges: vec![edge("a", "b"), edge("b", "c")] };
    match execute::run(&batch, &[false, true]) {
        Ok(GraphRun::Planned(p)) => {
            assert_eq!(p.ops.len(), 2);
            assert_eq!(p.history.len(), 1);
        }
        other => panic!("unexpected {other:?}"),
    }
    assert!(matches!(
        execute::run(&GraphOp::Stats { collection: None, as_of: Some(3) }, &[]),
        Ok(GraphRun::Handler(GraphHandler::Stats { collection: None, as_of: Some(3) }))
    ));
}

#[test]
fn undecided_edge_deletes_are_refused() {
    assert!(execute::run(&edge_delete_op(RlsWriteCheck::PendingInjection), &[false]).is_err());
    assert!(execute::run(&edge_delete_op(RlsWriteCheck::Predicate(vec![1])), &[false]).is_err());
}
