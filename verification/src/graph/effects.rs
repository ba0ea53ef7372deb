//! What edge requests leave in the adjacency index, the store and the history.
use crate::error::LiteError;
use crate::graph::edges;
use crate::graph::edges::{BatchEdge, CsrEditView, EdgePlan, EdgeView, HistoryView};
use crate::native;
use crate::storage;
use crate::storage::{Namespace, OpView, Store};
use crate::value::DatumView;
use crate::wire;
use vstd::prelude::*;
use vstd::utf8::encode_utf8;

verus! {

/// Where an edge is stored: its collection, source, label and destination with a
/// zero byte between each two.
pub open spec fn place(e: EdgeView) -> (Namespace, Seq<u8>) {
    (
        Namespace::Graph,
        encode_utf8(e.collection) + seq![0u8] + encode_utf8(e.src) + seq![0u8] + encode_utf8(
            e.label,
        ) + seq![0u8] + encode_utf8(e.dst),
    )
}

/// The edges of an adjacency index after changes made in order.
pub open spec fn adjacent(known: Set<EdgeView>, edits: Seq<CsrEditView>) -> Set<EdgeView>
    decreases edits.len(),
{
    if edits.len() == 0 {
        known
    } else {
        let before = adjacent(known, edits.drop_last());
        match edits.last() {
            CsrEditView::Add(e) => before.insert(e),
            CsrEditView::Remove(e) => before.remove(e),
        }
    }
}

/// Whether bytes encode an edge: its four parts under their names, and its
/// properties where it has any.
pub open spec fn encodes_edge(bytes: Seq<u8>, e: EdgeView, props: Seq<u8>) -> bool {
    exists|m: Map<Seq<char>, nodedb_types::Value>|
        {
            &&& #[trigger] wire::encodes_record(bytes, m)
            &&& m.dom().contains("collection"@) && m["collection"@] == native::native_of(
                DatumView::String(e.collection),
            )
            &&& m.dom().contains("src"@) && m["src"@] == native::native_of(
                DatumView::String(e.src),
            )
            &&& m.dom().contains("label"@) && m["label"@] == native::native_of(
                DatumView::String(e.label),
            )
            &&& m.dom().contains("dst"@) && m["dst"@] == native::native_of(
                DatumView::String(e.dst),
            )
            &&& m.dom().contains("props"@) <==> props.len() > 0
            &&& props.len() > 0 ==> m["props"@] == native::native_of(DatumView::Bytes(props))
        }
}

proof fn lemma_names()
    ensures
        "collection"@ != "src"@ && "collection"@ != "label"@ && "collection"@ != "dst"@,
        "src"@ != "label"@ && "src"@ != "dst"@ && "label"@ != "dst"@,
        "props"@ != "collection"@ && "props"@ != "src"@ && "props"@ != "label"@ && "props"@
            != "dst"@,
{
    reveal_strlit("collection");
    reveal_strlit("src");
    reveal_strlit("label");
    reveal_strlit("dst");
    reveal_strlit("props");
    assert("collection"@[0] == 'c' && "src"@[0] == 's' && "label"@[0] == 'l' && "dst"@[0] == 'd'
        && "props"@[0] == 'p');
}

proof fn lemma_put(op: OpView, e: EdgeView, props: Seq<u8>)
    requires
        edges::puts_edge(op, e, props),
    ensures
        op matches OpView::Put { ns, key, value } && (ns, key) == place(e) && encodes_edge(
            value,
            e,
            props,
        ),
{
    lemma_names();
    match op {
        OpView::Put { ns, key, value } => {
            let m = edges::record(e, props);
            assert(wire::encodes_record(value, m));
        },
        _ => {},
    }
}

/// A written edge is in the adjacency index, and the store holds it at its place
/// and is otherwise unchanged. A collection with a history records it with its
/// properties. The answer counts one row.
pub proof fn put_edge_is_kept(
    known: Set<EdgeView>,
    store: Store,
    collection: &str,
    src: &str,
    label: &str,
    dst: &str,
    props: &[u8],
    bitemporal: bool,
    r: Result<EdgePlan, LiteError>,
)
    requires
        call_ensures(edges::edge_put, (collection, src, label, dst, props, bitemporal), r),
    ensures
        r is Ok,
        ({
            let e = EdgeView { collection: collection@, src: src@, label: label@, dst: dst@ };
            let p = r->Ok_0;
            let after = storage::apply_ops(store, storage::ops_view(p.ops@));
            &&& adjacent(known, edges::csr_view(p.csr@)) == known.insert(e)
            &&& after.dom().contains(place(e)) && encodes_edge(after[place(e)], e, props@)
            &&& after.remove(place(e)) == store.remove(place(e))
            &&& edges::history_view(p.history@) == if bitemporal {
                seq![
                    HistoryView::Insert {
                        collection: collection@,
                        edge_key: src@ + "->"@ + dst@ + ":"@ + label@,
                        props: DatumView::Bytes(props@),
                    },
                ]
            } else {
                Seq::<HistoryView>::empty()
            }
            &&& p.result@.rows_affected == 1
        }),
{
    let e = EdgeView { collection: collection@, src: src@, label: label@, dst: dst@ };
    let p = r->Ok_0;
    let csr = edges::csr_view(p.csr@);
    assert(csr.drop_last() =~= Seq::<CsrEditView>::empty());
    reveal_with_fuel(adjacent, 2);
    let ops = storage::ops_view(p.ops@);
    assert(ops =~= seq![p.ops@[0]@]);
    assert(ops.drop_last() =~= Seq::<OpView>::empty());
    reveal_with_fuel(storage::apply_ops, 2);
    lemma_put(p.ops@[0]@, e, props@);
    let after = storage::apply_ops(store, ops);
    assert(after.remove(place(e)) =~= store.remove(place(e)));
}

/// A deleted edge is neither in the adjacency index nor in the store, and every
/// other edge stays. A collection with a history records that it went.
pub proof fn deleted_edge_is_gone(
    known: Set<EdgeView>,
    store: Store,
    collection: &str,
    src: &str,
    label: &str,
    dst: &str,
    bitemporal: bool,
    p: EdgePlan,
)
    requires
        call_ensures(edges::edge_delete, (collection, src, label, dst, bitemporal), p),
    ensures
        ({
            let e = EdgeView { collection: collection@, src: src@, label: label@, dst: dst@ };
            &&& adjacent(known, edges::csr_view(p.csr@)) == known.remove(e)
            &&& storage::apply_ops(store, storage::ops_view(p.ops@)) == store.remove(place(e))
            &&& edges::history_view(p.history@) == if bitemporal {
                seq![
                    HistoryView::Delete {
                        collection: collection@,
                        edge_key: src@ + "->"@ + dst@ + ":"@ + label@,
                    },
                ]
            } else {
                Seq::<HistoryView>::empty()
            }
            &&& p.result@.rows_affected == 1
        }),
{
    let csr = edges::csr_view(p.csr@);
    assert(csr.drop_last() =~= Seq::<CsrEditView>::empty());
    reveal_with_fuel(adjacent, 2);
    let ops = storage::ops_view(p.ops@);
    assert(ops.drop_last() =~= Seq::<OpView>::empty());
    reveal_with_fuel(storage::apply_ops, 2);
}

proof fn lemma_added(known: Set<EdgeView>, all: Seq<EdgeView>)
    ensures
        adjacent(known, all.map_values(|e: EdgeView| CsrEditView::Add(e))) == known.union(
            all.to_set(),
        ),
        adjacent(known, all.map_values(|e: EdgeView| CsrEditView::Remove(e))) == known.difference(
            all.to_set(),
        ),
    decreases all.len(),
{
    let adds = all.map_values(|e: EdgeView| CsrEditView::Add(e));
    let removes = all.map_values(|e: EdgeView| CsrEditView::Remove(e));
    if all.len() > 0 {
        let rest = all.drop_last();
        lemma_added(known, rest);
        assert(adds.drop_last() =~= rest.map_values(|e: EdgeView| CsrEditView::Add(e)));
        assert(removes.drop_last() =~= rest.map_values(|e: EdgeView| CsrEditView::Remove(e)));
        assert forall|e: EdgeView| #[trigger] all.to_set().contains(e) <==> rest.to_set().contains(
            e,
        ) || e == all.last() by {
            if all.contains(e) {
                let i = choose|i: int| 0 <= i < all.len() && all[i] == e;
                if i < rest.len() {
                    assert(rest[i] == e);
                }
            }
            if rest.contains(e) {
                let i = choose|i: int| 0 <= i < rest.len() && rest[i] == e;
                assert(all[i] == e);
            }
            assert(all[all.len() - 1] == all.last());
        }
        assert(adjacent(known, adds) =~= known.union(all.to_set()));
        assert(adjacent(known, removes) =~= known.difference(all.to_set()));
    } else {
        assert(adjacent(known, adds) =~= known.union(all.to_set()));
        assert(adjacent(known, removes) =~= known.difference(all.to_set()));
    }
}

/// Whether an edge of a list is stored at a place.
pub open spec fn placed(all: Seq<EdgeView>, at: (Namespace, Seq<u8>)) -> bool {
    exists|i: int| 0 <= i < all.len() && place(#[trigger] all[i]) == at
}

/// Whether a store holds an edge of a list, without properties, at a place.
pub open spec fn holds_one(after: Store, all: Seq<EdgeView>, at: (Namespace, Seq<u8>)) -> bool {
    after.dom().contains(at) && exists|i: int|
        0 <= i < all.len() && place(#[trigger] all[i]) == at && encodes_edge(
            after[at],
            all[i],
            Seq::empty(),
        )
}

/// Whether a store differs from another only in that it holds the edges of a
/// list.
pub open spec fn holds_all(store: Store, all: Seq<EdgeView>, after: Store) -> bool {
    forall|at: (Namespace, Seq<u8>)| #[trigger]
        placed(all, at) && holds_one(after, all, at) || !placed(all, at) && after.dom().contains(at)
            == store.dom().contains(at) && after[at] == store[at]
}

proof fn lemma_stored(store: Store, all: Seq<EdgeView>, ops: Seq<OpView>)
    requires
        ops.len() == all.len(),
        forall|i: int|
            0 <= i < all.len() ==> edges::puts_edge(#[trigger] ops[i], all[i], Seq::empty()),
    ensures
        holds_all(store, all, storage::apply_ops(store, ops)),
    decreases all.len(),
{
    let after = storage::apply_ops(store, ops);
    if all.len() > 0 {
        let rest = all.drop_last();
        let fewer = ops.drop_last();
        let n = all.len() - 1;
        assert forall|i: int| 0 <= i < rest.len() implies edges::puts_edge(
            #[trigger] fewer[i],
            rest[i],
            Seq::empty(),
        ) by {
            assert(fewer[i] == ops[i] && rest[i] == all[i]);
        }
        lemma_stored(store, rest, fewer);
        let before = storage::apply_ops(store, fewer);
        assert(edges::puts_edge(ops[n], all[n], Seq::empty()));
        lemma_put(ops[n], all[n], Seq::empty());
        assert forall|at: (Namespace, Seq<u8>)| #[trigger]
            placed(all, at) && holds_one(after, all, at) || !placed(all, at)
                && after.dom().contains(at) == store.dom().contains(at) && after[at]
                == store[at] by {
            assert(placed(rest, at) || !placed(rest, at));
            if placed(rest, at) {
                let i = choose|i: int| 0 <= i < rest.len() && place(#[trigger] rest[i]) == at;
                assert(place(all[i]) == at);
            }
            if place(all[n]) == at {
                assert(encodes_edge(after[at], all[n], Seq::empty()));
                assert(holds_one(after, all, at));
            } else if placed(all, at) {
                let j = choose|j: int| 0 <= j < all.len() && place(#[trigger] all[j]) == at;
                assert(place(rest[j]) == at);
                assert(placed(rest, at));
                assert(holds_one(before, rest, at));
                let i = choose|i: int|
                    0 <= i < rest.len() && place(#[trigger] rest[i]) == at && encodes_edge(
                        before[at],
                        rest[i],
                        Seq::empty(),
                    );
                assert(place(all[i]) == at);
                assert(holds_one(after, all, at));
            }
        }
    }
}

/// A batch put leaves every one of its edges in the adjacency index and at its
/// place in the store, and everything else as it was. The answer counts the
/// edges.
pub proof fn put_batch_is_kept(
    known: Set<EdgeView>,
    store: Store,
    all: &[BatchEdge],
    bitemporal: &[bool],
    r: Result<EdgePlan, LiteError>,
)
    requires
        call_ensures(edges::edge_put_batch, (all, bitemporal), r),
    ensures
        r is Ok,
        ({
            let es = edges::edges_view(all@);
            let p = r->Ok_0;
            let after = storage::apply_ops(store, storage::ops_view(p.ops@));
            &&& adjacent(known, edges::csr_view(p.csr@)) == known.union(es.to_set())
            &&& holds_all(store, es, after)
            &&& p.result@.rows_affected == all@.len()
        }),
{
    let es = edges::edges_view(all@);
    let p = r->Ok_0;
    let ops = storage::ops_view(p.ops@);
    lemma_added(known, es);
    assert forall|i: int| 0 <= i < es.len() implies edges::puts_edge(
        #[trigger] ops[i],
        es[i],
        Seq::empty(),
    ) by {
        assert(ops[i] == p.ops@[i]@);
    }
    lemma_stored(store, es, ops);
    assert(all.len() == all@.len());
}

proof fn lemma_unstored(store: Store, all: Seq<EdgeView>, ops: Seq<OpView>)
    requires
        ops.len() == all.len(),
        forall|i: int|
            0 <= i < all.len() ==> #[trigger] ops[i] == (OpView::Delete {
                ns: Namespace::Graph,
                key: edges::store_key(all[i]),
            }),
    ensures
        forall|at: (Namespace, Seq<u8>)|
            #![trigger storage::apply_ops(store, ops).dom().contains(at)]
            storage::apply_ops(store, ops).dom().contains(at) == (store.dom().contains(at)
                && !placed(all, at)) && (!placed(all, at) ==> storage::apply_ops(store, ops)[at]
                == store[at]),
    decreases all.len(),
{
    if all.len() > 0 {
        let rest = all.drop_last();
        let fewer = ops.drop_last();
        let n = all.len() - 1;
        assert forall|i: int| 0 <= i < rest.len() implies #[trigger] fewer[i] == (OpView::Delete {
            ns: Namespace::Graph,
            key: edges::store_key(rest[i]),
        }) by {
            assert(fewer[i] == ops[i] && rest[i] == all[i]);
        }
        lemma_unstored(store, rest, fewer);
        let before = storage::apply_ops(store, fewer);
        let after = storage::apply_ops(store, ops);
        assert(ops[n] == ops.last());
        assert(after == before.remove(place(all[n])));
        assert forall|at: (Namespace, Seq<u8>)|
            #![trigger after.dom().contains(at)]
            after.dom().contains(at) == (store.dom().contains(at) && !placed(all, at)) && (!placed(
                all,
                at,
            ) ==> after[at] == store[at]) by {
            assert(placed(all, at) <==> placed(rest, at) || place(all[n]) == at) by {
                if placed(rest, at) {
                    let i = choose|i: int| 0 <= i < rest.len() && place(#[trigger] rest[i]) == at;
                    assert(place(all[i]) == at);
                }
                if placed(all, at) {
                    let i = choose|i: int| 0 <= i < all.len() && place(#[trigger] all[i]) == at;
                    if i < n {
                        assert(place(rest[i]) == at);
                    }
                }
            }
            assert(before.dom().contains(at) == (store.dom().contains(at) && !placed(rest, at)));
        }
    } else {
        assert(ops =~= Seq::<OpView>::empty());
    }
}

/// A batch delete leaves none of its edges in the adjacency index or the store,
/// and everything else as it was. The answer counts the edges.
pub proof fn deleted_batch_is_gone(
    known: Set<EdgeView>,
    store: Store,
    all: &[BatchEdge],
    bitemporal: &[bool],
    p: EdgePlan,
)
    requires
        call_ensures(edges::edge_delete_batch, (all, bitemporal), p),
    ensures
        ({
            let es = edges::edges_view(all@);
            let after = storage::apply_ops(store, storage::ops_view(p.ops@));
            &&& adjacent(known, edges::csr_view(p.csr@)) == known.difference(es.to_set())
            &&& forall|at: (Namespace, Seq<u8>)|
                #![trigger after.dom().contains(at)]
                after.dom().contains(at) == (store.dom().contains(at) && !placed(es, at)) && (
                !placed(es, at) ==> after[at] == store[at])
            &&& p.result@.rows_affected == all@.len()
        }),
{
    let es = edges::edges_view(all@);
    let ops = storage::ops_view(p.ops@);
    lemma_added(known, es);
    lemma_unstored(store, es, ops);
    assert(all.len() == all@.len());
}

/// The versions that a batch records are those of the edges whose collections
/// keep history, in order.
pub proof fn batch_history_has_one_version_each(
    all: &[BatchEdge],
    bitemporal: &[bool],
    put: Result<EdgePlan, LiteError>,
    deleted: EdgePlan,
)
    requires
        all@.len() == bitemporal@.len(),
        call_ensures(edges::edge_put_batch, (all, bitemporal), put),
        call_ensures(edges::edge_delete_batch, (all, bitemporal), deleted),
    ensures
        (forall|i: int| 0 <= i < bitemporal@.len() ==> #[trigger] bitemporal@[i]) ==> {
            let es = edges::edges_view(all@);
            let came = edges::history_view(put->Ok_0.history@);
            let went = edges::history_view(deleted.history@);
            &&& came.len() == es.len() && went.len() == es.len()
            &&& forall|i: int|
                0 <= i < es.len() ==> #[trigger] came[i] == (HistoryView::Insert {
                    collection: es[i].collection,
                    edge_key: es[i].src + "->"@ + es[i].dst + ": "@ + es[i].label,
                    props: DatumView::Null,
                })
            &&& forall|i: int|
                0 <= i < es.len() ==> #[trigger] went[i] == (HistoryView::Delete {
                    collection: es[i].collection,
                    edge_key: es[i].src + "->"@ + es[i].dst + ": "@ + es[i].label,
                })
        },
        (forall|i: int| 0 <= i < bitemporal@.len() ==> !#[trigger] bitemporal@[i])
            ==> put->Ok_0.history@.len() == 0 && deleted.history@.len() == 0,
{
    let es = edges::edges_view(all@);
    lemma_versions(es, bitemporal@, es.len() as int);
    assert(es.take(es.len() as int) =~= es);
    assert(edges::history_view(put->Ok_0.history@).len() == put->Ok_0.history@.len());
    assert(edges::history_view(deleted.history@).len() == deleted.history@.len());
}

proof fn lemma_versions(es: Seq<EdgeView>, bitemporal: Seq<bool>, n: int)
    requires
        es.len() == bitemporal.len(),
        0 <= n <= es.len(),
    ensures
        (forall|i: int| 0 <= i < bitemporal.len() ==> #[trigger] bitemporal[i]) ==> {
            let came = edges::inserted_versions(es.take(n), bitemporal);
            let went = edges::deleted_versions(es.take(n), bitemporal);
            &&& came.len() == n && went.len() == n
            &&& forall|i: int|
                0 <= i < n ==> #[trigger] came[i] == (HistoryView::Insert {
                    collection: es[i].collection,
                    edge_key: es[i].src + "->"@ + es[i].dst + ": "@ + es[i].label,
                    props: DatumView::Null,
                })
            &&& forall|i: int|
                0 <= i < n ==> #[trigger] went[i] == (HistoryView::Delete {
                    collection: es[i].collection,
                    edge_key: es[i].src + "->"@ + es[i].dst + ": "@ + es[i].label,
                })
        },
        (forall|i: int| 0 <= i < bitemporal.len() ==> !#[trigger] bitemporal[i])
            ==> edges::inserted_versions(es.take(n), bitemporal).len() == 0
            && edges::deleted_versions(es.take(n), bitemporal).len() == 0,
    decreases n,
{
    if n > 0 {
        lemma_versions(es, bitemporal, n - 1);
        assert(es.take(n).drop_last() =~= es.take(n - 1));
        assert(es.take(n).last() == es[n - 1]);
        assert(bitemporal[n - 1] || !bitemporal[n - 1]);
    }
}

} // verus!
