//! Writing and deleting edges.
//!
//! An edge lives in the adjacency index of its collection, as a record in the
//! store, and, for a collection that keeps history, as versions in its history.
use crate::bytes;
use crate::error::LiteError;
use crate::native;
use crate::result;
use crate::result::{QueryResult, ResultView};
use crate::storage;
use crate::storage::{Namespace, OpView, WriteOp};
use crate::text;
use crate::value::{Datum, DatumView};
use crate::wire;
use vstd::prelude::*;
use vstd::utf8::*;

verus! {

/// An edge of a batch.
#[derive(Debug)]
pub struct BatchEdge {
    /// The collection.
    pub collection: String,
    /// The node that the edge leaves.
    pub src_id: String,
    /// The label.
    pub label: String,
    /// The node that the edge enters.
    pub dst_id: String,
}

/// An edge.
pub struct EdgeView {
    pub collection: Seq<char>,
    pub src: Seq<char>,
    pub label: Seq<char>,
    pub dst: Seq<char>,
}

impl View for BatchEdge {
    type V = EdgeView;

    open spec fn view(&self) -> EdgeView {
        EdgeView {
            collection: self.collection@,
            src: self.src_id@,
            label: self.label@,
            dst: self.dst_id@,
        }
    }
}

/// A change to the adjacency index of a collection.
#[derive(Debug)]
pub enum CsrEdit {
    /// Adds an edge, creating the index where there is none.
    Add(BatchEdge),
    /// Removes an edge, if there is an index.
    Remove(BatchEdge),
}

/// What a [`CsrEdit`] changes.
pub enum CsrEditView {
    Add(EdgeView),
    Remove(EdgeView),
}

impl View for CsrEdit {
    type V = CsrEditView;

    open spec fn view(&self) -> CsrEditView {
        match *self {
            CsrEdit::Add(e) => CsrEditView::Add(e@),
            CsrEdit::Remove(e) => CsrEditView::Remove(e@),
        }
    }
}

/// A new version in a collection's history.
#[derive(Debug)]
pub enum HistoryEdit {
    /// An edge came into being with these properties.
    Insert { collection: String, edge_key: String, props: Datum },
    /// An edge went out of being.
    Delete { collection: String, edge_key: String },
}

/// What a [`HistoryEdit`] records.
pub enum HistoryView {
    Insert { collection: Seq<char>, edge_key: Seq<char>, props: DatumView },
    Delete { collection: Seq<char>, edge_key: Seq<char> },
}

impl View for HistoryEdit {
    type V = HistoryView;

    open spec fn view(&self) -> HistoryView {
        match *self {
            HistoryEdit::Insert { collection, edge_key, props } => HistoryView::Insert {
                collection: collection@,
                edge_key: edge_key@,
                props: props@,
            },
            HistoryEdit::Delete { collection, edge_key } => HistoryView::Delete {
                collection: collection@,
                edge_key: edge_key@,
            },
        }
    }
}

/// What an edge request does. The index is changed first, the store next and
/// the history last.
#[derive(Debug)]
pub struct EdgePlan {
    /// Changes to the adjacency indexes.
    pub csr: Vec<CsrEdit>,
    /// Writes to the store, made in one batch.
    pub ops: Vec<WriteOp>,
    /// Versions to record. A failure to record one is not reported.
    pub history: Vec<HistoryEdit>,
    /// The answer.
    pub result: QueryResult,
}

/// The adjacency changes of a plan.
pub open spec fn csr_view(edits: Seq<CsrEdit>) -> Seq<CsrEditView> {
    edits.map_values(|e: CsrEdit| e@)
}

/// The versions of a plan.
pub open spec fn history_view(edits: Seq<HistoryEdit>) -> Seq<HistoryView> {
    edits.map_values(|e: HistoryEdit| e@)
}

/// The edges of a batch.
pub open spec fn edges_view(edges: Seq<BatchEdge>) -> Seq<EdgeView> {
    edges.map_values(|e: BatchEdge| e@)
}

/// Where an edge is stored: collection, source, label and destination, each
/// followed by a zero byte but the last.
pub open spec fn store_key(e: EdgeView) -> Seq<u8> {
    encode_utf8(e.collection) + seq![0u8] + encode_utf8(e.src) + seq![0u8] + encode_utf8(e.label)
        + seq![0u8] + encode_utf8(e.dst)
}

/// The name of an edge in the history, as a single request writes it.
pub open spec fn history_key(e: EdgeView) -> Seq<char> {
    e.src + "->"@ + e.dst + ":"@ + e.label
}

/// The name of an edge in the history, as a batch writes it.
pub open spec fn batch_history_key(e: EdgeView) -> Seq<char> {
    e.src + "->"@ + e.dst + ": "@ + e.label
}

/// The record of an edge: its four parts and, if there are any, its properties.
pub open spec fn record(e: EdgeView, props: Seq<u8>) -> Map<Seq<char>, nodedb_types::Value> {
    let base = Map::<Seq<char>, nodedb_types::Value>::empty().insert(
        "collection"@,
        native::native_of(DatumView::String(e.collection)),
    ).insert("src"@, native::native_of(DatumView::String(e.src))).insert(
        "label"@,
        native::native_of(DatumView::String(e.label)),
    ).insert("dst"@, native::native_of(DatumView::String(e.dst)));
    if props.len() == 0 {
        base
    } else {
        base.insert("props"@, native::native_of(DatumView::Bytes(props)))
    }
}

/// Where an edge is stored.
pub fn edge_store_key(collection: &str, src: &str, label: &str, dst: &str) -> (r: Vec<u8>)
    ensures
        r@ == store_key(EdgeView { collection: collection@, src: src@, label: label@, dst: dst@ }),
{
    let mut key = bytes::copy_bytes(collection.as_bytes());
    key.push(0);
    bytes::push_all(&mut key, src.as_bytes());
    key.push(0);
    bytes::push_all(&mut key, label.as_bytes());
    key.push(0);
    bytes::push_all(&mut key, dst.as_bytes());
    proof {
        assert(key@ =~= store_key(
            EdgeView { collection: collection@, src: src@, label: label@, dst: dst@ },
        ));
    }
    key
}

/// The encoded record of an edge.
pub fn edge_to_value(collection: &str, src: &str, label: &str, dst: &str, props: &[u8]) -> (r:
    Result<Vec<u8>, LiteError>)
    ensures
        match r {
            Ok(b) => wire::encodes_record(
                b@,
                record(
                    EdgeView { collection: collection@, src: src@, label: label@, dst: dst@ },
                    props@,
                ),
            ),
            Err(_) => false,
        },
{
    let mut fields: Vec<(String, nodedb_types::Value)> = Vec::new();
    fields.push(("collection".to_owned(), native::native(Datum::String(collection.to_owned()))));
    fields.push(("src".to_owned(), native::native(Datum::String(src.to_owned()))));
    fields.push(("label".to_owned(), native::native(Datum::String(label.to_owned()))));
    fields.push(("dst".to_owned(), native::native(Datum::String(dst.to_owned()))));
    if props.len() > 0 {
        fields.push(("props".to_owned(), native::native(Datum::Bytes(bytes::copy_bytes(props)))));
    }
    proof {
        lemma_record(
            fields@,
            EdgeView { collection: collection@, src: src@, label: label@, dst: dst@ },
            props@,
        );
    }
    match wire::encode_record(fields) {
        Ok(b) => Ok(b),
        Err(detail) => Err(LiteError::Serialization { detail }),
    }
}

proof fn lemma_record(fields: Seq<(String, nodedb_types::Value)>, e: EdgeView, props: Seq<u8>)
    requires
        fields.len() == if props.len() == 0 {
            4int
        } else {
            5
        },
        fields[0].0@ == "collection"@,
        fields[0].1 == native::native_of(DatumView::String(e.collection)),
        fields[1].0@ == "src"@,
        fields[1].1 == native::native_of(DatumView::String(e.src)),
        fields[2].0@ == "label"@,
        fields[2].1 == native::native_of(DatumView::String(e.label)),
        fields[3].0@ == "dst"@,
        fields[3].1 == native::native_of(DatumView::String(e.dst)),
        props.len() > 0 ==> fields[4].0@ == "props"@,
        props.len() > 0 ==> fields[4].1 == native::native_of(DatumView::Bytes(props)),
    ensures
        wire::distinct_names(fields),
        forall|i: int| 0 <= i < fields.len() ==> wire::plain((#[trigger] fields[i]).1),
        wire::fields_map(fields) == record(e, props),
{
    reveal_strlit("collection");
    reveal_strlit("src");
    reveal_strlit("label");
    reveal_strlit("dst");
    reveal_strlit("props");
    assert("src"@[0] == 's' && "label"@[0] == 'l' && "dst"@[0] == 'd' && "props"@[0] == 'p'
        && "collection"@[0] == 'c');
    assert(wire::distinct_names(fields));
    let map = wire::fields_map(fields);
    wire::lemma_fields_at(fields, 0);
    wire::lemma_fields_at(fields, 1);
    wire::lemma_fields_at(fields, 2);
    wire::lemma_fields_at(fields, 3);
    if props.len() > 0 {
        wire::lemma_fields_at(fields, 4);
    }
    assert(map =~= record(e, props));
}

/// Whether `op` stores the record of an edge.
pub open spec fn puts_edge(op: OpView, e: EdgeView, props: Seq<u8>) -> bool {
    op matches OpView::Put { ns, key, value } && ns == Namespace::Graph && key == store_key(e)
        && wire::encodes_record(value, record(e, props))
}

fn copy_edge(collection: &str, src: &str, label: &str, dst: &str) -> (r: BatchEdge)
    ensures
        r@ == (EdgeView { collection: collection@, src: src@, label: label@, dst: dst@ }),
{
    BatchEdge {
        collection: collection.to_owned(),
        src_id: src.to_owned(),
        label: label.to_owned(),
        dst_id: dst.to_owned(),
    }
}

/// Whether a plan is that of writing an edge.
pub open spec fn put_planned(p: EdgePlan, e: EdgeView, props: Seq<u8>, bitemporal: bool) -> bool {
    &&& csr_view(p.csr@) == seq![CsrEditView::Add(e)]
    &&& p.ops@.len() == 1
    &&& puts_edge(p.ops@[0]@, e, props)
    &&& history_view(p.history@) == if bitemporal {
        seq![
            HistoryView::Insert {
                collection: e.collection,
                edge_key: history_key(e),
                props: DatumView::Bytes(props),
            },
        ]
    } else {
        Seq::empty()
    }
    &&& p.result@ == result::affected_view(1)
}

/// Whether a plan is that of deleting an edge.
pub open spec fn delete_planned(p: EdgePlan, e: EdgeView, bitemporal: bool) -> bool {
    &&& csr_view(p.csr@) == seq![CsrEditView::Remove(e)]
    &&& storage::ops_view(p.ops@) == seq![
        OpView::Delete { ns: Namespace::Graph, key: store_key(e) },
    ]
    &&& history_view(p.history@) == if bitemporal {
        seq![HistoryView::Delete { collection: e.collection, edge_key: history_key(e) }]
    } else {
        Seq::empty()
    }
    &&& p.result@ == result::affected_view(1)
}

/// Writes an edge. `bitemporal` tells whether the collection keeps history.
pub fn edge_put(
    collection: &str,
    src_id: &str,
    label: &str,
    dst_id: &str,
    properties: &[u8],
    bitemporal: bool,
) -> (r: Result<EdgePlan, LiteError>)
    ensures
        r is Ok,
        put_planned(
            r->Ok_0,
            EdgeView { collection: collection@, src: src_id@, label: label@, dst: dst_id@ },
            properties@,
            bitemporal,
        ),
{
    let ghost e = EdgeView { collection: collection@, src: src_id@, label: label@, dst: dst_id@ };
    let mut csr: Vec<CsrEdit> = Vec::new();
    csr.push(CsrEdit::Add(copy_edge(collection, src_id, label, dst_id)));
    let key = edge_store_key(collection, src_id, label, dst_id);
    let value = match edge_to_value(collection, src_id, label, dst_id, properties) {
        Ok(v) => v,
        Err(e) => {
            return Err(e);
        },
    };
    let mut ops: Vec<WriteOp> = Vec::new();
    ops.push(WriteOp::Put { ns: Namespace::Graph, key, value });
    let mut history: Vec<HistoryEdit> = Vec::new();
    if bitemporal {
        history.push(
            HistoryEdit::Insert {
                collection: collection.to_owned(),
                edge_key: text::concat5(src_id, "->", dst_id, ":", label),
                props: Datum::Bytes(bytes::copy_bytes(properties)),
            },
        );
    }
    proof {
        assert(csr_view(csr@) =~= seq![CsrEditView::Add(e)]);
        assert(history_view(history@) =~= if bitemporal {
            seq![
                HistoryView::Insert {
                    collection: e.collection,
                    edge_key: history_key(e),
                    props: DatumView::Bytes(properties@),
                },
            ]
        } else {
            Seq::empty()
        });
    }
    Ok(EdgePlan { csr, ops, history, result: QueryResult::affected(1) })
}

/// Deletes an edge, whether or not it exists.
pub fn edge_delete(
    collection: &str,
    src_id: &str,
    label: &str,
    dst_id: &str,
    bitemporal: bool,
) -> (r: EdgePlan)
    ensures
        delete_planned(
            r,
            EdgeView { collection: collection@, src: src_id@, label: label@, dst: dst_id@ },
            bitemporal,
        ),
{
    let ghost e = EdgeView { collection: collection@, src: src_id@, label: label@, dst: dst_id@ };
    let mut csr: Vec<CsrEdit> = Vec::new();
    csr.push(CsrEdit::Remove(copy_edge(collection, src_id, label, dst_id)));
    let mut ops: Vec<WriteOp> = Vec::new();
    storage::push_delete(
        &mut ops,
        Namespace::Graph,
        edge_store_key(collection, src_id, label, dst_id),
    );
    let mut history: Vec<HistoryEdit> = Vec::new();
    if bitemporal {
        history.push(
            HistoryEdit::Delete {
                collection: collection.to_owned(),
                edge_key: text::concat5(src_id, "->", dst_id, ":", label),
            },
        );
    }
    proof {
        assert(csr_view(csr@) =~= seq![CsrEditView::Remove(e)]);
        assert(storage::ops_view(ops@) =~= seq![
            OpView::Delete { ns: Namespace::Graph, key: store_key(e) },
        ]);
        assert(history_view(history@) =~= if bitemporal {
            seq![HistoryView::Delete { collection: e.collection, edge_key: history_key(e) }]
        } else {
            Seq::empty()
        });
    }
    EdgePlan { csr, ops, history, result: QueryResult::affected(1) }
}

/// The versions that a batch insert records: one for each edge whose
/// collection keeps history.
pub open spec fn inserted_versions(edges: Seq<EdgeView>, bitemporal: Seq<bool>) -> Seq<HistoryView>
    decreases edges.len(),
{
    if edges.len() == 0 {
        Seq::empty()
    } else {
        let head = inserted_versions(edges.drop_last(), bitemporal);
        let e = edges.last();
        if bitemporal[edges.len() - 1] {
            head.push(
                HistoryView::Insert {
                    collection: e.collection,
                    edge_key: batch_history_key(e),
                    props: DatumView::Null,
                },
            )
        } else {
            head
        }
    }
}

/// The versions that a batch delete records.
pub open spec fn deleted_versions(edges: Seq<EdgeView>, bitemporal: Seq<bool>) -> Seq<HistoryView>
    decreases edges.len(),
{
    if edges.len() == 0 {
        Seq::empty()
    } else {
        let head = deleted_versions(edges.drop_last(), bitemporal);
        let e = edges.last();
        if bitemporal[edges.len() - 1] {
            head.push(
                HistoryView::Delete { collection: e.collection, edge_key: batch_history_key(e) },
            )
        } else {
            head
        }
    }
}

/// Whether a plan is that of writing several edges.
pub open spec fn batch_put_planned(
    p: EdgePlan,
    edges: Seq<EdgeView>,
    bitemporal: Seq<bool>,
) -> bool {
    &&& csr_view(p.csr@) == edges.map_values(|e: EdgeView| CsrEditView::Add(e))
    &&& p.ops@.len() == edges.len()
    &&& forall|i: int|
        0 <= i < edges.len() ==> puts_edge((#[trigger] p.ops@[i])@, edges[i], Seq::empty())
    &&& history_view(p.history@) == inserted_versions(edges, bitemporal)
    &&& p.result@ == result::affected_view(edges.len() as u64)
}

/// Whether a plan is that of deleting several edges.
pub open spec fn batch_delete_planned(
    p: EdgePlan,
    edges: Seq<EdgeView>,
    bitemporal: Seq<bool>,
) -> bool {
    &&& csr_view(p.csr@) == edges.map_values(|e: EdgeView| CsrEditView::Remove(e))
    &&& storage::ops_view(p.ops@) == edges.map_values(
        |e: EdgeView| OpView::Delete { ns: Namespace::Graph, key: store_key(e) },
    )
    &&& history_view(p.history@) == deleted_versions(edges, bitemporal)
    &&& p.result@ == result::affected_view(edges.len() as u64)
}

/// Writes several edges, without properties, in one batch. `bitemporal` tells
/// of each edge whether its collection keeps history.
pub fn edge_put_batch(edges: &[BatchEdge], bitemporal: &[bool]) -> (r: Result<EdgePlan, LiteError>)
    requires
        edges@.len() == bitemporal@.len(),
    ensures
        r is Ok,
        batch_put_planned(r->Ok_0, edges_view(edges@), bitemporal@),
{
    let mut csr: Vec<CsrEdit> = Vec::new();
    let mut ops: Vec<WriteOp> = Vec::new();
    let mut history: Vec<HistoryEdit> = Vec::new();
    let no_props: Vec<u8> = Vec::new();
    let ghost all = edges_view(edges@);
    proof {
        assert(all.take(0) =~= Seq::empty());
        assert(no_props@ =~= Seq::empty());
    }
    let mut i: usize = 0;
    while i < edges.len()
        invariant
            i <= edges@.len(),
            edges@.len() == bitemporal@.len(),
            no_props@ == Seq::<u8>::empty(),
            all == edges_view(edges@),
            csr@.len() == i,
            forall|j: int| 0 <= j < i ==> (#[trigger] csr@[j])@ == CsrEditView::Add(all[j]),
            ops@.len() == i,
            forall|j: int|
                0 <= j < i ==> puts_edge((#[trigger] ops@[j])@, edges@[j]@, Seq::empty()),
            history_view(history@) == inserted_versions(all.take(i as int), bitemporal@),
        decreases edges@.len() - i,
    {
        let e = &edges[i];
        let collection = e.collection.as_str();
        let src = e.src_id.as_str();
        let label = e.label.as_str();
        let dst = e.dst_id.as_str();
        csr.push(CsrEdit::Add(copy_edge(collection, src, label, dst)));
        let key = edge_store_key(collection, src, label, dst);
        let value = match edge_to_value(collection, src, label, dst, &no_props) {
            Ok(v) => v,
            Err(e) => {
                return Err(e);
            },
        };
        ops.push(WriteOp::Put { ns: Namespace::Graph, key, value });
        let ghost before = history_view(history@);
        if bitemporal[i] {
            history.push(
                HistoryEdit::Insert {
                    collection: collection.to_owned(),
                    edge_key: text::concat5(src, "->", dst, ": ", label),
                    props: Datum::Null,
                },
            );
            proof {
                assert(history_view(history@) =~= before.push(
                    HistoryView::Insert {
                        collection: all[i as int].collection,
                        edge_key: batch_history_key(all[i as int]),
                        props: DatumView::Null,
                    },
                ));
            }
        }
        proof {
            assert(all[i as int] == edges@[i as int]@);
            assert(all.take(i as int + 1).drop_last() =~= all.take(i as int));
            assert(all.take(i as int + 1).last() == all[i as int]);
        }
        i = i + 1;
    }
    proof {
        assert(all.take(all.len() as int) =~= all);
        assert(csr_view(csr@) =~= all.map_values(|e: EdgeView| CsrEditView::Add(e)));
    }
    Ok(EdgePlan { csr, ops, history, result: QueryResult::affected(edges.len() as u64) })
}

/// Deletes several edges in one batch.
pub fn edge_delete_batch(edges: &[BatchEdge], bitemporal: &[bool]) -> (r: EdgePlan)
    requires
        edges@.len() == bitemporal@.len(),
    ensures
        batch_delete_planned(r, edges_view(edges@), bitemporal@),
{
    let mut csr: Vec<CsrEdit> = Vec::new();
    let mut ops: Vec<WriteOp> = Vec::new();
    let mut history: Vec<HistoryEdit> = Vec::new();
    let ghost all = edges_view(edges@);
    proof {
        assert(all.take(0) =~= Seq::empty());
    }
    let mut i: usize = 0;
    while i < edges.len()
        invariant
            i <= edges@.len(),
            edges@.len() == bitemporal@.len(),
            all == edges_view(edges@),
            csr@.len() == i,
            forall|j: int| 0 <= j < i ==> (#[trigger] csr@[j])@ == CsrEditView::Remove(all[j]),
            ops@.len() == i,
            forall|j: int|
                0 <= j < i ==> (#[trigger] ops@[j])@ == (OpView::Delete {
                    ns: Namespace::Graph,
                    key: store_key(all[j]),
                }),
            history_view(history@) == deleted_versions(all.take(i as int), bitemporal@),
        decreases edges@.len() - i,
    {
        let e = &edges[i];
        let collection = e.collection.as_str();
        let src = e.src_id.as_str();
        let label = e.label.as_str();
        let dst = e.dst_id.as_str();
        csr.push(CsrEdit::Remove(copy_edge(collection, src, label, dst)));
        ops.push(
            WriteOp::Delete {
                ns: Namespace::Graph,
                key: edge_store_key(collection, src, label, dst),
            },
        );
        let ghost before = history_view(history@);
        if bitemporal[i] {
            history.push(
                HistoryEdit::Delete {
                    collection: collection.to_owned(),
                    edge_key: text::concat5(src, "->", dst, ": ", label),
                },
            );
            proof {
                assert(history_view(history@) =~= before.push(
                    HistoryView::Delete {
                        collection: all[i as int].collection,
                        edge_key: batch_history_key(all[i as int]),
                    },
                ));
            }
        }
        proof {
            assert(all[i as int] == edges@[i as int]@);
            assert(all.take(i as int + 1).drop_last() =~= all.take(i as int));
            assert(all.take(i as int + 1).last() == all[i as int]);
        }
        i = i + 1;
    }
    proof {
        assert(all.take(all.len() as int) =~= all);
        assert(csr_view(csr@) =~= all.map_values(|e: EdgeView| CsrEditView::Remove(e)));
        assert(storage::ops_view(ops@) =~= all.map_values(
            |e: EdgeView| OpView::Delete { ns: Namespace::Graph, key: store_key(e) },
        ));
    }
    EdgePlan { csr, ops, history, result: QueryResult::affected(edges.len() as u64) }
}

/// A byte string up to its first zero byte is determined by what follows it.
proof fn lemma_split_unique(a: Seq<u8>, x: Seq<u8>, b: Seq<u8>, y: Seq<u8>)
    requires
        !a.contains(0),
        !b.contains(0),
        a + seq![0u8] + x == b + seq![0u8] + y,
    ensures
        a == b,
        x == y,
{
    let s = a + seq![0u8] + x;
    assert(s[a.len() as int] == 0);
    assert(s[b.len() as int] == 0);
    if a.len() < b.len() {
        assert(b[a.len() as int] == s[a.len() as int]);
    }
    if b.len() < a.len() {
        assert(a[b.len() as int] == s[b.len() as int]);
    }
    assert(a =~= s.take(a.len() as int));
    assert(b =~= s.take(b.len() as int));
    assert(x =~= s.skip(a.len() as int + 1));
    assert(y =~= s.skip(b.len() as int + 1));
}

/// Whether none of the first three parts of an edge holds a zero byte.
pub open spec fn separable(e: EdgeView) -> bool {
    &&& !encode_utf8(e.collection).contains(0)
    &&& !encode_utf8(e.src).contains(0)
    &&& !encode_utf8(e.label).contains(0)
}

/// Different edges are stored in different places, for names without a zero
/// character.
pub proof fn store_key_injective(e: EdgeView, f: EdgeView)
    requires
        separable(e),
        separable(f),
        store_key(e) == store_key(f),
    ensures
        e == f,
{
    let (ec, es, el, ed) = (
        encode_utf8(e.collection),
        encode_utf8(e.src),
        encode_utf8(e.label),
        encode_utf8(e.dst),
    );
    let (fc, fs, fl, fd) = (
        encode_utf8(f.collection),
        encode_utf8(f.src),
        encode_utf8(f.label),
        encode_utf8(f.dst),
    );
    let ex = es + seq![0u8] + el + seq![0u8] + ed;
    let fx = fs + seq![0u8] + fl + seq![0u8] + fd;
    assert(store_key(e) =~= ec + seq![0u8] + ex);
    assert(store_key(f) =~= fc + seq![0u8] + fx);
    lemma_split_unique(ec, ex, fc, fx);
    let ey = el + seq![0u8] + ed;
    let fy = fl + seq![0u8] + fd;
    assert(ex =~= es + seq![0u8] + ey);
    assert(fx =~= fs + seq![0u8] + fy);
    lemma_split_unique(es, ey, fs, fy);
    lemma_split_unique(el, ed, fl, fd);
    encode_utf8_decode_utf8(e.collection);
    encode_utf8_decode_utf8(f.collection);
    encode_utf8_decode_utf8(e.src);
    encode_utf8_decode_utf8(f.src);
    encode_utf8_decode_utf8(e.label);
    encode_utf8_decode_utf8(f.label);
    encode_utf8_decode_utf8(e.dst);
    encode_utf8_decode_utf8(f.dst);
}

/// Deleting an edge after writing it leaves the store as a delete alone would:
/// nothing of the edge remains and nothing else has changed.
pub proof fn delete_undoes_put(store: storage::Store, e: EdgeView, put: OpView, props: Seq<u8>)
    requires
        puts_edge(put, e, props),
    ensures
        storage::apply_ops(
            store,
            seq![put, OpView::Delete { ns: Namespace::Graph, key: store_key(e) }],
        ) == store.remove((Namespace::Graph, store_key(e))),
{
    let del = OpView::Delete { ns: Namespace::Graph, key: store_key(e) };
    let both = seq![put, del];
    assert(both.drop_last() =~= seq![put]);
    assert(seq![put].drop_last() =~= Seq::empty());
    reveal_with_fuel(storage::apply_ops, 3);
    assert(storage::apply_ops(store, both) =~= store.remove((Namespace::Graph, store_key(e))));
}

} // verus!
