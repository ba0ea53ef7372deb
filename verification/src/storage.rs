//! The key-value store beneath every engine, as a mathematical map, and the
//! write operations that a request turns into.
use vstd::prelude::*;

verus! {

/// The part of the store that an engine writes to.
#[derive(Debug, Clone, Copy, PartialEq, Eq, Structural)]
pub enum Namespace {
    /// Database metadata.
    Meta,
    /// Vector indexes.
    Vector,
    /// Graph indexes and edges.
    Graph,
    /// Mutations waiting for synchronisation.
    Crdt,
    /// Snapshots and updates of replicated state.
    LoroState,
    /// The key-value engine.
    Kv,
    /// Superseded versions of edges.
    GraphHistory,
}

/// One write.
#[derive(Debug)]
pub enum WriteOp {
    /// Sets the value of a key.
    Put { ns: Namespace, key: Vec<u8>, value: Vec<u8> },
    /// Removes a key.
    Delete { ns: Namespace, key: Vec<u8> },
}

/// What a [`WriteOp`] does.
pub enum OpView {
    Put { ns: Namespace, key: Seq<u8>, value: Seq<u8> },
    Delete { ns: Namespace, key: Seq<u8> },
}

impl View for WriteOp {
    type V = OpView;

    open spec fn view(&self) -> OpView {
        match *self {
            WriteOp::Put { ns, key, value } => OpView::Put { ns, key: key@, value: value@ },
            WriteOp::Delete { ns, key } => OpView::Delete { ns, key: key@ },
        }
    }
}

/// What a list of writes does, in order.
pub open spec fn ops_view(ops: Seq<WriteOp>) -> Seq<OpView> {
    ops.map_values(|op: WriteOp| op@)
}

/// The contents of the store.
pub type Store = Map<(Namespace, Seq<u8>), Seq<u8>>;

/// The store after one write.
pub open spec fn apply_op(store: Store, op: OpView) -> Store {
    match op {
        OpView::Put { ns, key, value } => store.insert((ns, key), value),
        OpView::Delete { ns, key } => store.remove((ns, key)),
    }
}

/// The store after the writes in `ops`, made in order.
pub open spec fn apply_ops(store: Store, ops: Seq<OpView>) -> Store
    decreases ops.len(),
{
    if ops.len() == 0 {
        store
    } else {
        apply_op(apply_ops(store, ops.drop_last()), ops.last())
    }
}

/// The place that a write touches.
pub open spec fn op_target(op: OpView) -> (Namespace, Seq<u8>) {
    match op {
        OpView::Put { ns, key, .. } => (ns, key),
        OpView::Delete { ns, key } => (ns, key),
    }
}

/// Writes leave every place alone that none of them targets.
pub proof fn apply_ops_frame(store: Store, ops: Seq<OpView>, place: (Namespace, Seq<u8>))
    requires
        forall|i: int| 0 <= i < ops.len() ==> op_target(#[trigger] ops[i]) != place,
    ensures
        apply_ops(store, ops).dom().contains(place) == store.dom().contains(place),
        store.dom().contains(place) ==> apply_ops(store, ops)[place] == store[place],
    decreases ops.len(),
{
    if ops.len() > 0 {
        let head = ops.drop_last();
        assert forall|i: int| 0 <= i < head.len() implies op_target(#[trigger] head[i]) != place by {
            assert(head[i] == ops[i]);
        }
        apply_ops_frame(store, head, place);
        assert(op_target(ops[ops.len() - 1]) != place);
    }
}

/// Appends a put to a list of writes.
pub fn push_put(ops: &mut Vec<WriteOp>, ns: Namespace, key: Vec<u8>, value: Vec<u8>)
    ensures
        ops_view(final(ops)@) == ops_view(old(ops)@).push(
            OpView::Put { ns, key: key@, value: value@ },
        ),
{
    ops.push(WriteOp::Put { ns, key, value });
    proof {
        assert(ops_view(ops@) =~= ops_view(old(ops)@).push(
            OpView::Put { ns, key: key@, value: value@ },
        ));
    }
}

/// Appends a delete to a list of writes.
pub fn push_delete(ops: &mut Vec<WriteOp>, ns: Namespace, key: Vec<u8>)
    ensures
        ops_view(final(ops)@) == ops_view(old(ops)@).push(OpView::Delete { ns, key: key@ }),
{
    ops.push(WriteOp::Delete { ns, key });
    proof {
        assert(ops_view(ops@) =~= ops_view(old(ops)@).push(OpView::Delete { ns, key: key@ }));
    }
}

} // verus!
