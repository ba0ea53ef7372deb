//! Puts, deletes and reads of single documents.
//!
//! A bitemporal collection keeps every version of a document in a history.
//! Reads of such a collection go to the history, and a delete appends a
//! tombstone. The replicated store receives every put either way.
use crate::document::body;
use crate::error;
use crate::error::{ErrorView, LiteError};
use crate::health::PressureLevel;
use crate::native;
use crate::render;
use crate::steps;
use crate::steps::{CrdtRow, RowView, Step, StepView};
use crate::value::{Datum, DatumView};
use crate::wire;
use vstd::prelude::*;

verus! {

/// Calls `nodedb_types::id_gen::uuid_v7`, which makes an identifier of
/// thirty-six characters. Which one is left open.
#[verifier::external_body]
fn fresh_id() -> (r: String)
    ensures
        r@.len() == 36,
{
    nodedb_types::id_gen::uuid_v7()
}

/// The identifier of a document to be written: its own, or a fresh one where
/// it has none.
pub fn resolve_doc_id(id: &str) -> (r: String)
    ensures
        id@.len() > 0 ==> r@ == id@,
        r@.len() > 0,
{
    if id.unicode_len() == 0 {
        fresh_id()
    } else {
        id.to_owned()
    }
}

/// A document to be written.
#[derive(Debug)]
pub struct DocumentPut<'a> {
    /// The collection.
    pub collection: &'a str,
    /// The document, by its resolved identifier.
    pub id: &'a str,
    /// The fields of the document.
    pub fields: &'a [(String, nodedb_types::Value)],
    /// The memory pressure.
    pub pressure: PressureLevel,
    /// Whether the document is synchronised.
    pub sync: bool,
    /// Whether the collection is bitemporal.
    pub bitemporal: bool,
    /// The monotonic time, which makes history keys unique.
    pub system_ms: i64,
    /// The wall-clock time.
    pub wall_ms: i64,
}

/// The row of a document.
pub open spec fn document_row(
    collection: Seq<char>,
    id: Seq<char>,
    fields: Seq<(String, nodedb_types::Value)>,
) -> RowView {
    RowView { collection, id, fields: steps::named_view(fields) }
}

/// The row that records the dimension of a vector.
pub open spec fn dimension_row(collection: Seq<char>, id: Seq<char>, dim: usize) -> RowView {
    RowView {
        collection,
        id,
        fields: seq![
            ("embedding_dim"@, native::native_of(DatumView::Integer(dim as i64))),
        ],
    }
}

/// The steps of a put.
pub open spec fn put_steps(p: DocumentPut) -> Seq<StepView> {
    seq![
        StepView::UpsertRows { rows: seq![document_row(p.collection@, p.id@, p.fields@)] },
    ] + steps::when(!p.sync, StepView::DropPending) + steps::when(
        p.bitemporal,
        StepView::AppendVersion {
            collection: p.collection@,
            id: p.id@,
            fields: steps::named_view(p.fields@),
            system_ms: p.system_ms,
            valid_from_ms: Some(p.wall_ms),
            valid_until_ms: None,
        },
    ) + seq![StepView::IndexText {
            collection: p.collection@,
            id: p.id@,
            fields: steps::named_view(p.fields@),
            sync: p.sync,
        }]
}

/// What steps or an error say.
pub open spec fn steps_outcome(r: Result<Vec<Step>, LiteError>) -> Result<
    Seq<StepView>,
    ErrorView,
> {
    match r {
        Ok(s) => Ok(steps::steps_view(s@)),
        Err(e) => Err(e@),
    }
}

/// Copies the fields of a document.
pub(crate) fn copy_fields(fields: &[(String, nodedb_types::Value)]) -> (r: Vec<
    (String, nodedb_types::Value),
>)
    ensures
        steps::named_view(r@) == steps::named_view(fields@),
{
    let mut out: Vec<(String, nodedb_types::Value)> = Vec::new();
    let ghost all = steps::named_view(fields@);
    let mut i: usize = 0;
    while i < fields.len()
        invariant
            i <= fields@.len(),
            all == steps::named_view(fields@),
            steps::named_view(out@) == all.take(i as int),
        decreases fields@.len() - i,
    {
        let ghost before = steps::named_view(out@);
        let pair = (fields[i].0.as_str().to_owned(), native::copy_native(&fields[i].1));
        out.push(pair);
        proof {
            assert(steps::named_view(out@) =~= before.push((pair.0@, pair.1)));
            assert(all.take(i as int + 1) =~= all.take(i as int).push(all[i as int]));
        }
        i = i + 1;
    }
    proof {
        assert(all.take(i as int) =~= all);
    }
    out
}

/// The row of a document.
pub(crate) fn row_of_document(
    collection: &str,
    id: &str,
    fields: &[(String, nodedb_types::Value)],
) -> (r: CrdtRow)
    ensures
        r@ == document_row(collection@, id@, fields@),
{
    CrdtRow { collection: collection.to_owned(), id: id.to_owned(), fields: copy_fields(fields) }
}

/// The row that records the dimension of a vector.
pub(crate) fn row_of_dimension(collection: &str, id: &str, dim: usize) -> (r: CrdtRow)
    ensures
        r@ == dimension_row(collection@, id@, dim),
{
    let mut fields: Vec<(String, nodedb_types::Value)> = Vec::new();
    fields.push(("embedding_dim".to_owned(), native::native(Datum::Integer(dim as i64))));
    let r = CrdtRow { collection: collection.to_owned(), id: id.to_owned(), fields };
    proof {
        assert(r@.fields =~= dimension_row(collection@, id@, dim).fields);
    }
    r
}

/// One row on its own.
pub(crate) fn one_row(row: CrdtRow) -> (r: Vec<CrdtRow>)
    ensures
        steps::crdt_rows_view(r@) == seq![row@],
{
    let mut rows: Vec<CrdtRow> = Vec::new();
    rows.push(row);
    proof {
        assert(steps::crdt_rows_view(rows@) =~= seq![row@]);
    }
    rows
}

/// Plans a put. Under critical memory pressure it is refused.
pub fn document_put(p: &DocumentPut) -> (r: Result<Vec<Step>, LiteError>)
    ensures
        steps_outcome(r) == if p.pressure == PressureLevel::Critical {
            Err(
                ErrorView::Backpressure(
                    "document put rejected: memory governor is at Critical pressure"@,
                ),
            )
        } else {
            Ok(put_steps(*p))
        },
{
    if p.pressure == PressureLevel::Critical {
        return Err(
            LiteError::Backpressure {
                detail: "document put rejected: memory governor is at Critical pressure".to_owned(),
            },
        );
    }
    let mut out = steps::no_steps();
    let rows = one_row(row_of_document(p.collection, p.id, p.fields));
    steps::push_step(&mut out, Step::UpsertRows { rows });
    if !p.sync {
        steps::push_step(&mut out, Step::DropPending);
    }
    if p.bitemporal {
        steps::push_step(
            &mut out,
            Step::AppendVersion {
                collection: p.collection.to_owned(),
                id: p.id.to_owned(),
                fields: copy_fields(p.fields),
                system_ms: p.system_ms,
                valid_from_ms: Some(p.wall_ms),
                valid_until_ms: None,
            },
        );
    }
    steps::push_step(
        &mut out,
        Step::IndexText {
            collection: p.collection.to_owned(),
            id: p.id.to_owned(),
            fields: copy_fields(p.fields),
            sync: p.sync,
        },
    );
    proof {
        assert(steps::steps_view(out@) =~= put_steps(*p));
    }
    Ok(out)
}

/// The vector that is written with a document.
#[derive(Debug)]
pub struct VectorPart<'a> {
    /// The collection of the vector.
    pub collection: &'a str,
    /// The document that the vector is of.
    pub id: &'a str,
    /// The dimension of the vector, zero for no vector.
    pub dim: usize,
    /// Whether inserted vectors are queued for synchronisation.
    pub outbound: bool,
}

/// The steps of a put with a vector. The document and the dimension of the
/// vector go to the replicated store together, and the vector is durable before
/// it is indexed.
pub open spec fn put_with_vector_steps(p: DocumentPut, v: VectorPart) -> Seq<StepView> {
    let row = document_row(p.collection@, p.id@, p.fields@);
    let rows = if v.dim > 0 {
        seq![row, dimension_row(v.collection@, v.id@, v.dim)]
    } else {
        seq![row]
    };
    seq![StepView::UpsertRows { rows }] + steps::when(!p.sync, StepView::DropPending)
        + steps::when(
        p.bitemporal,
        StepView::AppendVersion {
            collection: p.collection@,
            id: p.id@,
            fields: steps::named_view(p.fields@),
            system_ms: p.system_ms,
            valid_from_ms: Some(p.wall_ms),
            valid_until_ms: None,
        },
    ) + steps::when(v.dim > 0, StepView::PutVector { index: v.collection@, id: v.id@ }) + seq![
        StepView::IndexText {
            collection: p.collection@,
            id: p.id@,
            fields: steps::named_view(p.fields@),
            sync: p.sync,
        },
    ] + steps::when(
        v.dim > 0,
        StepView::InsertNode { index: v.collection@, id: v.id@, dim: v.dim },
    ) + steps::when(
        v.dim > 0 && p.sync && v.outbound,
        StepView::EnqueueInsert {
            collection: v.collection@,
            id: v.id@,
            dim: v.dim,
            field: ""@,
        },
    ) + steps::when(v.dim > 0, StepView::UpdateMemoryStats)
}

/// Plans a put of a document with its vector.
pub fn document_put_with_vector(p: &DocumentPut, v: &VectorPart) -> (r: Vec<Step>)
    ensures
        steps::steps_view(r@) == put_with_vector_steps(*p, *v),
{
    let mut out = steps::no_steps();
    let mut rows = one_row(row_of_document(p.collection, p.id, p.fields));
    if v.dim > 0 {
        let ghost before = steps::crdt_rows_view(rows@);
        let row = row_of_dimension(v.collection, v.id, v.dim);
        rows.push(row);
        proof {
            assert(steps::crdt_rows_view(rows@) =~= before.push(row@));
            assert(before.push(row@) =~= seq![before[0], row@]);
        }
    }
    steps::push_step(&mut out, Step::UpsertRows { rows });
    if !p.sync {
        steps::push_step(&mut out, Step::DropPending);
    }
    if p.bitemporal {
        steps::push_step(
            &mut out,
            Step::AppendVersion {
                collection: p.collection.to_owned(),
                id: p.id.to_owned(),
                fields: copy_fields(p.fields),
                system_ms: p.system_ms,
                valid_from_ms: Some(p.wall_ms),
                valid_until_ms: None,
            },
        );
    }
    if v.dim > 0 {
        steps::push_step(
            &mut out,
            Step::PutVector { index: v.collection.to_owned(), id: v.id.to_owned() },
        );
    }
    steps::push_step(
        &mut out,
        Step::IndexText {
            collection: p.collection.to_owned(),
            id: p.id.to_owned(),
            fields: copy_fields(p.fields),
            sync: p.sync,
        },
    );
    if v.dim > 0 {
        steps::push_step(
            &mut out,
            Step::InsertNode {
                index: v.collection.to_owned(),
                id: v.id.to_owned(),
                dim: v.dim,
            },
        );
        if p.sync && v.outbound {
            steps::push_step(
                &mut out,
                Step::EnqueueInsert {
                    collection: v.collection.to_owned(),
                    id: v.id.to_owned(),
                    dim: v.dim,
                    field: "".to_owned(),
                },
            );
        }
        steps::push_step(&mut out, Step::UpdateMemoryStats);
    }
    proof {
        assert(steps::steps_view(out@) =~= put_with_vector_steps(*p, *v));
    }
    out
}

/// The steps of a delete.
pub open spec fn delete_steps(
    collection: Seq<char>,
    id: Seq<char>,
    bitemporal: bool,
    system_ms: i64,
    wall_ms: i64,
) -> Seq<StepView> {
    seq![
        if bitemporal {
            StepView::AppendTombstone {
                collection,
                id,
                system_ms,
                valid_from_ms: Some(wall_ms),
            }
        } else {
            StepView::DeleteRow { collection, id }
        },
        StepView::RemoveText { collection, id },
    ]
}

/// Plans a delete. A bitemporal collection keeps the document in its history
/// under a tombstone; any other collection loses it.
pub fn document_delete(
    collection: &str,
    id: &str,
    bitemporal: bool,
    system_ms: i64,
    wall_ms: i64,
) -> (r: Vec<Step>)
    ensures
        steps::steps_view(r@) == delete_steps(collection@, id@, bitemporal, system_ms, wall_ms),
{
    let mut out = steps::no_steps();
    if bitemporal {
        steps::push_step(
            &mut out,
            Step::AppendTombstone {
                collection: collection.to_owned(),
                id: id.to_owned(),
                system_ms,
                valid_from_ms: Some(wall_ms),
            },
        );
    } else {
        steps::push_step(
            &mut out,
            Step::DeleteRow { collection: collection.to_owned(), id: id.to_owned() },
        );
    }
    steps::push_step(
        &mut out,
        Step::RemoveText { collection: collection.to_owned(), id: id.to_owned() },
    );
    proof {
        assert(steps::steps_view(out@) =~= delete_steps(
            collection@,
            id@,
            bitemporal,
            system_ms,
            wall_ms,
        ));
    }
    out
}

/// Where a document is read from.
#[derive(Debug, Clone, Copy, PartialEq, Eq, Structural)]
pub enum ReadFrom {
    /// The current version in the history.
    CurrentVersion,
    /// The replicated store.
    Store,
}

/// Where a document of a collection is read from: the history where there is
/// one.
pub fn document_get(bitemporal: bool) -> (r: ReadFrom)
    ensures
        r == if bitemporal {
            ReadFrom::CurrentVersion
        } else {
            ReadFrom::Store
        },
{
    if bitemporal {
        ReadFrom::CurrentVersion
    } else {
        ReadFrom::Store
    }
}

/// The version of a document that a read asks for.
#[derive(Debug, Clone, Copy, PartialEq, Eq, Structural)]
pub struct VersionAsOf {
    /// The system time to read at.
    pub system_ms: i64,
    /// The valid time that the version must cover, where given.
    pub valid_ms: Option<i64>,
}

/// Plans a read as of a system time. Without one the most recent version is
/// read, and the valid time still counts. The collection must be bitemporal.
pub fn document_get_as_of(
    bitemporal: bool,
    as_of_ms: Option<i64>,
    valid_time_ms: Option<i64>,
) -> (r: Result<VersionAsOf, LiteError>)
    ensures
        match r {
            Ok(v) => bitemporal && v == (VersionAsOf {
                system_ms: match as_of_ms {
                    Some(t) => t,
                    None => i64::MAX,
                },
                valid_ms: valid_time_ms,
            }),
            Err(e) => !bitemporal && e@ == ErrorView::Storage(
                "document_get_as_of requires a collection created WITH (bitemporal=true)"@,
            ),
        },
{
    if !bitemporal {
        return Err(
            error::storage_error(
                "document_get_as_of requires a collection created WITH (bitemporal=true)",
            ),
        );
    }
    let system_ms: i64 = match as_of_ms {
        Some(t) => t,
        None => i64::MAX,
    };
    Ok(VersionAsOf { system_ms, valid_ms: valid_time_ms })
}

/// The steps of a put with explicit valid times.
pub open spec fn put_valid_steps(
    p: DocumentPut,
    valid_from_ms: Option<i64>,
    valid_until_ms: Option<i64>,
) -> Seq<StepView> {
    seq![
        StepView::UpsertRows { rows: seq![document_row(p.collection@, p.id@, p.fields@)] },
    ] + steps::when(!p.sync, StepView::DropPending) + seq![
        StepView::AppendVersion {
            collection: p.collection@,
            id: p.id@,
            fields: steps::named_view(p.fields@),
            system_ms: p.system_ms,
            valid_from_ms: match valid_from_ms {
                Some(t) => Some(t),
                None => Some(p.wall_ms),
            },
            valid_until_ms,
        },
        StepView::IndexText {
            collection: p.collection@,
            id: p.id@,
            fields: steps::named_view(p.fields@),
            sync: p.sync,
        },
    ]
}

/// Plans a put with explicit valid times. Without a beginning the document is
/// valid from now on. The collection must be bitemporal.
pub fn document_put_with_valid_time(
    p: &DocumentPut,
    valid_from_ms: Option<i64>,
    valid_until_ms: Option<i64>,
) -> (r: Result<Vec<Step>, LiteError>)
    ensures
        steps_outcome(r) == if p.bitemporal {
            Ok(put_valid_steps(*p, valid_from_ms, valid_until_ms))
        } else {
            Err(
                ErrorView::Storage(
                    "document_put_with_valid_time requires a collection created WITH (bitemporal=true)"@,
                ),
            )
        },
{
    if !p.bitemporal {
        return Err(
            error::storage_error(
                "document_put_with_valid_time requires a collection created WITH (bitemporal=true)",
            ),
        );
    }
    let mut out = steps::no_steps();
    let rows = one_row(row_of_document(p.collection, p.id, p.fields));
    steps::push_step(&mut out, Step::UpsertRows { rows });
    if !p.sync {
        steps::push_step(&mut out, Step::DropPending);
    }
    let from = match valid_from_ms {
        Some(t) => Some(t),
        None => Some(p.wall_ms),
    };
    steps::push_step(
        &mut out,
        Step::AppendVersion {
            collection: p.collection.to_owned(),
            id: p.id.to_owned(),
            fields: copy_fields(p.fields),
            system_ms: p.system_ms,
            valid_from_ms: from,
            valid_until_ms,
        },
    );
    steps::push_step(
        &mut out,
        Step::IndexText {
            collection: p.collection.to_owned(),
            id: p.id.to_owned(),
            fields: copy_fields(p.fields),
            sync: p.sync,
        },
    );
    proof {
        assert(steps::steps_view(out@) =~= put_valid_steps(*p, valid_from_ms, valid_until_ms));
    }
    Ok(out)
}

/// A document that was read.
#[derive(Debug)]
pub struct ReadDocument {
    /// The document.
    pub id: String,
    /// Its fields, each name once.
    pub fields: Vec<(String, nodedb_types::Value)>,
}

/// The fields of the object that `nodedb_types::json_msgpack::value_from_msgpack`
/// reads from a body whose maps have texts for keys, none where it reads no
/// object.
pub uninterp spec fn decoded_body(body: Seq<u8>) -> Option<Map<Seq<char>, nodedb_types::Value>>;

/// Calls `nodedb_types::json_msgpack::value_from_msgpack` and takes the fields
/// of the object it reads, each name once. Of a body whose maps have texts for
/// keys they are the ones named [`decoded_body`]. Of any other body it is left
/// open which fields are read: a key that is no text is named by its debug form,
/// and that of a map comes in no fixed order.
#[verifier::external_body]
pub(crate) fn body_fields(body: &[u8]) -> (r: Option<Vec<(String, nodedb_types::Value)>>)
    ensures
        match r {
            Some(f) => wire::distinct_names(f@) && (body::text_keyed(body@) ==> decoded_body(body@)
                == Some(wire::fields_map(f@))),
            None => body::text_keyed(body@) ==> decoded_body(body@) is None,
        },
{
    match nodedb_types::json_msgpack::value_from_msgpack(body) {
        Ok(nodedb_types::Value::Object(map)) => Some(map.into_iter().collect()),
        _ => None,
    }
}

/// The document with the fields that were read, none where its body could not
/// be read.
pub fn document_with_fields(id: &str, fields: Option<Vec<(String, nodedb_types::Value)>>) -> (r:
    ReadDocument)
    ensures
        r.id@ == id@,
        r.fields@ == match fields {
            Some(f) => f@,
            None => Seq::empty(),
        },
{
    match fields {
        Some(f) => ReadDocument { id: id.to_owned(), fields: f },
        None => ReadDocument { id: id.to_owned(), fields: Vec::new() },
    }
}

/// The fields of a stored version: none where its body holds none.
pub open spec fn version_fields(body: Seq<u8>) -> Map<Seq<char>, nodedb_types::Value> {
    if body.len() == 0 {
        Map::empty()
    } else {
        match decoded_body(body) {
            Some(m) => m,
            None => Map::empty(),
        }
    }
}

/// The document of a stored version. An empty body has no fields.
pub fn decoded_version_to_document(id: &str, body: &[u8]) -> (r: ReadDocument)
    ensures
        r.id@ == id@,
        wire::distinct_names(r.fields@),
        body@.len() == 0 ==> r.fields@.len() == 0,
        body::text_keyed(body@) ==> wire::fields_map(r.fields@) == version_fields(body@),
{
    let r = if body.len() == 0 {
        document_with_fields(id, None)
    } else {
        document_with_fields(id, body_fields(body))
    };
    proof {
        if r.fields@.len() == 0 {
            assert(wire::fields_map(r.fields@) =~= Map::empty());
        }
    }
    r
}

/// The text of a stored version: an empty object where its body holds none.
pub open spec fn version_text(body: Seq<u8>) -> Seq<char> {
    if body.len() == 0 {
        "{}"@
    } else {
        render::text_of(decoded_body(body))
    }
}

/// The text of a stored version.
pub fn stored_document_text(body: &[u8]) -> (r: String)
    ensures
        body@.len() == 0 ==> r@ == "{}"@,
        body::text_keyed(body@) ==> r@ == version_text(body@),
{
    if body.len() == 0 {
        return "{}".to_owned();
    }
    render::document_text(body_fields(body))
}

} // verus!
