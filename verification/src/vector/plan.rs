//! Writes of vectors: the steps of each, and its answer.
use crate::document::plan;
use crate::error;
use crate::error::{ErrorView, LiteError};
use crate::health::PressureLevel;
use crate::native;
use crate::result;
use crate::result::{QueryResult, ResultView};
use crate::steps;
use crate::steps::{CrdtRow, RowView, Step, StepView};
use crate::text;
use crate::value::{Datum, DatumView};
use crate::vector::nodes;
use crate::vector::state;
use crate::vector::state::{IdView, VectorState};
use crate::wire;
use vstd::prelude::*;

verus! {

/// Steps and an answer.
#[derive(Debug)]
pub struct VectorPlan {
    /// The steps, in order.
    pub steps: Vec<Step>,
    /// The answer once they are made.
    pub result: QueryResult,
}

/// What a [`VectorPlan`] is.
pub struct VectorPlanView {
    pub steps: Seq<StepView>,
    pub result: ResultView,
}

impl View for VectorPlan {
    type V = VectorPlanView;

    open spec fn view(&self) -> VectorPlanView {
        VectorPlanView { steps: steps::steps_view(self.steps@), result: self.result@ }
    }
}

/// What a plan or an error says.
pub open spec fn plan_outcome(r: Result<VectorPlan, LiteError>) -> Result<
    VectorPlanView,
    ErrorView,
> {
    match r {
        Ok(p) => Ok(p@),
        Err(e) => Err(e@),
    }
}

/// The text that stands for a numbered row.
pub open spec fn surrogate_text(surrogate: u32) -> Seq<char> {
    "sur:"@ + text::decimal(surrogate as nat)
}

/// Writes the text that stands for a numbered row.
pub fn surrogate_string(surrogate: u32) -> (r: String)
    ensures
        r@ == surrogate_text(surrogate),
{
    let digits = text::decimal_string(surrogate as u64);
    text::concat2("sur:", digits.as_str())
}

/// The identity of a row: its key as text, or its number where it has no key.
pub fn doc_id_for(pk_bytes: &[u8], surrogate: u32) -> (r: Result<String, LiteError>)
    ensures
        match r {
            Ok(id) => if pk_bytes@.len() == 0 {
                id@ == surrogate_text(surrogate)
            } else {
                vstd::utf8::valid_utf8(pk_bytes@) && id@ == vstd::utf8::decode_utf8(pk_bytes@)
            },
            Err(e) => pk_bytes@.len() > 0 && !vstd::utf8::valid_utf8(pk_bytes@) && e@
                == ErrorView::BadRequest(
                "vector-primary key is not UTF-8: "@ + text::utf8_error(pk_bytes@),
            ),
        },
{
    if pk_bytes.len() == 0 {
        return Ok(surrogate_string(surrogate));
    }
    match text::utf8_string(crate::bytes::copy_bytes(pk_bytes)) {
        Ok(id) => Ok(id),
        Err(e) => Err(
            LiteError::BadRequest {
                detail: text::concat2("vector-primary key is not UTF-8: ", e.as_str()),
            },
        ),
    }
}

/// The fields of an encoded row. Nothing is an empty row.
pub fn decode_payload(payload: &[u8]) -> (r: Result<
    Vec<(String, nodedb_types::Value)>,
    LiteError,
>)
    ensures
        match r {
            Ok(f) => wire::distinct_names(f@) && if payload@.len() == 0 {
                f@.len() == 0
            } else {
                wire::decoded_fields(payload@) == Ok::<
                    Map<Seq<char>, nodedb_types::Value>,
                    Seq<char>,
                >(wire::fields_map(f@))
            },
            Err(e) => payload@.len() > 0 && wire::decoded_fields(payload@) is Err && e@
                == ErrorView::Serialization(
                "decode vector-primary payload: "@ + wire::decoded_fields(payload@)->Err_0,
            ),
        },
{
    if payload.len() == 0 {
        return Ok(Vec::new());
    }
    match wire::decode_fields(payload) {
        Ok(f) => Ok(f),
        Err(e) => Err(
            LiteError::Serialization {
                detail: text::concat2("decode vector-primary payload: ", e.as_str()),
            },
        ),
    }
}

/// How the distance of two vectors is measured.
#[derive(Debug, Clone, Copy, PartialEq, Eq, Structural)]
pub enum DistanceMetric {
    L2,
    Cosine,
    InnerProduct,
    Manhattan,
    Chebyshev,
    Hamming,
    Jaccard,
    Pearson,
}

/// The metric of a name in lower case.
pub open spec fn metric_of(name: Seq<char>) -> Option<DistanceMetric> {
    if name == "l2"@ || name == "euclidean"@ {
        Some(DistanceMetric::L2)
    } else if name == "cosine"@ {
        Some(DistanceMetric::Cosine)
    } else if name == "innerproduct"@ || name == "inner_product"@ || name == "dot"@ {
        Some(DistanceMetric::InnerProduct)
    } else if name == "manhattan"@ || name == "l1"@ {
        Some(DistanceMetric::Manhattan)
    } else if name == "chebyshev"@ || name == "linf"@ {
        Some(DistanceMetric::Chebyshev)
    } else if name == "hamming"@ {
        Some(DistanceMetric::Hamming)
    } else if name == "jaccard"@ {
        Some(DistanceMetric::Jaccard)
    } else if name == "pearson"@ {
        Some(DistanceMetric::Pearson)
    } else {
        None
    }
}

/// The message for a metric that there is not.
pub open spec fn unknown_metric(name: Seq<char>) -> Seq<char> {
    "SetParams: unknown metric '"@ + name
        + "'; expected l2, cosine, inner_product, manhattan, chebyshev, hamming, jaccard, or pearson"@
}

/// What `str::to_lowercase` makes of a text.
pub uninterp spec fn lowercased(s: Seq<char>) -> Seq<char>;

/// Calls `str::to_lowercase`. The result is the one named [`lowercased`].
#[verifier::external_body]
fn lowercase(s: &str) -> (r: String)
    ensures
        r@ == lowercased(s@),
{
    s.to_lowercase()
}

/// The metric of a name in lower case.
pub fn metric_named(name: &str) -> (r: Result<DistanceMetric, LiteError>)
    ensures
        match r {
            Ok(m) => metric_of(name@) == Some(m),
            Err(e) => metric_of(name@) is None && e@ == ErrorView::BadRequest(
                unknown_metric(name@),
            ),
        },
{
    if text::str_eq(name, "l2") || text::str_eq(name, "euclidean") {
        Ok(DistanceMetric::L2)
    } else if text::str_eq(name, "cosine") {
        Ok(DistanceMetric::Cosine)
    } else if text::str_eq(name, "innerproduct") || text::str_eq(name, "inner_product")
        || text::str_eq(name, "dot") {
        Ok(DistanceMetric::InnerProduct)
    } else if text::str_eq(name, "manhattan") || text::str_eq(name, "l1") {
        Ok(DistanceMetric::Manhattan)
    } else if text::str_eq(name, "chebyshev") || text::str_eq(name, "linf") {
        Ok(DistanceMetric::Chebyshev)
    } else if text::str_eq(name, "hamming") {
        Ok(DistanceMetric::Hamming)
    } else if text::str_eq(name, "jaccard") {
        Ok(DistanceMetric::Jaccard)
    } else if text::str_eq(name, "pearson") {
        Ok(DistanceMetric::Pearson)
    } else {
        Err(
            LiteError::BadRequest {
                detail: text::concat3(
                    "SetParams: unknown metric '",
                    name,
                    "'; expected l2, cosine, inner_product, manhattan, chebyshev, hamming, jaccard, or pearson",
                ),
            },
        )
    }
}

/// The metric of a name, whatever its case.
pub fn parse_metric(s: &str) -> (r: Result<DistanceMetric, LiteError>)
    ensures
        match r {
            Ok(m) => metric_of(lowercased(s@)) == Some(m),
            Err(e) => metric_of(lowercased(s@)) is None && e@ == ErrorView::BadRequest(
                unknown_metric(lowercased(s@)),
            ),
        },
{
    let lower = lowercase(s);
    metric_named(lower.as_str())
}

/// The steps of an insert.
pub open spec fn insert_steps(
    collection: Seq<char>,
    index: Seq<char>,
    doc_id: Seq<char>,
    dim: usize,
) -> Seq<StepView> {
    steps::when(dim > 0, StepView::PutVector { index, id: doc_id }) + seq![
        StepView::InsertNode { index, id: doc_id, dim },
        StepView::UpsertRows { rows: seq![plan::dimension_row(collection, doc_id, dim)] },
    ]
}

/// Appends the steps of an insert.
fn push_insert(out: &mut Vec<Step>, collection: &str, index: &str, doc_id: &str, dim: usize)
    ensures
        steps::steps_view(final(out)@) == steps::steps_view(old(out)@) + insert_steps(
            collection@,
            index@,
            doc_id@,
            dim,
        ),
{
    if dim > 0 {
        steps::push_step(out, Step::PutVector { index: index.to_owned(), id: doc_id.to_owned() });
    }
    steps::push_step(
        out,
        Step::InsertNode { index: index.to_owned(), id: doc_id.to_owned(), dim },
    );
    let rows = plan::one_row(plan::row_of_dimension(collection, doc_id, dim));
    steps::push_step(out, Step::UpsertRows { rows });
    proof {
        assert(steps::steps_view(out@) =~= steps::steps_view(old(out)@) + insert_steps(
            collection@,
            index@,
            doc_id@,
            dim,
        ));
    }
}

/// Plans the insert of a vector. The vector is durable before it is indexed.
pub fn vector_insert(collection: &str, field: &str, doc_id: &str, dim: usize) -> (r: VectorPlan)
    ensures
        r@ == (VectorPlanView {
            steps: insert_steps(
                collection@,
                state::index_key_of(collection@, field@),
                doc_id@,
                dim,
            ),
            result: result::affected_view(1),
        }),
{
    let index = state::index_key(collection, field);
    let mut out = steps::no_steps();
    push_insert(&mut out, collection, index.as_str(), doc_id, dim);
    let r = VectorPlan { steps: out, result: QueryResult::affected(1) };
    proof {
        assert(r@.steps =~= insert_steps(
            collection@,
            state::index_key_of(collection@, field@),
            doc_id@,
            dim,
        ));
    }
    r
}

/// Plans an upsert into a collection of vectors. The first one registers the
/// shape of the index: its field, the low bits of its dimension, and how it holds
/// and compresses its vectors.
pub fn vector_direct_upsert(
    collection: &str,
    field: &str,
    doc_id: &str,
    dim: usize,
    configured: bool,
    quantization: nodedb_types::VectorQuantization,
    storage_dtype: nodedb_types::vector_dtype::VectorStorageDtype,
) -> (r: VectorPlan)
    ensures
        r@ == (VectorPlanView {
            steps: steps::when(
                !configured,
                StepView::RegisterIndex {
                    index: state::index_key_of(collection@, field@),
                    field: field@,
                    dim: dim as u32,
                    quantization,
                    storage_dtype,
                },
            ) + insert_steps(
                collection@,
                state::index_key_of(collection@, field@),
                doc_id@,
                dim,
            ),
            result: result::affected_view(1),
        }),
{
    let index = state::index_key(collection, field);
    let mut out = steps::no_steps();
    if !configured {
        steps::push_step(
            &mut out,
            Step::RegisterIndex {
                index: index.as_str().to_owned(),
                field: field.to_owned(),
                dim: #[verifier::truncate]
                (dim as u32),
                quantization,
                storage_dtype,
            },
        );
    }
    let ghost first = steps::steps_view(out@);
    proof {
        assert(first =~= steps::when(
            !configured,
            StepView::RegisterIndex {
                index: index@,
                field: field@,
                dim: dim as u32,
                quantization,
                storage_dtype,
            },
        ));
    }
    push_insert(&mut out, collection, index.as_str(), doc_id, dim);
    VectorPlan { steps: out, result: QueryResult::affected(1) }
}

/// The first document that an index binds to a slot, at or after the binding
/// `i`.
pub open spec fn doc_of_slot(ids: Seq<IdView>, index: Seq<char>, slot: u32, i: int) -> Option<
    Seq<char>,
>
    decreases ids.len() - i,
{
    if i < 0 || i >= ids.len() {
        None
    } else if nodes::belongs(ids[i], index) && ids[i].slot == slot {
        Some(ids[i].doc_id)
    } else {
        doc_of_slot(ids, index, slot, i + 1)
    }
}

/// The first document that an index binds to a slot.
fn find_doc(s: &VectorState, index: &str, slot: u32) -> (r: Option<String>)
    ensures
        match r {
            Some(d) => doc_of_slot(s@.ids, index@, slot, 0) == Some(d@),
            None => doc_of_slot(s@.ids, index@, slot, 0) is None,
        },
{
    let key = state::slot_key_string(index, slot);
    let mut i: usize = 0;
    while i < s.ids.len()
        invariant
            i <= s.ids@.len(),
            key@ == state::slot_key(index@, slot),
            doc_of_slot(s@.ids, index@, slot, 0) == doc_of_slot(s@.ids, index@, slot, i as int),
        decreases s.ids@.len() - i,
    {
        if s.ids[i].slot == slot && text::str_eq(s.ids[i].key.as_str(), key.as_str()) {
            return Some(s.ids[i].doc_id.as_str().to_owned());
        }
        i = i + 1;
    }
    None
}

/// The first document that any index binds to a slot, at or after the binding
/// `i`.
pub open spec fn any_doc_of_slot(ids: Seq<IdView>, slot: u32, i: int) -> Option<Seq<char>>
    decreases ids.len() - i,
{
    if i < 0 || i >= ids.len() {
        None
    } else if ids[i].slot == slot {
        Some(ids[i].doc_id)
    } else {
        any_doc_of_slot(ids, slot, i + 1)
    }
}

/// The document of a slot: the one that the index binds to it, or else one that
/// another index does.
pub open spec fn slot_doc(ids: Seq<IdView>, index: Seq<char>, slot: u32) -> Option<Seq<char>> {
    match doc_of_slot(ids, index, slot, 0) {
        Some(doc_id) => Some(doc_id),
        None => any_doc_of_slot(ids, slot, 0),
    }
}

/// The first document that any index binds to a slot.
fn find_any_doc(s: &VectorState, slot: u32) -> (r: Option<String>)
    ensures
        match r {
            Some(d) => any_doc_of_slot(s@.ids, slot, 0) == Some(d@),
            None => any_doc_of_slot(s@.ids, slot, 0) is None,
        },
{
    let mut i: usize = 0;
    while i < s.ids.len()
        invariant
            i <= s.ids@.len(),
            any_doc_of_slot(s@.ids, slot, 0) == any_doc_of_slot(s@.ids, slot, i as int),
        decreases s.ids@.len() - i,
    {
        if s.ids[i].slot == slot {
            return Some(s.ids[i].doc_id.as_str().to_owned());
        }
        i = i + 1;
    }
    None
}

/// The first slot that any index binds to a document, at or after the binding
/// `i`.
pub open spec fn any_slot_of_doc(ids: Seq<IdView>, doc_id: Seq<char>, i: int) -> Option<u32>
    decreases ids.len() - i,
{
    if i < 0 || i >= ids.len() {
        None
    } else if ids[i].doc_id == doc_id {
        Some(ids[i].slot)
    } else {
        any_slot_of_doc(ids, doc_id, i + 1)
    }
}

/// The slot of a document: the one that the index binds to it, or else one that
/// another index does.
pub open spec fn doc_slot(ids: Seq<IdView>, index: Seq<char>, doc_id: Seq<char>) -> Option<u32> {
    match nodes::slot_of(ids, index, doc_id) {
        Some(slot) => Some(slot),
        None => any_slot_of_doc(ids, doc_id, 0),
    }
}

/// The slot of a document.
fn find_slot(s: &VectorState, index: &str, doc_id: &str) -> (r: Option<u32>)
    ensures
        r == doc_slot(s@.ids, index@, doc_id@),
{
    if let Some(slot) = s.slot_of(index, doc_id) {
        return Some(slot);
    }
    let mut i: usize = 0;
    while i < s.ids.len()
        invariant
            i <= s.ids@.len(),
            nodes::slot_of(s@.ids, index@, doc_id@) is None,
            any_slot_of_doc(s@.ids, doc_id@, 0) == any_slot_of_doc(s@.ids, doc_id@, i as int),
        decreases s.ids@.len() - i,
    {
        if text::str_eq(s.ids[i].doc_id.as_str(), doc_id) {
            return Some(s.ids[i].slot);
        }
        i = i + 1;
    }
    None
}

/// The answer to a delete by slot.
pub open spec fn delete_by_id_spec(
    ids: Seq<IdView>,
    collection: Seq<char>,
    vector_id: u32,
) -> Result<VectorPlanView, ErrorView> {
    match slot_doc(ids, collection, vector_id) {
        Some(doc_id) => Ok(
            VectorPlanView {
                steps: seq![
                    StepView::DeleteNode { index: collection, slot: vector_id },
                    StepView::DeleteRow { collection, id: doc_id },
                ],
                result: result::affected_view(1),
            },
        ),
        None => Err(
            ErrorView::BadRequest(
                "Delete: vector_id "@ + text::decimal(vector_id as nat)
                    + " not found in collection '"@ + collection + "'"@,
            ),
        ),
    }
}

/// Plans the delete of a vector by its slot in the index of a collection. Its
/// document is looked up in the bindings of the index first, then in those of
/// the others.
pub fn vector_delete_by_id(s: &VectorState, collection: &str, vector_id: u32) -> (r: Result<
    VectorPlan,
    LiteError,
>)
    ensures
        plan_outcome(r) == delete_by_id_spec(s@.ids, collection@, vector_id),
{
    let found = match find_doc(s, collection, vector_id) {
        Some(doc_id) => Some(doc_id),
        None => find_any_doc(s, vector_id),
    };
    match found {
        Some(doc_id) => {
            let mut out = steps::no_steps();
            steps::push_step(
                &mut out,
                Step::DeleteNode { index: collection.to_owned(), slot: vector_id },
            );
            steps::push_step(
                &mut out,
                Step::DeleteRow { collection: collection.to_owned(), id: doc_id },
            );
            let r = VectorPlan { steps: out, result: QueryResult::affected(1) };
            proof {
                assert(r@.steps =~= seq![
                    StepView::DeleteNode { index: collection@, slot: vector_id },
                    StepView::DeleteRow { collection: collection@, id: doc_id@ },
                ]);
            }
            Ok(r)
        },
        None => {
            let digits = text::decimal_string(vector_id as u64);
            Err(
                LiteError::BadRequest {
                    detail: text::concat5(
                        "Delete: vector_id ",
                        digits.as_str(),
                        " not found in collection '",
                        collection,
                        "'",
                    ),
                },
            )
        },
    }
}

/// Plans the delete of a vector by the number of its row. Its slot is looked up
/// in the bindings of the index first, then in those of the others. A row without
/// a slot is deleted all the same.
pub fn vector_delete_by_surrogate(
    s: &VectorState,
    collection: &str,
    surrogate: u32,
    field: &str,
) -> (r: VectorPlan)
    ensures
        r@ == ({
            let doc_id = surrogate_text(surrogate);
            VectorPlanView {
                steps: match doc_slot(
                    s@.ids,
                    state::index_key_of(collection@, field@),
                    doc_id,
                ) {
                    Some(slot) => seq![
                        StepView::DeleteNode {
                            index: state::index_key_of(collection@, field@),
                            slot,
                        },
                        StepView::DeleteRow { collection: collection@, id: doc_id },
                    ],
                    None => seq![StepView::DeleteRow { collection: collection@, id: doc_id }],
                },
                result: result::affected_view(1),
            }
        }),
{
    let doc_id = surrogate_string(surrogate);
    let mut out = steps::no_steps();
    let index = state::index_key(collection, field);
    let found = find_slot(s, index.as_str(), doc_id.as_str());
    match found {
        Some(slot) => {
            steps::push_step(&mut out, Step::DeleteNode { index, slot });
        },
        None => {},
    }
    steps::push_step(
        &mut out,
        Step::DeleteRow { collection: collection.to_owned(), id: doc_id },
    );
    let r = VectorPlan { steps: out, result: QueryResult::affected(1) };
    proof {
        let row = StepView::DeleteRow { collection: collection@, id: surrogate_text(surrogate) };
        match found {
            Some(slot) => {
                assert(r@.steps =~= seq![
                    StepView::DeleteNode {
                        index: state::index_key_of(collection@, field@),
                        slot,
                    },
                    row,
                ]);
            },
            None => {
                assert(r@.steps =~= seq![row]);
            },
        }
    }
    r
}

/// The build parameters of an index.
#[derive(Debug, Clone, Copy, PartialEq, Eq, Structural)]
pub struct IndexParams {
    /// The number of links of a node.
    pub m: u8,
    /// The width of the search while the index is built.
    pub ef_construction: u16,
    /// The distance.
    pub metric: DistanceMetric,
}

/// The message for an index whose parameters can no longer change.
pub open spec fn params_fixed(index: Seq<char>) -> Seq<char> {
    "SetParams: Lite HnswIndex parameters are fixed at index creation; index '"@ + index
        + "' already exists. Drop and recreate to change params."@
}

/// Sets the build parameters of an index that does not exist yet. The numbers
/// keep their low bits.
pub fn vector_set_params(
    s: &VectorState,
    index: &str,
    m: usize,
    ef_construction: usize,
    metric: &str,
) -> (r: Result<(IndexParams, QueryResult), LiteError>)
    ensures
        match metric_of(lowercased(metric@)) {
            None => r is Err && (r->Err_0)@ == ErrorView::BadRequest(
                unknown_metric(lowercased(metric@)),
            ),
            Some(d) => if state::bucket_at(s@.buckets, index@) is Some {
                r is Err && (r->Err_0)@ == ErrorView::BadRequest(params_fixed(index@))
            } else {
                r is Ok && (r->Ok_0).0 == (IndexParams {
                    m: m as u8,
                    ef_construction: ef_construction as u16,
                    metric: d,
                }) && (r->Ok_0).1@ == result::affected_view(0)
            },
        },
{
    let distance = match parse_metric(metric) {
        Ok(d) => d,
        Err(e) => return Err(e),
    };
    if s.bucket_position(index).is_some() {
        return Err(
            LiteError::BadRequest {
                detail: text::concat3(
                    "SetParams: Lite HnswIndex parameters are fixed at index creation; index '",
                    index,
                    "' already exists. Drop and recreate to change params.",
                ),
            },
        );
    }
    let params = IndexParams {
        m: #[verifier::truncate]
        (m as u8),
        ef_construction: #[verifier::truncate]
        (ef_construction as u16),
        metric: distance,
    };
    Ok((params, QueryResult::empty()))
}

} // verus!
