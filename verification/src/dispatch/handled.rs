//! Where operations of physical plans go, and which of them are refused.
use crate::dispatch::crdt;
use crate::dispatch::document;
use crate::dispatch::gate;
use crate::dispatch::gate::SystemTimeScope;
use crate::dispatch::graph;
use crate::dispatch::kv;
use crate::dispatch::meta;
use crate::dispatch::query;
use crate::dispatch::spatial;
use crate::dispatch::timeseries;
use crate::error::LiteError;
use crate::policy::RlsWriteCheck;
use vstd::prelude::*;

verus! {

/// Whether a write check leaves nothing to decide: it is no predicate, and the
/// policy pass has run.
pub open spec fn decided(check: RlsWriteCheck) -> bool {
    !(check is Predicate) && !(check is PendingInjection)
}

/// The time that a scope narrows a read to.
pub open spec fn narrowed(scope: SystemTimeScope) -> Option<i64> {
    match scope {
        SystemTimeScope::AsOf(ms) => Some(ms),
        SystemTimeScope::Current => None,
        SystemTimeScope::AllVersions => None,
    }
}

proof fn lemma_verdicts()
    ensures
        forall|op: Seq<char>, returning: bool, programs: Seq<Seq<u8>>|
            (#[trigger] gate::policy_verdict(op, returning, programs)) is None <==> !returning && (
            programs.len() > 0 ==> programs[0].len() == 0) && (programs.len() > 1
                ==> programs[1].len() == 0) && forall|i: int|
                2 <= i < programs.len() ==> (#[trigger] programs[i]).len() == 0,
{
}

/// An operation that is not refused goes to the handler of its name, with its own
/// arguments. One that carries a policy, or asks for rows back, is refused.
pub proof fn columnar_operations_go_to_their_handlers<'a>(
    op: &'a crate::dispatch::columnar::ColumnarOp,
    r: Result<crate::dispatch::columnar::ColumnarHandler<'a>, LiteError>,
)
    requires
        call_ensures(crate::dispatch::columnar::dispatch, (op,), r),
    ensures
        match *op {
            crate::dispatch::columnar::ColumnarOp::Scan { collection, projection, limit, filters,
                sort_keys, system_time, valid_at_ms, prefilter, computed_columns } => {
                (r is Ok <==> system_time != SystemTimeScope::AllVersions) && (r is Ok ==> (
                    r->Ok_0 matches crate::dispatch::columnar::ColumnarHandler::Scan {
                    collection: h_collection, projection: h_projection, limit: h_limit,
                    filters: h_filters, sort_keys: h_sort_keys, valid_at_ms: h_valid_at_ms,
                    prefilter: h_prefilter, computed_columns: h_computed_columns,
                    system_as_of_ms: h_system_as_of_ms } && *h_collection == collection
                    && *h_projection == projection && h_limit == limit && *h_filters == filters
                    && *h_sort_keys == sort_keys && h_valid_at_ms == valid_at_ms
                    && *h_prefilter == prefilter && *h_computed_columns == computed_columns
                    && h_system_as_of_ms == narrowed(system_time)))
            },
            crate::dispatch::columnar::ColumnarOp::Insert { rls_write_check, returning,
                rls_filters, .. } => {
                (r is Ok <==> rls_write_check@.len() == 0 && !returning && rls_filters@.len() == 0) && (r is Ok ==> (r->Ok_0 is Insert))
            },
            crate::dispatch::columnar::ColumnarOp::Update { rls_write_check, .. } => {
                (r is Ok <==> rls_write_check@.len() == 0) && (r is Ok ==> (r->Ok_0 is Update))
            },
            crate::dispatch::columnar::ColumnarOp::Delete { rls_write_check, .. } => {
                (r is Ok <==> rls_write_check@.len() == 0) && (r is Ok ==> (r->Ok_0 is Delete))
            },
            crate::dispatch::columnar::ColumnarOp::MaterializeScan { collection, cursor, count,
                system_as_of_ms } => {
                r is Ok && (
                    r->Ok_0 matches crate::dispatch::columnar::ColumnarHandler::MaterializeScan {
                    collection: h_collection, cursor: h_cursor, count: h_count,
                    system_as_of_ms: h_system_as_of_ms } && *h_collection == collection
                    && *h_cursor == cursor && h_count == count
                    && h_system_as_of_ms == system_as_of_ms)
            },
        },
{
    lemma_verdicts();
}

/// An operation that is not refused goes to the handler of its name, with its own
/// arguments. One that carries a policy, or asks for rows back, is refused.
pub proof fn crdt_operations_go_to_their_handlers<'a>(op: &'a crdt::CrdtOp,
    r: Result<crdt::CrdtHandler<'a>, LiteError>,
)
    requires
        call_ensures(crdt::dispatch, (op,), r),
    ensures
        match *op {
            crdt::CrdtOp::Read { collection, document_id } => {
                r is Ok && (r->Ok_0 matches crdt::CrdtHandler::Read { collection: h_collection,
                    document_id: h_document_id } && *h_collection == collection
                    && *h_document_id == document_id)
            },
            crdt::CrdtOp::Apply { collection, delta, mutation_id } => {
                r is Ok && (r->Ok_0 matches crdt::CrdtHandler::Apply { collection: h_collection,
                    delta: h_delta, mutation_id: h_mutation_id } && *h_collection == collection
                    && *h_delta == delta && h_mutation_id == mutation_id)
            },
            crdt::CrdtOp::ImportSnapshot { collection, bytes } => {
                r is Ok && (r->Ok_0 matches crdt::CrdtHandler::ImportSnapshot {
                    collection: h_collection, bytes: h_bytes } && *h_collection == collection
                    && *h_bytes == bytes)
            },
            crdt::CrdtOp::ApplyAuthenticated => {
                r is Err
            },
            crdt::CrdtOp::SetConstraints => {
                r is Err
            },
            crdt::CrdtOp::DropConstraints => {
                r is Err
            },
            crdt::CrdtOp::ReadConstraints => {
                r is Err
            },
            crdt::CrdtOp::SetPolicy { collection, policy_json } => {
                r is Ok && (r->Ok_0 matches crdt::CrdtHandler::SetPolicy {
                    collection: h_collection, policy_json: h_policy_json }
                    && *h_collection == collection && *h_policy_json == policy_json)
            },
            crdt::CrdtOp::GetPolicy { collection } => {
                r is Ok && (r->Ok_0 matches crdt::CrdtHandler::GetPolicy {
                    collection: h_collection } && *h_collection == collection)
            },
            crdt::CrdtOp::ReadAtVersion { collection, document_id, version_vector_json } => {
                r is Ok && (r->Ok_0 matches crdt::CrdtHandler::ReadAtVersion {
                    collection: h_collection, document_id: h_document_id,
                    version_vector_json: h_version_vector_json } && *h_collection == collection
                    && *h_document_id == document_id
                    && *h_version_vector_json == version_vector_json)
            },
            crdt::CrdtOp::GetVersionVector => {
                r is Ok && (r->Ok_0 is GetVersionVector)
            },
            crdt::CrdtOp::ExportDelta { collection, from_version_json } => {
                r is Ok && (r->Ok_0 matches crdt::CrdtHandler::ExportDelta {
                    collection: h_collection, from_version_json: h_from_version_json }
                    && *h_collection == collection && *h_from_version_json == from_version_json)
            },
            crdt::CrdtOp::RestoreToVersion { collection, document_id, target_version_json } => {
                r is Ok && (r->Ok_0 matches crdt::CrdtHandler::RestoreToVersion {
                    collection: h_collection, document_id: h_document_id,
                    target_version_json: h_target_version_json } && *h_collection == collection
                    && *h_document_id == document_id
                    && *h_target_version_json == target_version_json)
            },
            crdt::CrdtOp::CompactAtVersion { collection, target_version_json } => {
                r is Ok && (r->Ok_0 matches crdt::CrdtHandler::CompactAtVersion {
                    collection: h_collection, target_version_json: h_target_version_json }
                    && *h_collection == collection && *h_target_version_json == target_version_json)
            },
            crdt::CrdtOp::ListInsert { collection, document_id, list_path, index, fields_json } => {
                r is Ok && (r->Ok_0 matches crdt::CrdtHandler::ListInsert {
                    collection: h_collection, document_id: h_document_id, list_path: h_list_path,
                    index: h_index, fields_json: h_fields_json } && *h_collection == collection
                    && *h_document_id == document_id && *h_list_path == list_path
                    && h_index == index && *h_fields_json == fields_json)
            },
            crdt::CrdtOp::ListDelete { collection, document_id, list_path, index } => {
                r is Ok && (r->Ok_0 matches crdt::CrdtHandler::ListDelete {
                    collection: h_collection, document_id: h_document_id, list_path: h_list_path,
                    index: h_index } && *h_collection == collection
                    && *h_document_id == document_id && *h_list_path == list_path
                    && h_index == index)
            },
            crdt::CrdtOp::ListMove { collection, document_id, list_path, from_index, to_index } => {
                r is Ok && (r->Ok_0 matches crdt::CrdtHandler::ListMove { collection: h_collection,
                    document_id: h_document_id, list_path: h_list_path, from_index: h_from_index,
                    to_index: h_to_index } && *h_collection == collection
                    && *h_document_id == document_id && *h_list_path == list_path
                    && h_from_index == from_index && h_to_index == to_index)
            },
            crdt::CrdtOp::DocUpsert { collection, document_id, fields_json, partial, returning,
                rls_filters } => {
                (r is Ok <==> rls_filters@.len() == 0) && (r is Ok ==> (
                    r->Ok_0 matches crdt::CrdtHandler::DocUpsert { collection: h_collection,
                    document_id: h_document_id, fields_json: h_fields_json, partial: h_partial,
                    returning: h_returning } && *h_collection == collection
                    && *h_document_id == document_id && *h_fields_json == fields_json
                    && h_partial == partial && *h_returning == returning))
            },
            crdt::CrdtOp::DocDelete { collection, document_id, returning, rls_filters } => {
                (r is Ok <==> rls_filters@.len() == 0) && (r is Ok ==> (
                    r->Ok_0 matches crdt::CrdtHandler::DocDelete { collection: h_collection,
                    document_id: h_document_id, returning: h_returning }
                    && *h_collection == collection && *h_document_id == document_id
                    && *h_returning == returning))
            },
            crdt::CrdtOp::PreviewApply => {
                r is Err
            },
        },
{
    lemma_verdicts();
}

/// An operation that is not refused goes to the handler of its name, with its own
/// arguments. One that carries a policy, or asks for rows back, is refused.
pub proof fn document_operations_go_to_their_handlers<'a>(op: &'a document::DocumentOp,
    r: Result<document::DocumentHandler<'a>, LiteError>,
)
    requires
        call_ensures(document::dispatch, (op,), r),
    ensures
        match *op {
            document::DocumentOp::PointGet { collection, document_id } => {
                r is Ok && (r->Ok_0 matches document::DocumentHandler::PointGet {
                    collection: h_collection, document_id: h_document_id }
                    && *h_collection == collection && *h_document_id == document_id)
            },
            document::DocumentOp::Scan { collection, limit, offset } => {
                r is Ok && (r->Ok_0 matches document::DocumentHandler::Scan {
                    collection: h_collection, limit: h_limit, offset: h_offset }
                    && *h_collection == collection && h_limit == limit && h_offset == offset)
            },
            document::DocumentOp::RangeScan { collection, lower, upper, limit } => {
                r is Ok && (r->Ok_0 matches document::DocumentHandler::RangeScan {
                    collection: h_collection, lower: h_lower, upper: h_upper, limit: h_limit }
                    && *h_collection == collection && *h_lower == lower && *h_upper == upper
                    && h_limit == limit)
            },
            document::DocumentOp::IndexedFetch { collection, path, value, limit, offset } => {
                r is Ok && (r->Ok_0 matches document::DocumentHandler::IndexedFetch {
                    collection: h_collection, path: h_path, value: h_value, limit: h_limit,
                    offset: h_offset } && *h_collection == collection && *h_path == path
                    && *h_value == value && h_limit == limit && h_offset == offset)
            },
            document::DocumentOp::IndexLookup { collection, path, value } => {
                r is Ok && (r->Ok_0 matches document::DocumentHandler::IndexLookup {
                    collection: h_collection, path: h_path, value: h_value }
                    && *h_collection == collection && *h_path == path && *h_value == value)
            },
            document::DocumentOp::EstimateCount { collection } => {
                r is Ok && (r->Ok_0 matches document::DocumentHandler::EstimateCount {
                    collection: h_collection } && *h_collection == collection)
            },
            document::DocumentOp::PointPut { collection, document_id, value } => {
                r is Ok && (r->Ok_0 matches document::DocumentHandler::PointPut {
                    collection: h_collection, document_id: h_document_id, value: h_value }
                    && *h_collection == collection && *h_document_id == document_id
                    && *h_value == value)
            },
            document::DocumentOp::PointInsert { collection, document_id, value, if_absent } => {
                r is Ok && (r->Ok_0 matches document::DocumentHandler::PointInsert {
                    collection: h_collection, document_id: h_document_id, value: h_value,
                    if_absent: h_if_absent } && *h_collection == collection
                    && *h_document_id == document_id && *h_value == value
                    && h_if_absent == if_absent)
            },
            document::DocumentOp::PointUpdate { collection, document_id, updates } => {
                r is Ok && (r->Ok_0 matches document::DocumentHandler::PointUpdate {
                    collection: h_collection, document_id: h_document_id, updates: h_updates }
                    && *h_collection == collection && *h_document_id == document_id
                    && *h_updates == updates)
            },
            document::DocumentOp::PointDelete { collection, document_id } => {
                r is Ok && (r->Ok_0 matches document::DocumentHandler::PointDelete {
                    collection: h_collection, document_id: h_document_id }
                    && *h_collection == collection && *h_document_id == document_id)
            },
            document::DocumentOp::BatchInsert { collection, documents } => {
                r is Ok && (r->Ok_0 matches document::DocumentHandler::BatchInsert {
                    collection: h_collection, documents: h_documents }
                    && *h_collection == collection && *h_documents == documents)
            },
            document::DocumentOp::Upsert { collection, document_id, value,
                on_conflict_updates } => {
                r is Ok && (r->Ok_0 matches document::DocumentHandler::Upsert {
                    collection: h_collection, document_id: h_document_id, value: h_value,
                    on_conflict_updates: h_on_conflict_updates } && *h_collection == collection
                    && *h_document_id == document_id && *h_value == value
                    && *h_on_conflict_updates == on_conflict_updates)
            },
            document::DocumentOp::Truncate { collection } => {
                r is Ok && (r->Ok_0 matches document::DocumentHandler::Truncate {
                    collection: h_collection } && *h_collection == collection)
            },
            document::DocumentOp::BulkUpdate { collection, updates } => {
                r is Ok && (r->Ok_0 matches document::DocumentHandler::BulkUpdate {
                    collection: h_collection, updates: h_updates }
                    && *h_collection == collection && *h_updates == updates)
            },
            document::DocumentOp::BulkDelete { collection } => {
                r is Ok && (r->Ok_0 matches document::DocumentHandler::BulkDelete {
                    collection: h_collection } && *h_collection == collection)
            },
            document::DocumentOp::Register { collection, storage_mode } => {
                r is Ok && (r->Ok_0 matches document::DocumentHandler::Register {
                    collection: h_collection, storage_mode: h_storage_mode }
                    && *h_collection == collection && *h_storage_mode == storage_mode)
            },
            document::DocumentOp::DropIndex { collection, field } => {
                r is Ok && (r->Ok_0 matches document::DocumentHandler::DropIndex {
                    collection: h_collection, field: h_field } && *h_collection == collection
                    && *h_field == field)
            },
            document::DocumentOp::BackfillIndex { collection, path } => {
                r is Ok && (r->Ok_0 matches document::DocumentHandler::BackfillIndex {
                    collection: h_collection, path: h_path } && *h_collection == collection
                    && *h_path == path)
            },
            document::DocumentOp::InsertSelect { target_collection, source_collection,
                source_limit } => {
                r is Ok && (r->Ok_0 matches document::DocumentHandler::InsertSelect {
                    target_collection: h_target_collection, source_collection: h_source_collection,
                    source_limit: h_source_limit } && *h_target_collection == target_collection
                    && *h_source_collection == source_collection && h_source_limit == source_limit)
            },
            document::DocumentOp::UpdateFromJoin { target_collection, source_collection,
                source_alias, target_join_col, source_join_col, updates } => {
                r is Ok && (r->Ok_0 matches document::DocumentHandler::UpdateFromJoin {
                    target_collection: h_target_collection, source_collection: h_source_collection,
                    source_alias: h_source_alias, target_join_col: h_target_join_col,
                    source_join_col: h_source_join_col, updates: h_updates }
                    && *h_target_collection == target_collection
                    && *h_source_collection == source_collection
                    && *h_source_alias == source_alias && *h_target_join_col == target_join_col
                    && *h_source_join_col == source_join_col && *h_updates == updates)
            },
            document::DocumentOp::Merge { target_collection, source_collection, source_alias,
                target_join_col, source_join_col, clauses } => {
                r is Ok && (r->Ok_0 matches document::DocumentHandler::Merge {
                    target_collection: h_target_collection, source_collection: h_source_collection,
                    source_alias: h_source_alias, target_join_col: h_target_join_col,
                    source_join_col: h_source_join_col, clauses: h_clauses }
                    && *h_target_collection == target_collection
                    && *h_source_collection == source_collection
                    && *h_source_alias == source_alias && *h_target_join_col == target_join_col
                    && *h_source_join_col == source_join_col && *h_clauses == clauses)
            },
            document::DocumentOp::MaterializeScan { collection, cursor, count } => {
                r is Ok && (r->Ok_0 matches document::DocumentHandler::MaterializeScan {
                    collection: h_collection, cursor: h_cursor, count: h_count }
                    && *h_collection == collection && *h_cursor == cursor && h_count == count)
            },
            document::DocumentOp::ApplyBalanceDelta { .. } => {
                r is Err
            },
            document::DocumentOp::ResolveWrite => {
                r is Err
            },
            document::DocumentOp::ResolvedWrite => {
                r is Err
            },
        },
{
    lemma_verdicts();
}

/// An operation that is not refused goes to the handler of its name, with its own
/// arguments. One that carries a policy, or asks for rows back, is refused.
pub proof fn graph_operations_go_to_their_handlers<'a>(op: &'a graph::GraphOp,
    r: Result<graph::GraphHandler<'a>, LiteError>,
)
    requires
        call_ensures(graph::dispatch, (op,), r),
    ensures
        match *op {
            graph::GraphOp::EdgePut { .. } => {
                r is Ok && (r->Ok_0 is EdgePut)
            },
            graph::GraphOp::EdgePutBatch { .. } => {
                r is Ok && (r->Ok_0 is EdgePutBatch)
            },
            graph::GraphOp::EdgeDelete { rls_write_check, .. } => {
                (r is Ok <==> decided(rls_write_check)) && (r is Ok ==> (r->Ok_0 is EdgeDelete))
            },
            graph::GraphOp::EdgeDeleteBatch { .. } => {
                r is Ok && (r->Ok_0 is EdgeDeleteBatch)
            },
            graph::GraphOp::Hop { start_nodes, edge_label, direction, depth, options,
                frontier_bitmap, rls_filters } => {
                (r is Ok <==> rls_filters@.len() == 0) && (r is Ok ==> (
                    r->Ok_0 matches graph::GraphHandler::Hop { start_nodes: h_start_nodes,
                    edge_label: h_edge_label, direction: h_direction, depth: h_depth,
                    options: h_options, frontier_bitmap: h_frontier_bitmap }
                    && *h_start_nodes == start_nodes && *h_edge_label == edge_label
                    && h_direction == direction && h_depth == depth && *h_options == options
                    && *h_frontier_bitmap == frontier_bitmap))
            },
            graph::GraphOp::Neighbors { node_id, edge_label, direction, rls_filters } => {
                (r is Ok <==> rls_filters@.len() == 0) && (r is Ok ==> (
                    r->Ok_0 matches graph::GraphHandler::Neighbors { node_id: h_node_id,
                    edge_label: h_edge_label, direction: h_direction } && *h_node_id == node_id
                    && *h_edge_label == edge_label && h_direction == direction))
            },
            graph::GraphOp::NeighborsMulti { node_ids, edge_label, direction, max_results,
                rls_filters } => {
                (r is Ok <==> rls_filters@.len() == 0) && (r is Ok ==> (
                    r->Ok_0 matches graph::GraphHandler::NeighborsMulti { node_ids: h_node_ids,
                    edge_label: h_edge_label, direction: h_direction,
                    max_results: h_max_results } && *h_node_ids == node_ids
                    && *h_edge_label == edge_label && h_direction == direction
                    && h_max_results == max_results))
            },
            graph::GraphOp::Path { src, dst, edge_label, max_depth, options, frontier_bitmap,
                rls_filters } => {
                (r is Ok <==> rls_filters@.len() == 0) && (r is Ok ==> (
                    r->Ok_0 matches graph::GraphHandler::Path { src: h_src, dst: h_dst,
                    edge_label: h_edge_label, max_depth: h_max_depth, options: h_options,
                    frontier_bitmap: h_frontier_bitmap } && *h_src == src && *h_dst == dst
                    && *h_edge_label == edge_label && h_max_depth == max_depth
                    && *h_options == options && *h_frontier_bitmap == frontier_bitmap))
            },
            graph::GraphOp::Subgraph { start_nodes, edge_label, depth, options, rls_filters } => {
                (r is Ok <==> rls_filters@.len() == 0) && (r is Ok ==> (
                    r->Ok_0 matches graph::GraphHandler::Subgraph { start_nodes: h_start_nodes,
                    edge_label: h_edge_label, depth: h_depth, options: h_options }
                    && *h_start_nodes == start_nodes && *h_edge_label == edge_label
                    && h_depth == depth && *h_options == options))
            },
            graph::GraphOp::Algo { algorithm, params } => {
                r is Ok && (r->Ok_0 matches graph::GraphHandler::Algo { algorithm: h_algorithm,
                    params: h_params } && *h_algorithm == algorithm && *h_params == params)
            },
            graph::GraphOp::SetNodeLabels { node_id, labels } => {
                r is Ok && (r->Ok_0 matches graph::GraphHandler::SetNodeLabels {
                    node_id: h_node_id, labels: h_labels } && *h_node_id == node_id
                    && *h_labels == labels)
            },
            graph::GraphOp::RemoveNodeLabels { node_id, labels } => {
                r is Ok && (r->Ok_0 matches graph::GraphHandler::RemoveNodeLabels {
                    node_id: h_node_id, labels: h_labels } && *h_node_id == node_id
                    && *h_labels == labels)
            },
            graph::GraphOp::TemporalNeighbors { collection, node_id, edge_label, direction,
                system_time, valid_at_ms, rls_filters } => {
                (r is Ok <==> system_time != SystemTimeScope::AllVersions && rls_filters@.len() == 0) && (r is Ok ==> (
                    r->Ok_0 matches graph::GraphHandler::TemporalNeighbors {
                    collection: h_collection, node_id: h_node_id, edge_label: h_edge_label,
                    direction: h_direction, valid_at_ms: h_valid_at_ms,
                    system_as_of_ms: h_system_as_of_ms } && *h_collection == collection
                    && *h_node_id == node_id && *h_edge_label == edge_label
                    && h_direction == direction && h_valid_at_ms == valid_at_ms
                    && h_system_as_of_ms == narrowed(system_time)))
            },
            graph::GraphOp::TemporalAlgorithm { algorithm, params, system_time } => {
                (r is Ok <==> system_time != SystemTimeScope::AllVersions) && (r is Ok ==> (
                    r->Ok_0 matches graph::GraphHandler::TemporalAlgorithm {
                    algorithm: h_algorithm, params: h_params,
                    system_as_of_ms: h_system_as_of_ms } && *h_algorithm == algorithm
                    && *h_params == params && h_system_as_of_ms == narrowed(system_time)))
            },
            graph::GraphOp::Stats { collection, as_of } => {
                r is Ok && (r->Ok_0 matches graph::GraphHandler::Stats { collection: h_collection,
                    as_of: h_as_of } && *h_collection == collection && h_as_of == as_of)
            },
            graph::GraphOp::RagFusion { collection, query_vector, vector_top_k, edge_label,
                direction, expansion_depth, final_top_k, rrf_k, rrf_k_triple, vector_field,
                bm25_query, bm25_field } => {
                r is Ok && (r->Ok_0 matches graph::GraphHandler::RagFusion {
                    collection: h_collection, query_vector: h_query_vector,
                    vector_top_k: h_vector_top_k, edge_label: h_edge_label, direction: h_direction,
                    expansion_depth: h_expansion_depth, final_top_k: h_final_top_k, rrf_k: h_rrf_k,
                    rrf_k_triple: h_rrf_k_triple, vector_field: h_vector_field,
                    bm25_query: h_bm25_query, bm25_field: h_bm25_field }
                    && *h_collection == collection && *h_query_vector == query_vector
                    && h_vector_top_k == vector_top_k && *h_edge_label == edge_label
                    && h_direction == direction && h_expansion_depth == expansion_depth
                    && h_final_top_k == final_top_k && *h_rrf_k == rrf_k
                    && *h_rrf_k_triple == rrf_k_triple && *h_vector_field == vector_field
                    && *h_bm25_query == bm25_query && *h_bm25_field == bm25_field)
            },
            graph::GraphOp::MatchContinuation => {
                r is Err
            },
            graph::GraphOp::MatchVarLenResume => {
                r is Err
            },
            graph::GraphOp::BspSuperstep => {
                r is Err
            },
            graph::GraphOp::WccSuperstep => {
                r is Err
            },
            graph::GraphOp::Match { query, frontier_bitmap } => {
                r is Ok && (r->Ok_0 matches graph::GraphHandler::Match { query: h_query,
                    frontier_bitmap: h_frontier_bitmap } && *h_query == query
                    && *h_frontier_bitmap == frontier_bitmap)
            },
            graph::GraphOp::ResolveEdgeDelete => {
                r is Err
            },
        },
{
    lemma_verdicts();
}

/// An operation that is not refused goes to the handler of its name, with its own
/// arguments. One that carries a policy, or asks for rows back, is refused.
pub proof fn kv_operations_go_to_their_handlers<'a>(op: &'a kv::KvOp, r: Result<kv::KvHandler<'a>,
    LiteError>,
)
    requires
        call_ensures(kv::dispatch, (op,), r),
    ensures
        match *op {
            kv::KvOp::Get { collection, key, rls_filters, surrogate_ceiling } => {
                (r is Ok <==> rls_filters@.len() == 0) && (r is Ok ==> (
                    r->Ok_0 matches kv::KvHandler::Get { collection: h_collection, key: h_key,
                    surrogate_ceiling: h_surrogate_ceiling } && *h_collection == collection
                    && *h_key == key && h_surrogate_ceiling == surrogate_ceiling))
            },
            kv::KvOp::Scan { collection, cursor, count, match_pattern, surrogate_ceiling } => {
                r is Ok && (r->Ok_0 matches kv::KvHandler::Scan { collection: h_collection,
                    cursor: h_cursor, count: h_count, match_pattern: h_match_pattern,
                    surrogate_ceiling: h_surrogate_ceiling } && *h_collection == collection
                    && *h_cursor == cursor && h_count == count
                    && *h_match_pattern == match_pattern
                    && h_surrogate_ceiling == surrogate_ceiling)
            },
            kv::KvOp::GetTtl { collection, key } => {
                r is Ok && (r->Ok_0 matches kv::KvHandler::GetTtl { collection: h_collection,
                    key: h_key } && *h_collection == collection && *h_key == key)
            },
            kv::KvOp::BatchGet { collection, keys, rls_filters } => {
                (r is Ok <==> rls_filters@.len() == 0) && (r is Ok ==> (
                    r->Ok_0 matches kv::KvHandler::BatchGet { collection: h_collection,
                    keys: h_keys } && *h_collection == collection && *h_keys == keys))
            },
            kv::KvOp::FieldGet { collection, key, fields, rls_filters } => {
                (r is Ok <==> rls_filters@.len() == 0) && (r is Ok ==> (
                    r->Ok_0 matches kv::KvHandler::FieldGet { collection: h_collection, key: h_key,
                    fields: h_fields } && *h_collection == collection && *h_key == key
                    && *h_fields == fields))
            },
            kv::KvOp::MaterializeScan { collection, cursor, count } => {
                r is Ok && (r->Ok_0 matches kv::KvHandler::MaterializeScan {
                    collection: h_collection, cursor: h_cursor, count: h_count }
                    && *h_collection == collection && *h_cursor == cursor && h_count == count)
            },
            kv::KvOp::Put { returning, rls_filters, .. } => {
                (r is Ok <==> !returning && rls_filters@.len() == 0) && (r is Ok ==> (
                    r->Ok_0 is Put))
            },
            kv::KvOp::Insert { returning, rls_filters, .. } => {
                (r is Ok <==> !returning && rls_filters@.len() == 0) && (r is Ok ==> (
                    r->Ok_0 is Insert))
            },
            kv::KvOp::InsertIfAbsent { returning, rls_filters, .. } => {
                (r is Ok <==> !returning && rls_filters@.len() == 0) && (r is Ok ==> (
                    r->Ok_0 is InsertIfAbsent))
            },
            kv::KvOp::InsertOnConflictUpdate { rls_write_check, returning, rls_filters, .. } => {
                (r is Ok <==> decided(rls_write_check) && !returning && rls_filters@.len() == 0)
                    && (r is Ok ==> (r->Ok_0 is InsertOnConflictUpdate))
            },
            kv::KvOp::Delete { rls_write_check, returning, rls_filters, .. } => {
                (r is Ok <==> decided(rls_write_check) && !returning && rls_filters@.len() == 0)
                    && (r is Ok ==> (r->Ok_0 is Delete))
            },
            kv::KvOp::BatchPut { returning, rls_filters, .. } => {
                (r is Ok <==> !returning && rls_filters@.len() == 0) && (r is Ok ==> (
                    r->Ok_0 is BatchPut))
            },
            kv::KvOp::Expire { rls_write_check, .. } => {
                (r is Ok <==> decided(rls_write_check)) && (r is Ok ==> (r->Ok_0 is Expire))
            },
            kv::KvOp::Persist { rls_write_check, .. } => {
                (r is Ok <==> decided(rls_write_check)) && (r is Ok ==> (r->Ok_0 is Persist))
            },
            kv::KvOp::Truncate { .. } => {
                r is Ok && (r->Ok_0 is Truncate)
            },
            kv::KvOp::Incr { rls_write_check, .. } => {
                (r is Ok <==> decided(rls_write_check)) && (r is Ok ==> (r->Ok_0 is Incr))
            },
            kv::KvOp::IncrFloat { collection, key, rls_write_check } => {
                (r is Ok <==> decided(rls_write_check)) && (r is Ok ==> (
                    r->Ok_0 matches kv::KvHandler::IncrFloat { collection: h_collection,
                    key: h_key } && *h_collection == collection && *h_key == key))
            },
            kv::KvOp::Cas { rls_write_check, .. } => {
                (r is Ok <==> decided(rls_write_check)) && (r is Ok ==> (r->Ok_0 is Cas))
            },
            kv::KvOp::GetSet { rls_filters, rls_write_check, .. } => {
                (r is Ok <==> rls_filters@.len() == 0 && decided(rls_write_check)) && (r is Ok ==> (
                    r->Ok_0 is GetSet))
            },
            kv::KvOp::FieldSet { rls_write_check, returning, rls_filters, .. } => {
                (r is Ok <==> decided(rls_write_check) && !returning && rls_filters@.len() == 0)
                    && (r is Ok ==> (r->Ok_0 is FieldSet))
            },
            kv::KvOp::Transfer { collection, source_key, dest_key, field, rls_write_check } => {
                (r is Ok <==> decided(rls_write_check)) && (r is Ok ==> (
                    r->Ok_0 matches kv::KvHandler::Transfer { collection: h_collection,
                    source_key: h_source_key, dest_key: h_dest_key, field: h_field }
                    && *h_collection == collection && *h_source_key == source_key
                    && *h_dest_key == dest_key && *h_field == field))
            },
            kv::KvOp::TransferItem { source_rls_write_check, dest_rls_write_check, .. } => {
                (r is Ok <==> decided(source_rls_write_check) && decided(dest_rls_write_check)) && (
                    r is Ok ==> (r->Ok_0 is TransferItem))
            },
            kv::KvOp::RegisterIndex { collection, field, backfill } => {
                r is Ok && (r->Ok_0 matches kv::KvHandler::RegisterIndex {
                    collection: h_collection, field: h_field, backfill: h_backfill }
                    && *h_collection == collection && *h_field == field && h_backfill == backfill)
            },
            kv::KvOp::DropIndex { collection, field } => {
                r is Ok && (r->Ok_0 matches kv::KvHandler::DropIndex { collection: h_collection,
                    field: h_field } && *h_collection == collection && *h_field == field)
            },
            kv::KvOp::RegisterSortedIndex { index_name, window_type, window_timestamp_column,
                window_start_ms, window_end_ms } => {
                r is Ok && (r->Ok_0 matches kv::KvHandler::RegisterSortedIndex {
                    index_name: h_index_name, window_type: h_window_type,
                    window_timestamp_column: h_window_timestamp_column,
                    window_start_ms: h_window_start_ms, window_end_ms: h_window_end_ms }
                    && *h_index_name == index_name && *h_window_type == window_type
                    && *h_window_timestamp_column == window_timestamp_column
                    && h_window_start_ms == window_start_ms && h_window_end_ms == window_end_ms)
            },
            kv::KvOp::DropSortedIndex { index_name } => {
                r is Ok && (r->Ok_0 matches kv::KvHandler::DropSortedIndex {
                    index_name: h_index_name } && *h_index_name == index_name)
            },
            kv::KvOp::SortedIndexRank { index_name, primary_key } => {
                r is Ok && (r->Ok_0 matches kv::KvHandler::SortedIndexRank {
                    index_name: h_index_name, primary_key: h_primary_key }
                    && *h_index_name == index_name && *h_primary_key == primary_key)
            },
            kv::KvOp::SortedIndexTopK { index_name, k } => {
                r is Ok && (r->Ok_0 matches kv::KvHandler::SortedIndexTopK {
                    index_name: h_index_name, k: h_k } && *h_index_name == index_name && h_k == k)
            },
            kv::KvOp::SortedIndexRange { index_name, score_min, score_max } => {
                r is Ok && (r->Ok_0 matches kv::KvHandler::SortedIndexRange {
                    index_name: h_index_name, score_min: h_score_min, score_max: h_score_max }
                    && *h_index_name == index_name && *h_score_min == score_min
                    && *h_score_max == score_max)
            },
            kv::KvOp::SortedIndexCount { index_name } => {
                r is Ok && (r->Ok_0 matches kv::KvHandler::SortedIndexCount {
                    index_name: h_index_name } && *h_index_name == index_name)
            },
            kv::KvOp::SortedIndexScore { index_name, primary_key } => {
                r is Ok && (r->Ok_0 matches kv::KvHandler::SortedIndexScore {
                    index_name: h_index_name, primary_key: h_primary_key }
                    && *h_index_name == index_name && *h_primary_key == primary_key)
            },
            kv::KvOp::ResolveWrite => {
                r is Err
            },
            kv::KvOp::ResolvedWrite => {
                r is Err
            },
            kv::KvOp::PredicateUpdate { .. } => {
                r is Err
            },
            kv::KvOp::PredicateDelete { .. } => {
                r is Err
            },
        },
{
    lemma_verdicts();
}

/// An operation that is not refused goes to the handler of its name, with its own
/// arguments. One that carries a policy, or asks for rows back, is refused.
pub proof fn meta_operations_go_to_their_handlers<'a>(op: &'a meta::MetaOp,
    r: Result<meta::MetaHandler<'a>, LiteError>,
)
    requires
        call_ensures(meta::dispatch, (op,), r),
    ensures
        match *op {
            meta::MetaOp::CreateSnapshot => {
                r is Ok && (r->Ok_0 is CreateSnapshot)
            },
            meta::MetaOp::Compact => {
                r is Ok && (r->Ok_0 is Compact)
            },
            meta::MetaOp::Checkpoint => {
                r is Ok && (r->Ok_0 is Checkpoint)
            },
            meta::MetaOp::UnregisterCollection { tenant_id, name, purge_lsn } => {
                r is Ok && (r->Ok_0 matches meta::MetaHandler::UnregisterCollection {
                    tenant_id: h_tenant_id, name: h_name, purge_lsn: h_purge_lsn }
                    && h_tenant_id == tenant_id && *h_name == name && h_purge_lsn == purge_lsn)
            },
            meta::MetaOp::UnregisterMaterializedView { tenant_id, name } => {
                r is Ok && (r->Ok_0 matches meta::MetaHandler::UnregisterMaterializedView {
                    tenant_id: h_tenant_id, name: h_name } && h_tenant_id == tenant_id
                    && *h_name == name)
            },
            meta::MetaOp::RenameCollection { tenant_id, old_collection, new_collection } => {
                r is Ok && (r->Ok_0 matches meta::MetaHandler::RenameCollection {
                    tenant_id: h_tenant_id, old_collection: h_old_collection,
                    new_collection: h_new_collection } && h_tenant_id == tenant_id
                    && *h_old_collection == old_collection && *h_new_collection == new_collection)
            },
            meta::MetaOp::ConvertCollection { collection, target_type, schema_json } => {
                r is Ok && (r->Ok_0 matches meta::MetaHandler::ConvertCollection {
                    collection: h_collection, target_type: h_target_type,
                    schema_json: h_schema_json } && *h_collection == collection
                    && *h_target_type == target_type && *h_schema_json == schema_json)
            },
            meta::MetaOp::RegisterContinuousAggregate { def } => {
                r is Ok && (r->Ok_0 matches meta::MetaHandler::RegisterContinuousAggregate {
                    def: h_def } && *h_def == def)
            },
            meta::MetaOp::UnregisterContinuousAggregate { name } => {
                r is Ok && (r->Ok_0 matches meta::MetaHandler::UnregisterContinuousAggregate {
                    name: h_name } && *h_name == name)
            },
            meta::MetaOp::ListContinuousAggregates => {
                r is Ok && (r->Ok_0 is ListContinuousAggregates)
            },
            meta::MetaOp::ApplyContinuousAggRetention => {
                r is Ok && (r->Ok_0 is ApplyContinuousAggRetention)
            },
            meta::MetaOp::QueryAggregateWatermark { aggregate_name } => {
                r is Ok && (r->Ok_0 matches meta::MetaHandler::QueryAggregateWatermark {
                    aggregate_name: h_aggregate_name } && *h_aggregate_name == aggregate_name)
            },
            meta::MetaOp::QueryLastValues { collection } => {
                r is Ok && (r->Ok_0 matches meta::MetaHandler::QueryLastValues {
                    collection: h_collection } && *h_collection == collection)
            },
            meta::MetaOp::QueryLastValue { collection, series_id } => {
                r is Ok && (r->Ok_0 matches meta::MetaHandler::QueryLastValue {
                    collection: h_collection, series_id: h_series_id }
                    && *h_collection == collection && h_series_id == series_id)
            },
            meta::MetaOp::TemporalPurgeEdgeStore { tenant_id, collection, cutoff_system_ms } => {
                r is Ok && (r->Ok_0 matches meta::MetaHandler::TemporalPurgeEdgeStore {
                    tenant_id: h_tenant_id, collection: h_collection,
                    cutoff_system_ms: h_cutoff_system_ms } && h_tenant_id == tenant_id
                    && *h_collection == collection && h_cutoff_system_ms == cutoff_system_ms)
            },
            meta::MetaOp::TemporalPurgeDocumentStrict { tenant_id, collection,
                cutoff_system_ms } => {
                r is Ok && (r->Ok_0 matches meta::MetaHandler::TemporalPurgeDocumentStrict {
                    tenant_id: h_tenant_id, collection: h_collection,
                    cutoff_system_ms: h_cutoff_system_ms } && h_tenant_id == tenant_id
                    && *h_collection == collection && h_cutoff_system_ms == cutoff_system_ms)
            },
            meta::MetaOp::TemporalPurgeColumnar { tenant_id, collection, cutoff_system_ms } => {
                r is Ok && (r->Ok_0 matches meta::MetaHandler::TemporalPurgeColumnar {
                    tenant_id: h_tenant_id, collection: h_collection,
                    cutoff_system_ms: h_cutoff_system_ms } && h_tenant_id == tenant_id
                    && *h_collection == collection && h_cutoff_system_ms == cutoff_system_ms)
            },
            meta::MetaOp::TemporalPurgeCrdt { tenant_id, collection, cutoff_system_ms } => {
                r is Ok && (r->Ok_0 matches meta::MetaHandler::TemporalPurgeCrdt {
                    tenant_id: h_tenant_id, collection: h_collection,
                    cutoff_system_ms: h_cutoff_system_ms } && h_tenant_id == tenant_id
                    && *h_collection == collection && h_cutoff_system_ms == cutoff_system_ms)
            },
            meta::MetaOp::TemporalPurgeArray { tenant_id, array_id, cutoff_system_ms } => {
                r is Ok && (r->Ok_0 matches meta::MetaHandler::TemporalPurgeArray {
                    tenant_id: h_tenant_id, array_id: h_array_id,
                    cutoff_system_ms: h_cutoff_system_ms } && h_tenant_id == tenant_id
                    && *h_array_id == array_id && h_cutoff_system_ms == cutoff_system_ms)
            },
            meta::MetaOp::EnforceTimeseriesRetention { collection, max_age_ms } => {
                r is Ok && (r->Ok_0 matches meta::MetaHandler::EnforceTimeseriesRetention {
                    collection: h_collection, max_age_ms: h_max_age_ms }
                    && *h_collection == collection && h_max_age_ms == max_age_ms)
            },
            meta::MetaOp::AlterArray { array_id, audit_retain_ms, minimum_audit_retain_ms } => {
                r is Ok && (r->Ok_0 matches meta::MetaHandler::AlterArray { array_id: h_array_id,
                    audit_retain_ms: h_audit_retain_ms,
                    minimum_audit_retain_ms: h_minimum_audit_retain_ms }
                    && *h_array_id == array_id && h_audit_retain_ms == audit_retain_ms
                    && h_minimum_audit_retain_ms == minimum_audit_retain_ms)
            },
            meta::MetaOp::PutSynonymGroup { tenant_id, record_json } => {
                r is Ok && (r->Ok_0 matches meta::MetaHandler::PutSynonymGroup {
                    tenant_id: h_tenant_id, record_json: h_record_json }
                    && h_tenant_id == tenant_id && *h_record_json == record_json)
            },
            meta::MetaOp::DeleteSynonymGroup { tenant_id, name } => {
                r is Ok && (r->Ok_0 matches meta::MetaHandler::DeleteSynonymGroup {
                    tenant_id: h_tenant_id, name: h_name } && h_tenant_id == tenant_id
                    && *h_name == name)
            },
            meta::MetaOp::RebuildIndex { collection, index_name, concurrent } => {
                r is Ok && (r->Ok_0 matches meta::MetaHandler::RebuildIndex {
                    collection: h_collection, index_name: h_index_name,
                    concurrent: h_concurrent } && *h_collection == collection
                    && *h_index_name == index_name && h_concurrent == concurrent)
            },
            meta::MetaOp::QueryCollectionSize { tenant_id, name } => {
                r is Ok && (r->Ok_0 matches meta::MetaHandler::QueryCollectionSize {
                    tenant_id: h_tenant_id, name: h_name } && h_tenant_id == tenant_id
                    && *h_name == name)
            },
            meta::MetaOp::WalAppend { payload } => {
                r is Ok && (r->Ok_0 matches meta::MetaHandler::WalAppend { payload: h_payload }
                    && *h_payload == payload)
            },
            meta::MetaOp::Cancel { target_request_id } => {
                r is Ok && (r->Ok_0 matches meta::MetaHandler::Cancel {
                    target_request_id: h_target_request_id }
                    && h_target_request_id == target_request_id)
            },
            meta::MetaOp::TransactionBatch { plans } => {
                r is Ok && (r->Ok_0 matches meta::MetaHandler::TransactionBatch {
                    plans: h_plans } && *h_plans == plans)
            },
            meta::MetaOp::CalvinExecuteStatic { plans } => {
                r is Ok && (r->Ok_0 matches meta::MetaHandler::CalvinExecuteStatic {
                    plans: h_plans } && *h_plans == plans)
            },
            meta::MetaOp::CalvinExecutePassive => {
                r is Ok && (r->Ok_0 is CalvinExecutePassive)
            },
            meta::MetaOp::CalvinExecuteActive { plans } => {
                r is Ok && (r->Ok_0 matches meta::MetaHandler::CalvinExecuteActive {
                    plans: h_plans } && *h_plans == plans)
            },
            meta::MetaOp::CreateTenantSnapshot { tenant_id } => {
                r is Ok && (r->Ok_0 matches meta::MetaHandler::CreateTenantSnapshot {
                    tenant_id: h_tenant_id } && h_tenant_id == tenant_id)
            },
            meta::MetaOp::RestoreTenantSnapshot { tenant_id, snapshot } => {
                r is Ok && (r->Ok_0 matches meta::MetaHandler::RestoreTenantSnapshot {
                    tenant_id: h_tenant_id, snapshot: h_snapshot } && h_tenant_id == tenant_id
                    && *h_snapshot == snapshot)
            },
            meta::MetaOp::PurgeTenant { tenant_id } => {
                r is Ok && (r->Ok_0 matches meta::MetaHandler::PurgeTenant {
                    tenant_id: h_tenant_id } && h_tenant_id == tenant_id)
            },
            meta::MetaOp::StageWrite => {
                r is Err
            },
            meta::MetaOp::DropTxnOverlay => {
                r is Err
            },
            meta::MetaOp::MarkSavepoint => {
                r is Err
            },
            meta::MetaOp::RollbackToSavepoint => {
                r is Err
            },
            meta::MetaOp::ResolveTxn => {
                r is Err
            },
            meta::MetaOp::CalvinFlush => {
                r is Err
            },
            meta::MetaOp::CalvinResolve => {
                r is Err
            },
            meta::MetaOp::CalvinDrop => {
                r is Err
            },
            meta::MetaOp::RecordCalvinWriteVersions => {
                r is Err
            },
        },
{
    lemma_verdicts();
}

/// An operation that is not refused goes to the handler of its name, with its own
/// arguments. One that carries a policy, or asks for rows back, is refused.
pub proof fn query_operations_go_to_their_handlers<'a>(op: &'a query::QueryOp,
    r: Result<query::QueryHandler<'a>, LiteError>,
)
    requires
        call_ensures(query::dispatch, (op,), r),
    ensures
        match *op {
            query::QueryOp::Aggregate { collection, group_by, aggregates, filters, having,
                sort_keys, grouping_sets } => {
                r is Ok && (r->Ok_0 matches query::QueryHandler::Aggregate {
                    collection: h_collection, group_by: h_group_by, aggregates: h_aggregates,
                    filters: h_filters, having: h_having, sort_keys: h_sort_keys,
                    grouping_sets: h_grouping_sets } && *h_collection == collection
                    && *h_group_by == group_by && *h_aggregates == aggregates
                    && *h_filters == filters && *h_having == having && *h_sort_keys == sort_keys
                    && *h_grouping_sets == grouping_sets)
            },
            query::QueryOp::PartialAggregate { collection, group_by, aggregates, filters } => {
                r is Ok && (r->Ok_0 matches query::QueryHandler::PartialAggregate {
                    collection: h_collection, group_by: h_group_by, aggregates: h_aggregates,
                    filters: h_filters } && *h_collection == collection
                    && *h_group_by == group_by && *h_aggregates == aggregates
                    && *h_filters == filters)
            },
            query::QueryOp::PartialAggregateState => {
                r is Err
            },
            query::QueryOp::HashJoin { left_collection, right_collection, left_alias, right_alias,
                on, join_type, limit, post_group_by, post_aggregates, projection, post_filters,
                left_rls_filters, right_rls_filters } => {
                (r is Ok <==> left_rls_filters@.len() == 0 && right_rls_filters@.len() == 0) && (
                    r is Ok ==> (r->Ok_0 matches query::QueryHandler::HashJoin {
                    left_collection: h_left_collection, right_collection: h_right_collection,
                    left_alias: h_left_alias, right_alias: h_right_alias, on: h_on,
                    join_type: h_join_type, limit: h_limit, post_group_by: h_post_group_by,
                    post_aggregates: h_post_aggregates, projection: h_projection,
                    post_filters: h_post_filters } && *h_left_collection == left_collection
                    && *h_right_collection == right_collection && *h_left_alias == left_alias
                    && *h_right_alias == right_alias && *h_on == on && *h_join_type == join_type
                    && h_limit == limit && *h_post_group_by == post_group_by
                    && *h_post_aggregates == post_aggregates && *h_projection == projection
                    && *h_post_filters == post_filters))
            },
            query::QueryOp::Exchange => {
                r is Err
            },
            query::QueryOp::ProviderScan => {
                r is Err
            },
            query::QueryOp::PostProcess => {
                r is Err
            },
            query::QueryOp::ShuffleJoinConsume => {
                r is Err
            },
            query::QueryOp::ShuffleAggregateConsume => {
                r is Err
            },
            query::QueryOp::NestedLoopJoin { left_rls_filters, right_rls_filters, .. } => {
                (r is Ok <==> left_rls_filters@.len() == 0 && right_rls_filters@.len() == 0) && (
                    r is Ok ==> (r->Ok_0 is NestedLoopJoin))
            },
            query::QueryOp::SortMergeJoin { left_collection, right_collection, on, join_type,
                limit, pre_sorted, left_rls_filters, right_rls_filters } => {
                (r is Ok <==> left_rls_filters@.len() == 0 && right_rls_filters@.len() == 0) && (
                    r is Ok ==> (r->Ok_0 matches query::QueryHandler::SortMergeJoin {
                    left_collection: h_left_collection, right_collection: h_right_collection,
                    on: h_on, join_type: h_join_type, limit: h_limit, pre_sorted: h_pre_sorted }
                    && *h_left_collection == left_collection
                    && *h_right_collection == right_collection && *h_on == on
                    && *h_join_type == join_type && h_limit == limit && h_pre_sorted == pre_sorted))
            },
            query::QueryOp::FacetCounts { collection, filters, fields, limit_per_facet } => {
                r is Ok && (r->Ok_0 matches query::QueryHandler::FacetCounts {
                    collection: h_collection, filters: h_filters, fields: h_fields,
                    limit_per_facet: h_limit_per_facet } && *h_collection == collection
                    && *h_filters == filters && *h_fields == fields
                    && h_limit_per_facet == limit_per_facet)
            },
            query::QueryOp::RecursiveScan { collection, base_filters, recursive_filters, join_link,
                max_iterations, distinct, limit } => {
                r is Ok && (r->Ok_0 matches query::QueryHandler::RecursiveScan {
                    collection: h_collection, base_filters: h_base_filters,
                    recursive_filters: h_recursive_filters, join_link: h_join_link,
                    max_iterations: h_max_iterations, distinct: h_distinct, limit: h_limit }
                    && *h_collection == collection && *h_base_filters == base_filters
                    && *h_recursive_filters == recursive_filters && *h_join_link == join_link
                    && h_max_iterations == max_iterations && h_distinct == distinct
                    && h_limit == limit)
            },
            query::QueryOp::RecursiveValue { cte_name, columns, init_exprs, step_exprs, condition,
                max_depth, distinct } => {
                r is Ok && (r->Ok_0 matches query::QueryHandler::RecursiveValue {
                    cte_name: h_cte_name, columns: h_columns, init_exprs: h_init_exprs,
                    step_exprs: h_step_exprs, condition: h_condition, max_depth: h_max_depth,
                    distinct: h_distinct } && *h_cte_name == cte_name && *h_columns == columns
                    && *h_init_exprs == init_exprs && *h_step_exprs == step_exprs
                    && *h_condition == condition && h_max_depth == max_depth
                    && h_distinct == distinct)
            },
            query::QueryOp::LateralTopK { .. } => {
                r is Ok && (r->Ok_0 is LateralTopK)
            },
            query::QueryOp::LateralLoop { .. } => {
                r is Ok && (r->Ok_0 is LateralLoop)
            },
        },
{
    lemma_verdicts();
}

/// An operation that is not refused goes to the handler of its name, with its own
/// arguments. One that carries a policy, or asks for rows back, is refused.
pub proof fn spatial_operations_go_to_their_handlers<'a>(op: &'a spatial::SpatialOp,
    r: spatial::SpatialHandler<'a>)
    requires
        call_ensures(spatial::dispatch, (op,), r),
    ensures
        match *op {
            spatial::SpatialOp::Insert { collection, field, surrogate, geometry } => {
                (r matches spatial::SpatialHandler::Insert { collection: h_collection,
                    field: h_field, surrogate: h_surrogate, geometry: h_geometry }
                    && *h_collection == collection && *h_field == field
                    && h_surrogate == surrogate && *h_geometry == geometry)
            },
            spatial::SpatialOp::Delete { collection, field, surrogate } => {
                (r matches spatial::SpatialHandler::Delete { collection: h_collection,
                    field: h_field, surrogate: h_surrogate } && *h_collection == collection
                    && *h_field == field && h_surrogate == surrogate)
            },
            spatial::SpatialOp::Scan { collection, field, predicate, query_geometry,
                distance_meters, attribute_filters, limit, projection, rls_filters, prefilter } => {
                (r matches spatial::SpatialHandler::Scan { collection: h_collection,
                    field: h_field, predicate: h_predicate, query_geometry: h_query_geometry,
                    distance_meters: h_distance_meters, attribute_filters: h_attribute_filters,
                    limit: h_limit, projection: h_projection, rls_filters: h_rls_filters,
                    prefilter: h_prefilter } && *h_collection == collection && *h_field == field
                    && h_predicate == predicate && *h_query_geometry == query_geometry
                    && *h_distance_meters == distance_meters
                    && *h_attribute_filters == attribute_filters && h_limit == limit
                    && *h_projection == projection && *h_rls_filters == rls_filters
                    && *h_prefilter == prefilter)
            },
        },
{
    lemma_verdicts();
}

/// An operation that is not refused goes to the handler of its name, with its own
/// arguments. One that carries a policy, or asks for rows back, is refused.
pub proof fn timeseries_operations_go_to_their_handlers<'a>(op: &'a timeseries::TimeseriesOp,
    r: Result<timeseries::TimeseriesHandler<'a>, LiteError>,
)
    requires
        call_ensures(timeseries::dispatch, (op,), r),
    ensures
        match *op {
            timeseries::TimeseriesOp::Scan { collection, time_range, projection, limit, filters,
                bucket_interval_ms, group_by, aggregates, gap_fill, computed_columns, rls_filters,
                system_time, valid_at_ms, sort_keys } => {
                (r is Ok <==> system_time != SystemTimeScope::AllVersions && sort_keys@.len() == 0) && (r is Ok ==> (r->Ok_0 matches timeseries::TimeseriesHandler::Scan {
                    collection: h_collection, time_range: h_time_range, projection: h_projection,
                    limit: h_limit, filters: h_filters, bucket_interval_ms: h_bucket_interval_ms,
                    group_by: h_group_by, aggregates: h_aggregates, gap_fill: h_gap_fill,
                    computed_columns: h_computed_columns, rls_filters: h_rls_filters,
                    valid_at_ms: h_valid_at_ms, system_as_of_ms: h_system_as_of_ms }
                    && *h_collection == collection && h_time_range == time_range
                    && *h_projection == projection && h_limit == limit && *h_filters == filters
                    && h_bucket_interval_ms == bucket_interval_ms && *h_group_by == group_by
                    && *h_aggregates == aggregates && *h_gap_fill == gap_fill
                    && *h_computed_columns == computed_columns && *h_rls_filters == rls_filters
                    && h_valid_at_ms == valid_at_ms && h_system_as_of_ms == narrowed(system_time)))
            },
            timeseries::TimeseriesOp::Ingest { collection, payload, format, wal_lsn, surrogates,
                rls_write_check, returning, rls_filters } => {
                (r is Ok <==> rls_write_check@.len() == 0 && !returning && rls_filters@.len() == 0) && (r is Ok ==> (
                    r->Ok_0 matches timeseries::TimeseriesHandler::Ingest {
                    collection: h_collection, payload: h_payload, format: h_format,
                    wal_lsn: h_wal_lsn, surrogates: h_surrogates }
                    && *h_collection == collection && *h_payload == payload
                    && *h_format == format && h_wal_lsn == wal_lsn && *h_surrogates == surrogates))
            },
        },
{
    lemma_verdicts();
}

} // verus!
