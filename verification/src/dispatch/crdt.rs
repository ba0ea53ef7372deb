//! Routing of replicated-document operations.
//!
//! A handler is given what it needs of the operation. What only the handlers read
//! is in its encoded form.
use crate::dispatch::gate;
use crate::error;
use crate::error::{ErrorView, LiteError};
use vstd::prelude::*;

verus! {

/// A replicated-document operation of a physical plan.
#[derive(Debug)]
pub enum CrdtOp {
    /// Reads a document.
    Read { collection: String, document_id: String },
    /// Applies a delta.
    Apply { collection: String, delta: Vec<u8>, mutation_id: u64 },
    /// Imports a snapshot.
    ImportSnapshot { collection: String, bytes: Vec<u8> },
    /// Applies a signed delta.
    ApplyAuthenticated,
    /// Installs constraints.
    SetConstraints,
    /// Drops constraints.
    DropConstraints,
    /// Reads constraints.
    ReadConstraints,
    /// Sets a conflict policy.
    SetPolicy { collection: String, policy_json: String },
    /// Reads a conflict policy.
    GetPolicy { collection: String },
    /// Reads an old version.
    ReadAtVersion { collection: String, document_id: String, version_vector_json: String },
    /// Reads the version vector.
    GetVersionVector,
    /// Exports a delta.
    ExportDelta { collection: String, from_version_json: String },
    /// Restores an old version.
    RestoreToVersion { collection: String, document_id: String, target_version_json: String },
    /// Compacts history.
    CompactAtVersion { collection: String, target_version_json: String },
    /// Inserts into a list.
    ListInsert {
        collection: String,
        document_id: String,
        list_path: String,
        index: usize,
        fields_json: String,
    },
    /// Deletes from a list.
    ListDelete { collection: String, document_id: String, list_path: String, index: usize },
    /// Moves within a list.
    ListMove {
        collection: String,
        document_id: String,
        list_path: String,
        from_index: usize,
        to_index: usize,
    },
    /// Writes a replicated document.
    DocUpsert {
        collection: String,
        document_id: String,
        fields_json: String,
        partial: bool,
        returning: Option<Vec<u8>>,
        rls_filters: Vec<u8>,
    },
    /// Deletes a replicated document.
    DocDelete {
        collection: String,
        document_id: String,
        returning: Option<Vec<u8>>,
        rls_filters: Vec<u8>,
    },
    /// Applies a delta speculatively.
    PreviewApply,
}

/// The handler of a replicated-document operation, with what it is given.
#[derive(Debug, Clone, Copy)]
pub enum CrdtHandler<'a> {
    Read { collection: &'a String, document_id: &'a String },
    Apply { collection: &'a String, delta: &'a Vec<u8>, mutation_id: u64 },
    ImportSnapshot { collection: &'a String, bytes: &'a Vec<u8> },
    SetPolicy { collection: &'a String, policy_json: &'a String },
    GetPolicy { collection: &'a String },
    ReadAtVersion {
        collection: &'a String,
        document_id: &'a String,
        version_vector_json: &'a String,
    },
    GetVersionVector,
    ExportDelta { collection: &'a String, from_version_json: &'a String },
    RestoreToVersion {
        collection: &'a String,
        document_id: &'a String,
        target_version_json: &'a String,
    },
    CompactAtVersion { collection: &'a String, target_version_json: &'a String },
    ListInsert {
        collection: &'a String,
        document_id: &'a String,
        list_path: &'a String,
        index: usize,
        fields_json: &'a String,
    },
    ListDelete {
        collection: &'a String,
        document_id: &'a String,
        list_path: &'a String,
        index: usize,
    },
    ListMove {
        collection: &'a String,
        document_id: &'a String,
        list_path: &'a String,
        from_index: usize,
        to_index: usize,
    },
    DocUpsert {
        collection: &'a String,
        document_id: &'a String,
        fields_json: &'a String,
        partial: bool,
        returning: &'a Option<Vec<u8>>,
    },
    DocDelete { collection: &'a String, document_id: &'a String, returning: &'a Option<Vec<u8>> },
}

/// The handler, unless the operation is refused.
pub open spec fn unless<'a>(
    refusal: Option<ErrorView>,
    handler: CrdtHandler<'a>,
) -> Result<CrdtHandler<'a>, ErrorView> {
    match refusal {
        Some(e) => Err(e),
        None => Ok(handler),
    }
}

/// Where an operation goes.
pub open spec fn route<'a>(op: &'a CrdtOp) -> Result<CrdtHandler<'a>, ErrorView> {
    match op {
        CrdtOp::Read { collection, document_id } => Ok(
            CrdtHandler::Read { collection, document_id },
        ),
        CrdtOp::Apply { collection, delta, mutation_id } => Ok(
            CrdtHandler::Apply { collection, delta, mutation_id: *mutation_id },
        ),
        CrdtOp::ImportSnapshot { collection, bytes } => Ok(
            CrdtHandler::ImportSnapshot { collection, bytes },
        ),
        CrdtOp::ApplyAuthenticated => {
            Err(
                ErrorView::Unsupported(
                    "ApplyAuthenticated carries signing enforcement that Lite cannot verify locally; applying it unverified would bypass the signing admission"@,
                ),
            )
        },
        CrdtOp::SetConstraints => {
            Err(
                ErrorView::Unsupported(
                    "SetConstraints requires the CRDT validator constraint subsystem, which Lite does not implement locally"@,
                ),
            )
        },
        CrdtOp::DropConstraints => {
            Err(
                ErrorView::Unsupported(
                    "DropConstraints requires the CRDT validator constraint subsystem, which Lite does not implement locally"@,
                ),
            )
        },
        CrdtOp::ReadConstraints => {
            Err(
                ErrorView::Unsupported(
                    "ReadConstraints requires the CRDT validator constraint subsystem, which Lite does not implement locally"@,
                ),
            )
        },
        CrdtOp::SetPolicy { collection, policy_json } => Ok(
            CrdtHandler::SetPolicy { collection, policy_json },
        ),
        CrdtOp::GetPolicy { collection } => Ok(CrdtHandler::GetPolicy { collection }),
        CrdtOp::ReadAtVersion { collection, document_id, version_vector_json } => Ok(
            CrdtHandler::ReadAtVersion { collection, document_id, version_vector_json },
        ),
        CrdtOp::GetVersionVector => Ok(CrdtHandler::GetVersionVector),
        CrdtOp::ExportDelta { collection, from_version_json } => Ok(
            CrdtHandler::ExportDelta { collection, from_version_json },
        ),
        CrdtOp::RestoreToVersion { collection, document_id, target_version_json } => Ok(
            CrdtHandler::RestoreToVersion { collection, document_id, target_version_json },
        ),
        CrdtOp::CompactAtVersion { collection, target_version_json } => Ok(
            CrdtHandler::CompactAtVersion { collection, target_version_json },
        ),
        CrdtOp::ListInsert { collection, document_id, list_path, index, fields_json } => Ok(
            CrdtHandler::ListInsert {
                collection,
                document_id,
                list_path,
                index: *index,
                fields_json,
            },
        ),
        CrdtOp::ListDelete { collection, document_id, list_path, index } => Ok(
            CrdtHandler::ListDelete { collection, document_id, list_path, index: *index },
        ),
        CrdtOp::ListMove { collection, document_id, list_path, from_index, to_index } => Ok(
            CrdtHandler::ListMove {
                collection,
                document_id,
                list_path,
                from_index: *from_index,
                to_index: *to_index,
            },
        ),
        CrdtOp::DocUpsert {
            collection,
            document_id,
            fields_json,
            partial,
            returning,
            rls_filters,
        } => {
            unless(
                gate::policy_verdict("CrdtOp::DocUpsert"@, false, seq![rls_filters@]),
                CrdtHandler::DocUpsert {
                    collection,
                    document_id,
                    fields_json,
                    partial: *partial,
                    returning,
                },
            )
        },
        CrdtOp::DocDelete { collection, document_id, returning, rls_filters } => {
            unless(
                gate::policy_verdict("CrdtOp::DocDelete"@, false, seq![rls_filters@]),
                CrdtHandler::DocDelete { collection, document_id, returning },
            )
        },
        CrdtOp::PreviewApply => {
            Err(
                ErrorView::Unsupported(
                    "PreviewApply requires the CRDT preview/fork subsystem, which Lite does not implement locally"@,
                ),
            )
        },
    }
}

/// What dispatching yields.
pub open spec fn outcome<'a>(r: Result<CrdtHandler<'a>, LiteError>) -> Result<
    CrdtHandler<'a>,
    ErrorView,
> {
    match r {
        Ok(h) => Ok(h),
        Err(e) => Err(e@),
    }
}

/// Passes an operation with one read program on to its handler.
fn pass1<'a>(
    op: &str,
    returning: bool,
    rls: &[u8],
    handler: CrdtHandler<'a>,
) -> (r: Result<CrdtHandler<'a>, LiteError>)
    ensures
        outcome(r) == unless(gate::policy_verdict(op@, returning, seq![rls@]), handler),
{
    match gate::verdict1(op, returning, rls) {
        Ok(_) => Ok(handler),
        Err(e) => Err(e),
    }
}

/// Chooses the handler of a replicated-document operation, or refuses it.
pub fn dispatch<'a>(op: &'a CrdtOp) -> (r: Result<CrdtHandler<'a>, LiteError>)
    ensures
        outcome(r) == route(op),
{
    match op {
        CrdtOp::Read { collection, document_id } => Ok(
            CrdtHandler::Read { collection, document_id },
        ),
        CrdtOp::Apply { collection, delta, mutation_id } => Ok(
            CrdtHandler::Apply { collection, delta, mutation_id: *mutation_id },
        ),
        CrdtOp::ImportSnapshot { collection, bytes } => Ok(
            CrdtHandler::ImportSnapshot { collection, bytes },
        ),
        CrdtOp::ApplyAuthenticated => {
            Err(
                error::unsupported(
                    "ApplyAuthenticated carries signing enforcement that Lite cannot verify locally; applying it unverified would bypass the signing admission",
                ),
            )
        },
        CrdtOp::SetConstraints => {
            Err(
                error::unsupported(
                    "SetConstraints requires the CRDT validator constraint subsystem, which Lite does not implement locally",
                ),
            )
        },
        CrdtOp::DropConstraints => {
            Err(
                error::unsupported(
                    "DropConstraints requires the CRDT validator constraint subsystem, which Lite does not implement locally",
                ),
            )
        },
        CrdtOp::ReadConstraints => {
            Err(
                error::unsupported(
                    "ReadConstraints requires the CRDT validator constraint subsystem, which Lite does not implement locally",
                ),
            )
        },
        CrdtOp::SetPolicy { collection, policy_json } => Ok(
            CrdtHandler::SetPolicy { collection, policy_json },
        ),
        CrdtOp::GetPolicy { collection } => Ok(CrdtHandler::GetPolicy { collection }),
        CrdtOp::ReadAtVersion { collection, document_id, version_vector_json } => Ok(
            CrdtHandler::ReadAtVersion { collection, document_id, version_vector_json },
        ),
        CrdtOp::GetVersionVector => Ok(CrdtHandler::GetVersionVector),
        CrdtOp::ExportDelta { collection, from_version_json } => Ok(
            CrdtHandler::ExportDelta { collection, from_version_json },
        ),
        CrdtOp::RestoreToVersion { collection, document_id, target_version_json } => Ok(
            CrdtHandler::RestoreToVersion { collection, document_id, target_version_json },
        ),
        CrdtOp::CompactAtVersion { collection, target_version_json } => Ok(
            CrdtHandler::CompactAtVersion { collection, target_version_json },
        ),
        CrdtOp::ListInsert { collection, document_id, list_path, index, fields_json } => Ok(
            CrdtHandler::ListInsert {
                collection,
                document_id,
                list_path,
                index: *index,
                fields_json,
            },
        ),
        CrdtOp::ListDelete { collection, document_id, list_path, index } => Ok(
            CrdtHandler::ListDelete { collection, document_id, list_path, index: *index },
        ),
        CrdtOp::ListMove { collection, document_id, list_path, from_index, to_index } => Ok(
            CrdtHandler::ListMove {
                collection,
                document_id,
                list_path,
                from_index: *from_index,
                to_index: *to_index,
            },
        ),
        CrdtOp::DocUpsert {
            collection,
            document_id,
            fields_json,
            partial,
            returning,
            rls_filters,
        } => {
            pass1(
                "CrdtOp::DocUpsert",
                false,
                rls_filters,
                CrdtHandler::DocUpsert {
                    collection,
                    document_id,
                    fields_json,
                    partial: *partial,
                    returning,
                },
            )
        },
        CrdtOp::DocDelete { collection, document_id, returning, rls_filters } => {
            pass1(
                "CrdtOp::DocDelete",
                false,
                rls_filters,
                CrdtHandler::DocDelete { collection, document_id, returning },
            )
        },
        CrdtOp::PreviewApply => {
            Err(
                error::unsupported(
                    "PreviewApply requires the CRDT preview/fork subsystem, which Lite does not implement locally",
                ),
            )
        },
    }
}

} // verus!
