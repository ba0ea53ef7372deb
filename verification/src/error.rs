//! Why a request was refused.
use vstd::prelude::*;

verus! {

/// A failed request.
#[derive(Debug)]
pub enum LiteError {
    /// The stored bytes cannot be used, or the store failed.
    Storage { detail: String },
    /// The request does not fit the stored state.
    BadRequest { detail: String },
    /// Bytes could not be decoded or encoded.
    Serialization { detail: String },
    /// The request asks for something this engine does not do.
    Unsupported { detail: String },
    /// A query failed while it ran.
    Query { detail: String },
    /// The engine is under too much memory pressure to take the write.
    Backpressure { detail: String },
    /// Stored state fails its integrity check.
    Corrupted { detail: String },
    /// The configuration is not usable.
    Config { detail: String },
    /// The stored value is not of the type that the request works on.
    TypeMismatch { detail: String },
    /// The row repeats a key that its collection holds already.
    UniqueViolation { collection: String, detail: String },
    /// The row breaks a constraint of its collection.
    ConstraintViolation { collection: String, constraint: String, detail: String },
}

/// What a [`LiteError`] says.
pub enum ErrorView {
    Storage(Seq<char>),
    BadRequest(Seq<char>),
    Serialization(Seq<char>),
    Unsupported(Seq<char>),
    Query(Seq<char>),
    Backpressure(Seq<char>),
    Corrupted(Seq<char>),
    Config(Seq<char>),
    TypeMismatch(Seq<char>),
    UniqueViolation { collection: Seq<char>, detail: Seq<char> },
    ConstraintViolation { collection: Seq<char>, constraint: Seq<char>, detail: Seq<char> },
}

impl View for LiteError {
    type V = ErrorView;

    open spec fn view(&self) -> ErrorView {
        match *self {
            LiteError::Storage { detail } => ErrorView::Storage(detail@),
            LiteError::BadRequest { detail } => ErrorView::BadRequest(detail@),
            LiteError::Serialization { detail } => ErrorView::Serialization(detail@),
            LiteError::Unsupported { detail } => ErrorView::Unsupported(detail@),
            LiteError::Query { detail } => ErrorView::Query(detail@),
            LiteError::Backpressure { detail } => ErrorView::Backpressure(detail@),
            LiteError::Corrupted { detail } => ErrorView::Corrupted(detail@),
            LiteError::Config { detail } => ErrorView::Config(detail@),
            LiteError::TypeMismatch { detail } => ErrorView::TypeMismatch(detail@),
            LiteError::UniqueViolation { collection, detail } => {
                ErrorView::UniqueViolation { collection: collection@, detail: detail@ }
            },
            LiteError::ConstraintViolation { collection, constraint, detail } => {
                ErrorView::ConstraintViolation {
                    collection: collection@,
                    constraint: constraint@,
                    detail: detail@,
                }
            },
        }
    }
}

/// A storage error with this detail.
pub fn storage_error(detail: &str) -> (r: LiteError)
    ensures
        r@ == ErrorView::Storage(detail@),
{
    LiteError::Storage { detail: detail.to_owned() }
}

/// A bad-request error with this detail.
pub fn bad_request(detail: &str) -> (r: LiteError)
    ensures
        r@ == ErrorView::BadRequest(detail@),
{
    LiteError::BadRequest { detail: detail.to_owned() }
}

/// A type-mismatch error with this detail.
pub fn type_mismatch(detail: &str) -> (r: LiteError)
    ensures
        r@ == ErrorView::TypeMismatch(detail@),
{
    LiteError::TypeMismatch { detail: detail.to_owned() }
}

/// An unsupported-request error with this detail.
pub fn unsupported(detail: &str) -> (r: LiteError)
    ensures
        r@ == ErrorView::Unsupported(detail@),
{
    LiteError::Unsupported { detail: detail.to_owned() }
}

} // verus!
