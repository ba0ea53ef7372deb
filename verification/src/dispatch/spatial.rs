//! Routing of spatial operations.
//!
//! A handler is given what it needs of the operation. Geometries, distances and
//! whatever else only the handlers read are in their encoded form.
use vstd::prelude::*;

verus! {

/// How a scanned geometry relates to the geometry of a search.
#[derive(Debug, Clone, Copy, PartialEq, Eq, Structural)]
pub enum SpatialPredicate {
    /// It lies within a distance of it.
    DWithin,
    /// It contains it.
    Contains,
    /// It meets it.
    Intersects,
    /// It lies within it.
    Within,
}

/// A spatial operation of a physical plan.
#[derive(Debug)]
pub enum SpatialOp {
    /// Indexes a geometry.
    Insert { collection: String, field: String, surrogate: u32, geometry: Vec<u8> },
    /// Removes a geometry.
    Delete { collection: String, field: String, surrogate: u32 },
    /// Searches by a geometry.
    Scan {
        collection: String,
        field: String,
        predicate: SpatialPredicate,
        query_geometry: Vec<u8>,
        distance_meters: Vec<u8>,
        attribute_filters: Vec<u8>,
        limit: usize,
        projection: Vec<String>,
        rls_filters: Vec<u8>,
        prefilter: Option<Vec<u8>>,
    },
}

/// The handler of a spatial operation, with what it is given.
#[derive(Debug, Clone, Copy)]
pub enum SpatialHandler<'a> {
    Insert { collection: &'a String, field: &'a String, surrogate: u32, geometry: &'a Vec<u8> },
    Delete { collection: &'a String, field: &'a String, surrogate: u32 },
    Scan {
        collection: &'a String,
        field: &'a String,
        predicate: SpatialPredicate,
        query_geometry: &'a Vec<u8>,
        distance_meters: &'a Vec<u8>,
        attribute_filters: &'a Vec<u8>,
        limit: usize,
        projection: &'a Vec<String>,
        rls_filters: &'a Vec<u8>,
        prefilter: &'a Option<Vec<u8>>,
    },
}

/// Where an operation goes. None is refused, and the row-level filters of a
/// scan reach the engine.
pub open spec fn route<'a>(op: &'a SpatialOp) -> SpatialHandler<'a> {
    match op {
        SpatialOp::Insert { collection, field, surrogate, geometry } => SpatialHandler::Insert {
            collection,
            field,
            surrogate: *surrogate,
            geometry,
        },
        SpatialOp::Delete { collection, field, surrogate } => SpatialHandler::Delete {
            collection,
            field,
            surrogate: *surrogate,
        },
        SpatialOp::Scan {
            collection,
            field,
            predicate,
            query_geometry,
            distance_meters,
            attribute_filters,
            limit,
            projection,
            rls_filters,
            prefilter,
        } => SpatialHandler::Scan {
            collection,
            field,
            predicate: *predicate,
            query_geometry,
            distance_meters,
            attribute_filters,
            limit: *limit,
            projection,
            rls_filters,
            prefilter,
        },
    }
}

/// Chooses the handler of a spatial operation.
pub fn dispatch<'a>(op: &'a SpatialOp) -> (r: SpatialHandler<'a>)
    ensures
        r == route(op),
{
    match op {
        SpatialOp::Insert { collection, field, surrogate, geometry } => SpatialHandler::Insert {
            collection,
            field,
            surrogate: *surrogate,
            geometry,
        },
        SpatialOp::Delete { collection, field, surrogate } => SpatialHandler::Delete {
            collection,
            field,
            surrogate: *surrogate,
        },
        SpatialOp::Scan {
            collection,
            field,
            predicate,
            query_geometry,
            distance_meters,
            attribute_filters,
            limit,
            projection,
            rls_filters,
            prefilter,
        } => SpatialHandler::Scan {
            collection,
            field,
            predicate: *predicate,
            query_geometry,
            distance_meters,
            attribute_filters,
            limit: *limit,
            projection,
            rls_filters,
            prefilter,
        },
    }
}

} // verus!
