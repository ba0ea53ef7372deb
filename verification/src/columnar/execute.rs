//! Running a columnar operation: its policy slots are looked at first, and only
//! then is it carried out.
use crate::columnar::edits;
use crate::columnar::rows;
use crate::columnar::ops;
use crate::columnar::writes;
use crate::columnar::writes::{InsertParams, InsertView, Table, TableView};
use crate::dispatch::columnar::{ColumnarHandler, ColumnarOp};
use crate::error::{ErrorView, LiteError};
use crate::kv::fields;
use crate::result::{QueryResult, ResultView};
use vstd::prelude::*;

verus! {

/// How an operation is run.
#[derive(Debug)]
pub enum ColumnarRun<'a> {
    /// Rows were inserted. Those that were written are queued for
    /// synchronisation.
    Inserted { answer: QueryResult, written: Vec<Vec<nodedb_types::Value>> },
    /// Rows are to be replaced: the key and the new contents of each.
    Updated {
        answer: QueryResult,
        changes: Vec<(nodedb_types::Value, Vec<nodedb_types::Value>)>,
    },
    /// Rows were deleted.
    Deleted { answer: QueryResult },
    /// A handler that reads segments runs it.
    Handler(ColumnarHandler<'a>),
}

/// What a [`ColumnarRun`] is.
pub enum ColumnarRunView<'a> {
    Inserted(ResultView, Seq<Seq<nodedb_types::Value>>),
    Updated(ResultView, Seq<(nodedb_types::Value, Seq<nodedb_types::Value>)>),
    Deleted(ResultView),
    Handler(ColumnarHandler<'a>),
}

impl<'a> View for ColumnarRun<'a> {
    type V = ColumnarRunView<'a>;

    open spec fn view(&self) -> ColumnarRunView<'a> {
        match *self {
            ColumnarRun::Inserted { answer, written } => ColumnarRunView::Inserted(
                answer@,
                rows::table_view(written@),
            ),
            ColumnarRun::Updated { answer, changes } => ColumnarRunView::Updated(
                answer@,
                edits::changes_view(changes@),
            ),
            ColumnarRun::Deleted { answer } => ColumnarRunView::Deleted(answer@),
            ColumnarRun::Handler(h) => ColumnarRunView::Handler(h),
        }
    }
}

/// What running yields.
pub open spec fn run_outcome<'a>(r: Result<ColumnarRun<'a>, LiteError>) -> Result<
    ColumnarRunView<'a>,
    ErrorView,
> {
    match r {
        Ok(run) => Ok(run@),
        Err(e) => Err(e@),
    }
}

/// Whether this is how an operation that is not refused is run on a collection.
pub open spec fn admitted<'a>(
    op: &'a ColumnarOp,
    handler: ColumnarHandler<'a>,
    before: Option<TableView>,
    after: Option<TableView>,
    r: Result<ColumnarRunView<'a>, ErrorView>,
) -> bool {
    match op {
        ColumnarOp::Insert {
            collection,
            payload,
            format,
            intent,
            on_conflict_updates,
            schema_bytes,
            ..
        } => {
            let params = InsertView {
                payload: payload@,
                format: format@,
                intent: *intent,
                updates: on_conflict_updates@,
                schema_bytes: schema_bytes@,
            };
            match r {
                Ok(ColumnarRunView::Inserted(answer, written)) => ops::insert_answered(
                    collection@,
                    before,
                    params,
                    after,
                    Ok((answer, written)),
                ),
                Ok(_) => false,
                Err(e) => ops::insert_answered(collection@, before, params, after, Err(e)),
            }
        },
        ColumnarOp::Update { collection, filters, updates, .. } => {
            &&& after == before
            &&& match r {
                Ok(ColumnarRunView::Updated(answer, changes)) => edits::update_answered(
                    collection@,
                    before,
                    filters@,
                    fields::assignments(updates@),
                    Ok((answer, changes)),
                ),
                Ok(_) => false,
                Err(e) => edits::update_answered(
                    collection@,
                    before,
                    filters@,
                    fields::assignments(updates@),
                    Err(e),
                ),
            }
        },
        ColumnarOp::Delete { collection, filters, .. } => match r {
            Ok(ColumnarRunView::Deleted(answer)) => edits::delete_answered(
                collection@,
                before,
                filters@,
                after,
                Ok(answer),
            ),
            Ok(_) => false,
            Err(e) => edits::delete_answered(collection@, before, filters@, after, Err(e)),
        },
        _ => after == before && r is Ok && r->Ok_0 == ColumnarRunView::Handler(handler),
    }
}

/// Whether this is what an operation does: it is refused and changes nothing, or
/// does what it was made for.
pub open spec fn ran<'a>(
    op: &'a ColumnarOp,
    before: Option<TableView>,
    after: Option<TableView>,
    r: Result<ColumnarRunView<'a>, ErrorView>,
) -> bool {
    match crate::dispatch::columnar::route(op) {
        Err(e) => after == before && r is Err && r->Err_0 == e,
        Ok(handler) => admitted(op, handler, before, after, r),
    }
}

/// Runs a columnar operation on a collection, if it is there.
pub fn run<'a>(op: &'a ColumnarOp, stored: Option<Table>) -> (r: (
    Option<Table>,
    Result<ColumnarRun<'a>, LiteError>,
))
    ensures
        ran(op, writes::stored_view(stored), writes::stored_view(r.0), run_outcome(r.1)),
{
    let handler = match crate::dispatch::columnar::dispatch(op) {
        Ok(h) => h,
        Err(e) => return (stored, Err(e)),
    };
    match op {
        ColumnarOp::Insert {
            collection,
            payload,
            format,
            intent,
            on_conflict_updates,
            schema_bytes,
            ..
        } => {
            let params = InsertParams {
                payload: payload.as_slice(),
                format: format.as_str(),
                intent: *intent,
                on_conflict_updates: on_conflict_updates.as_slice(),
                schema_bytes: schema_bytes.as_slice(),
            };
            let (after, r) = ops::insert(collection, stored, &params);
            match r {
                Ok((answer, written)) => (after, Ok(ColumnarRun::Inserted { answer, written })),
                Err(e) => (after, Err(e)),
            }
        },
        ColumnarOp::Update { collection, filters, updates, .. } => {
            let r = edits::update(
                collection,
                stored.as_ref(),
                filters.as_slice(),
                updates.as_slice(),
            );
            match r {
                Ok((answer, changes)) => (stored, Ok(ColumnarRun::Updated { answer, changes })),
                Err(e) => (stored, Err(e)),
            }
        },
        ColumnarOp::Delete { collection, filters, .. } => {
            let (after, r) = edits::delete(collection, stored, filters.as_slice());
            match r {
                Ok(answer) => (after, Ok(ColumnarRun::Deleted { answer })),
                Err(e) => (after, Err(e)),
            }
        },
        _ => (stored, Ok(ColumnarRun::Handler(handler))),
    }
}

/// An operation that a policy refuses changes nothing.
pub proof fn refused_operations_change_nothing<'a>(
    op: &'a ColumnarOp,
    before: Option<TableView>,
    after: Option<TableView>,
    r: Result<ColumnarRunView<'a>, ErrorView>,
)
    requires
        ran(op, before, after, r),
        crate::dispatch::columnar::route(op) is Err,
    ensures
        after == before,
        r is Err,
{
}

} // verus!
