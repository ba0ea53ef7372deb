//! Answers to requests, and the writes that go with them.
use crate::error::{ErrorView, LiteError};
use crate::storage;
use crate::storage::{Namespace, OpView, WriteOp};
use crate::value;
use crate::value::{Datum, DatumView};
use vstd::prelude::*;

verus! {

/// The answer to a request.
#[derive(Debug)]
pub struct QueryResult {
    /// Column names.
    pub columns: Vec<String>,
    /// Rows, each with one value per column.
    pub rows: Vec<Vec<Datum>>,
    /// How many rows the request wrote or removed.
    pub rows_affected: u64,
    /// The SQL command tag, where the request has one.
    pub command: Option<String>,
}

/// What a [`QueryResult`] holds.
pub struct ResultView {
    pub columns: Seq<Seq<char>>,
    pub rows: Seq<Seq<DatumView>>,
    pub rows_affected: u64,
    pub command: Option<Seq<char>>,
}

impl View for QueryResult {
    type V = ResultView;

    open spec fn view(&self) -> ResultView {
        ResultView {
            columns: value::names_view(self.columns@),
            rows: value::rows_view(self.rows@),
            rows_affected: self.rows_affected,
            command: match self.command {
                Some(c) => Some(c@),
                None => None,
            },
        }
    }
}

/// A result without rows that reports `n` affected rows.
pub open spec fn affected_view(n: u64) -> ResultView {
    ResultView { columns: Seq::empty(), rows: Seq::empty(), rows_affected: n, command: None }
}

/// A result without rows that reports `n` affected rows under a command tag.
pub open spec fn tagged_view(n: u64, command: Seq<char>) -> ResultView {
    ResultView {
        columns: Seq::empty(),
        rows: Seq::empty(),
        rows_affected: n,
        command: Some(command),
    }
}

impl QueryResult {
    /// A result without rows that reports `n` affected rows.
    pub fn affected(n: u64) -> (r: QueryResult)
        ensures
            r@ == affected_view(n),
    {
        let r = QueryResult {
            columns: Vec::new(),
            rows: Vec::new(),
            rows_affected: n,
            command: None,
        };
        proof {
            assert(r@.columns =~= Seq::empty());
            assert(r@.rows =~= Seq::empty());
        }
        r
    }

    /// An empty result.
    pub fn empty() -> (r: QueryResult)
        ensures
            r@ == affected_view(0),
    {
        QueryResult::affected(0)
    }

    /// A result without rows that reports `n` affected rows under a command tag.
    pub fn tagged(n: u64, command: &str) -> (r: QueryResult)
        ensures
            r@ == tagged_view(n, command@),
    {
        let mut r = QueryResult::affected(n);
        r.command = Some(command.to_owned());
        r
    }

    /// A result of one row with one column.
    pub fn single(column: &str, value: Datum, n: u64) -> (r: QueryResult)
        ensures
            r@ == (ResultView {
                columns: seq![column@],
                rows: seq![seq![value@]],
                rows_affected: n,
                command: None,
            }),
    {
        let ghost v = value@;
        let mut columns: Vec<String> = Vec::new();
        columns.push(column.to_owned());
        let mut row: Vec<Datum> = Vec::new();
        row.push(value);
        proof {
            assert(value::row_view(row@) =~= seq![v]);
        }
        let mut rows: Vec<Vec<Datum>> = Vec::new();
        rows.push(row);
        let r = QueryResult { columns, rows, rows_affected: n, command: None };
        proof {
            assert(r@.columns =~= seq![column@]);
            assert(r@.rows =~= seq![seq![v]]);
        }
        r
    }
}

/// What a request does: the writes to make, in one batch, and the answer to
/// give once they are made.
#[derive(Debug)]
pub struct Plan {
    /// The writes, in order.
    pub ops: Vec<WriteOp>,
    /// The answer.
    pub result: QueryResult,
}

/// What a [`Plan`] holds.
pub struct PlanView {
    pub ops: Seq<OpView>,
    pub result: ResultView,
}

impl View for Plan {
    type V = PlanView;

    open spec fn view(&self) -> PlanView {
        PlanView { ops: storage::ops_view(self.ops@), result: self.result@ }
    }
}

/// A plan that writes nothing.
pub open spec fn read_only(result: ResultView) -> PlanView {
    PlanView { ops: Seq::empty(), result }
}

/// A plan that makes a single put.
pub open spec fn single_put(
    ns: Namespace,
    key: Seq<u8>,
    value: Seq<u8>,
    result: ResultView,
) -> PlanView {
    PlanView { ops: seq![OpView::Put { ns, key, value }], result }
}

/// What a fallible planning step yields.
pub open spec fn outcome(r: Result<Plan, LiteError>) -> Result<PlanView, ErrorView> {
    match r {
        Ok(p) => Ok(p@),
        Err(e) => Err(e@),
    }
}

impl Plan {
    /// A plan that writes nothing.
    pub fn without_writes(result: QueryResult) -> (r: Plan)
        ensures
            r@ == read_only(result@),
    {
        let r = Plan { ops: Vec::new(), result };
        proof {
            assert(r@.ops =~= Seq::empty());
        }
        r
    }

    /// A plan that makes a single put.
    pub fn put(ns: Namespace, key: Vec<u8>, value: Vec<u8>, result: QueryResult) -> (r: Plan)
        ensures
            r@ == single_put(ns, key@, value@, result@),
    {
        let mut ops: Vec<WriteOp> = Vec::new();
        storage::push_put(&mut ops, ns, key, value);
        let r = Plan { ops, result };
        proof {
            assert(r@.ops =~= seq![OpView::Put { ns, key: key@, value: value@ }]);
        }
        r
    }
}

} // verus!
