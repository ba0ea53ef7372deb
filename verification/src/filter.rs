//! Row predicates of the `nodedb_query` crate.
//!
//! An expression in a predicate may ask for the time or a fresh identifier. The
//! verdict has a name where the predicate is steady, that is where it depends on
//! the predicate and the row alone. Any other verdict is taken as it comes.
//!
//! A predicate is put to a row only where the row answers it: comparisons read
//! texts as times, and not every text can be read.
use crate::error::{ErrorView, LiteError};
use crate::expression;
use crate::native;
use crate::render;
use crate::render::{NativeLevel, NativeTree};
use crate::text;
use crate::timestamp;
use crate::wire;
use nodedb_query::expr::SqlExpr;
use nodedb_query::scan_filter::{FilterOp, ScanFilter};
use vstd::prelude::*;

verus! {

/// A row predicate.
#[verifier::external_type_specification]
#[verifier::external_body]
pub struct ExScanFilter(nodedb_query::scan_filter::ScanFilter);

/// What `zerompk::from_msgpack` reads from `bytes` as a list of predicates, or
/// the text of its error.
pub uninterp spec fn decoded_filters(bytes: Seq<u8>) -> Result<
    Seq<ScanFilter>,
    Seq<char>,
>;

/// What a predicate asks of a document, all the way down.
pub enum FilterTree {
    /// One of several groups, each of which asks for all of its predicates.
    Groups(Seq<Seq<FilterTree>>),
    /// That an expression yields something true.
    Expression(Option<SqlExpr>),
    /// That a field, or an element of it, compares with a value or its elements.
    Compare(Seq<char>, nodedb_types::Value),
    /// That a field compares with the field that a value names.
    Columns(Seq<char>, nodedb_types::Value),
    /// Something that compares no values.
    Other,
}

/// One level of a predicate.
pub enum FilterShape {
    /// One of several groups, each of which asks for all of its predicates.
    Groups(Vec<Vec<ScanFilter>>),
    /// That an expression yields something true.
    Expression(Option<SqlExpr>),
    /// That a field, or an element of it, compares with a value or its elements.
    Compare(String, nodedb_types::Value),
    /// That a field compares with the field that a value names.
    Columns(String, nodedb_types::Value),
    /// Something that compares no values.
    Other,
}

/// What a `nodedb_query::scan_filter::ScanFilter` asks.
pub uninterp spec fn filter_tree(filter: ScanFilter) -> FilterTree;

/// What the predicates of several groups ask.
pub open spec fn group_trees(groups: Seq<Vec<ScanFilter>>) -> Seq<Seq<FilterTree>> {
    groups.map_values(|g: Vec<ScanFilter>| g@.map_values(|f: ScanFilter| filter_tree(f)))
}

/// What one level of a predicate asks.
pub open spec fn asked(shape: FilterShape) -> FilterTree {
    match shape {
        FilterShape::Groups(groups) => FilterTree::Groups(group_trees(groups@)),
        FilterShape::Expression(expr) => FilterTree::Expression(expr),
        FilterShape::Compare(field, value) => FilterTree::Compare(field@, value),
        FilterShape::Columns(field, value) => FilterTree::Columns(field@, value),
        FilterShape::Other => FilterTree::Other,
    }
}

/// Tells the operators of a `nodedb_query::scan_filter::ScanFilter` apart and
/// takes out what they work on. Only the operators of the third arm compare the
/// field with the value, and only those of the fourth with another field. The
/// parts are those of the tree named [`filter_tree`].
#[verifier::external_body]
fn filter_shape(filter: &ScanFilter) -> (r: FilterShape)
    ensures
        filter_tree(*filter) == asked(r),
{
    let f = filter.clone();
    match f.op {
        FilterOp::Or => FilterShape::Groups(f.clauses),
        FilterOp::Expr => FilterShape::Expression(f.expr),
        FilterOp::Eq | FilterOp::Ne | FilterOp::Gt | FilterOp::Gte | FilterOp::Lt | FilterOp::Lte
        | FilterOp::In | FilterOp::NotIn | FilterOp::ArrayContains | FilterOp::ArrayContainsAll
        | FilterOp::ArrayOverlap => FilterShape::Compare(f.field, f.value),
        FilterOp::GtColumn | FilterOp::GteColumn | FilterOp::LtColumn | FilterOp::LteColumn
        | FilterOp::EqColumn | FilterOp::NeColumn => FilterShape::Columns(f.field, f.value),
        _ => FilterShape::Other,
    }
}

/// Whether what is asked depends on itself and the document alone.
pub open spec fn steady_asked(t: FilterTree) -> bool
    decreases t,
{
    match t {
        FilterTree::Groups(groups) => forall|g: int, i: int|
            0 <= g < groups.len() && 0 <= i < groups[g].len() ==> steady_asked(
                #[trigger] groups[g][i],
            ),
        FilterTree::Expression(Some(e)) => expression::steady(e),
        _ => true,
    }
}

/// Whether the verdict of a predicate depends on the predicate and the document
/// alone. That is so of every predicate without expressions.
pub open spec fn steady_filter(filter: ScanFilter) -> bool {
    steady_asked(filter_tree(filter))
}

/// The verdict of a steady predicate on a document.
pub uninterp spec fn filter_holds(filter: ScanFilter, doc: nodedb_types::Value) -> bool;

/// Whether a value, if it is a text, can be read as a time.
pub open spec fn calm_leaf(v: NativeTree) -> bool {
    match v {
        NativeTree::String(s) => timestamp::calm(s),
        _ => true,
    }
}

/// Whether the texts of a value that comparisons look at can be read as times:
/// the value itself, the elements of an array or a set, and the parts of an array
/// cell.
pub open spec fn calm_value(v: nodedb_types::Value) -> bool {
    &&& calm_leaf(render::native_tree(v))
    &&& native::native_elements(v) matches Some(items) ==> forall|i: int|
        0 <= i < items.len() ==> calm_leaf(render::native_tree(#[trigger] items[i]))
    &&& native::native_cell(v) matches Some(parts) ==> forall|i: int|
        0 <= i < parts.len() ==> calm_leaf(render::native_tree(#[trigger] parts[i]))
            && native::native_cell(parts[i]) is None
}

/// Whether the field of a document with a name is not there, or can be compared.
pub open spec fn calm_field(doc: nodedb_types::Value, name: Seq<char>) -> bool {
    match wire::field_at(doc, name) {
        Some(v) => calm_value(v),
        None => true,
    }
}

/// Whether a document answers what is asked: its expressions answer, and what is
/// compared can be.
pub open spec fn answers(t: FilterTree, doc: nodedb_types::Value) -> bool
    decreases t,
{
    match t {
        FilterTree::Groups(groups) => forall|g: int, i: int|
            0 <= g < groups.len() && 0 <= i < groups[g].len() ==> answers(
                #[trigger] groups[g][i],
                doc,
            ),
        FilterTree::Expression(Some(e)) => expression::answers(expression::expr_tree(e), doc),
        FilterTree::Compare(field, value) => calm_value(value) && calm_field(doc, field),
        FilterTree::Columns(field, value) => match render::native_tree(value) {
            NativeTree::String(other) => calm_field(doc, field) && calm_field(doc, other),
            _ => true,
        },
        _ => true,
    }
}

/// Whether a document answers all predicates of a list.
pub open spec fn all_answer(filters: Seq<ScanFilter>, doc: nodedb_types::Value) -> bool {
    forall|i: int| 0 <= i < filters.len() ==> answers(filter_tree(#[trigger] filters[i]), doc)
}

/// Whether all predicates of a list are steady.
pub open spec fn all_steady(filters: Seq<ScanFilter>) -> bool {
    forall|i: int| 0 <= i < filters.len() ==> steady_filter(#[trigger] filters[i])
}

/// Whether all predicates of a list hold of a document.
pub open spec fn all_hold(
    filters: Seq<ScanFilter>,
    doc: nodedb_types::Value,
) -> bool {
    forall|i: int| 0 <= i < filters.len() ==> filter_holds(#[trigger] filters[i], doc)
}

/// The predicates that bytes encode, nothing standing for none.
pub open spec fn filters_in(bytes: Seq<u8>) -> Seq<ScanFilter> {
    if bytes.len() == 0 {
        Seq::empty()
    } else {
        decoded_filters(bytes)->Ok_0
    }
}

/// Whether the verdict of encoded predicates depends on them and the document
/// alone: all of them are steady.
pub open spec fn settled(bytes: Seq<u8>) -> bool {
    all_steady(filters_in(bytes))
}

/// Whether a document answers encoded predicates.
pub open spec fn can_ask(bytes: Seq<u8>, doc: nodedb_types::Value) -> bool {
    all_answer(filters_in(bytes), doc)
}

/// Whether a verdict can be the one of encoded predicates on a document: the one
/// that is named, where it is settled. Without predicates it is positive.
pub open spec fn can_judge(bytes: Seq<u8>, doc: nodedb_types::Value, verdict: bool) -> bool {
    &&& filters_in(bytes).len() == 0 ==> verdict
    &&& settled(bytes) ==> verdict == all_hold(filters_in(bytes), doc)
}

/// Calls `zerompk::from_msgpack` for a list of predicates. The result is the
/// one named [`decoded_filters`].
#[verifier::external_body]
pub(crate) fn decode_filters(bytes: &[u8]) -> (r: Result<
    Vec<ScanFilter>,
    String,
>)
    ensures
        match r {
            Ok(f) => decoded_filters(bytes@) == Ok::<
                Seq<ScanFilter>,
                Seq<char>,
            >(f@),
            Err(e) => decoded_filters(bytes@) == Err::<
                Seq<ScanFilter>,
                Seq<char>,
            >(e@),
        },
{
    zerompk::from_msgpack(bytes).map_err(|e| e.to_string())
}

/// Calls `ScanFilter::matches_value`, which answers where the document answers
/// what the predicate asks. The verdict of a steady predicate is the one named
/// [`filter_holds`]. Any other verdict is left open, since it may depend on the
/// time.
#[verifier::external_body]
fn filter_matches(filter: &ScanFilter, doc: &nodedb_types::Value) -> (r: bool)
    requires
        answers(filter_tree(*filter), *doc),
    ensures
        steady_filter(*filter) ==> r == filter_holds(*filter, *doc),
{
    filter.matches_value(doc)
}

fn is_calm_leaf(v: nodedb_types::Value) -> (r: bool)
    ensures
        r == calm_leaf(render::native_tree(v)),
{
    match render::native_level(v) {
        NativeLevel::String(s) => timestamp::is_calm(text::chars_of(s.as_str()).as_slice()),
        _ => true,
    }
}

/// Whether the texts of a value that comparisons look at can be read as times.
pub fn is_calm_value(v: nodedb_types::Value) -> (r: bool)
    ensures
        r == calm_value(v),
{
    if let Some(parts) = native::cell_parts(&v) {
        let mut i: usize = 0;
        while i < parts.len()
            invariant
                i <= parts@.len(),
                native::native_cell(v) == Some(parts@),
                forall|j: int|
                    0 <= j < i ==> calm_leaf(render::native_tree(#[trigger] parts@[j]))
                        && native::native_cell(parts@[j]) is None,
            decreases parts@.len() - i,
        {
            if native::cell_parts(&parts[i]).is_some() || !is_calm_leaf(
                native::copy_native(&parts[i]),
            ) {
                return false;
            }
            i = i + 1;
        }
    }
    if let Some(items) = native::elements(&v) {
        let mut i: usize = 0;
        while i < items.len()
            invariant
                i <= items@.len(),
                native::native_elements(v) == Some(items@),
                forall|j: int|
                    0 <= j < i ==> calm_leaf(render::native_tree(#[trigger] items@[j])),
            decreases items@.len() - i,
        {
            if !is_calm_leaf(native::copy_native(&items[i])) {
                return false;
            }
            i = i + 1;
        }
    }
    is_calm_leaf(v)
}

fn is_calm_field(doc: &nodedb_types::Value, name: &str) -> (r: bool)
    ensures
        r == calm_field(*doc, name@),
{
    match wire::get_field(doc, name) {
        Some(v) => is_calm_value(v),
        None => true,
    }
}

/// Whether a document answers a predicate.
pub fn can_answer(filter: &ScanFilter, doc: &nodedb_types::Value) -> (r: bool)
    ensures
        r == answers(filter_tree(*filter), *doc),
    decreases filter_tree(*filter),
{
    let ghost t = filter_tree(*filter);
    match filter_shape(filter) {
        FilterShape::Groups(groups) => {
            let ghost all = group_trees(groups@);
            let mut g: usize = 0;
            while g < groups.len()
                invariant
                    g <= groups@.len(),
                    t == filter_tree(*filter),
                    t == FilterTree::Groups(all),
                    all == group_trees(groups@),
                    forall|k: int, i: int|
                        0 <= k < g && 0 <= i < all[k].len() ==> answers(#[trigger] all[k][i], *doc),
                decreases groups@.len() - g,
            {
                let group = &groups[g];
                assert(all[g as int].len() == group@.len());
                let mut i: usize = 0;
                while i < group.len()
                    invariant
                        g < groups@.len(),
                        i <= group@.len(),
                        t == filter_tree(*filter),
                        t == FilterTree::Groups(all),
                        all == group_trees(groups@),
                        *group == groups@[g as int],
                        all[g as int].len() == group@.len(),
                        forall|j: int| 0 <= j < i ==> answers(#[trigger] all[g as int][j], *doc),
                    decreases group@.len() - i,
                {
                    proof {
                        assert(all[g as int][i as int] == filter_tree(group@[i as int]));
                        assert(t->Groups_0 == all);
                        assert(decreases_to!(t => t->Groups_0));
                        assert(decreases_to!(all => all[g as int]));
                        assert(decreases_to!(all[g as int] => all[g as int][i as int]));
                    }
                    if !can_answer(&group[i], doc) {
                        assert(!answers(t->Groups_0[g as int][i as int], *doc));
                        return false;
                    }
                    i = i + 1;
                }
                g = g + 1;
            }
            true
        },
        FilterShape::Expression(Some(e)) => expression::can_answer(&e, doc),
        FilterShape::Expression(None) => true,
        FilterShape::Compare(field, value) => is_calm_value(value) && is_calm_field(
            doc,
            field.as_str(),
        ),
        FilterShape::Columns(field, value) => match render::native_level(value) {
            NativeLevel::String(other) => is_calm_field(doc, field.as_str()) && is_calm_field(
                doc,
                other.as_str(),
            ),
            _ => true,
        },
        FilterShape::Other => true,
    }
}

/// Whether a document answers all predicates of a list.
pub fn can_answer_all(filters: &Vec<ScanFilter>, doc: &nodedb_types::Value) -> (r: bool)
    ensures
        r == all_answer(filters@, *doc),
{
    let mut i: usize = 0;
    while i < filters.len()
        invariant
            i <= filters@.len(),
            forall|j: int| 0 <= j < i ==> answers(filter_tree(#[trigger] filters@[j]), *doc),
        decreases filters@.len() - i,
    {
        if !can_answer(&filters[i], doc) {
            return false;
        }
        i = i + 1;
    }
    true
}

/// The message for a document that does not answer.
pub open spec fn unanswered() -> Seq<char> {
    "predicate or expression cannot be evaluated on a row"@
}

/// The refusal of a document that does not answer.
pub(crate) fn no_answer() -> (r: LiteError)
    ensures
        r@ == ErrorView::BadRequest(unanswered()),
{
    LiteError::BadRequest {
        detail: "predicate or expression cannot be evaluated on a row".to_owned(),
    }
}

/// Whether all predicates hold of a document. Without predicates every
/// document matches. One predicate that does not hold is enough for a negative
/// verdict.
pub(crate) fn judge(filters: &Vec<ScanFilter>, doc: &nodedb_types::Value) -> (r: bool)
    requires
        all_answer(filters@, *doc),
    ensures
        all_steady(filters@) ==> r == all_hold(filters@, *doc),
        r ==> forall|i: int|
            0 <= i < filters@.len() && steady_filter(filters@[i]) ==> filter_holds(
                #[trigger] filters@[i],
                *doc,
            ),
        !r ==> exists|i: int|
            0 <= i < filters@.len() && (steady_filter(#[trigger] filters@[i]) ==> !filter_holds(
                filters@[i],
                *doc,
            )),
{
    let mut i: usize = 0;
    while i < filters.len()
        invariant
            i <= filters@.len(),
            all_answer(filters@, *doc),
            forall|j: int|
                0 <= j < i && steady_filter(filters@[j]) ==> filter_holds(
                    #[trigger] filters@[j],
                    *doc,
                ),
        decreases filters@.len() - i,
    {
        if !filter_matches(&filters[i], doc) {
            assert(steady_filter(filters@[i as int]) ==> !filter_holds(filters@[i as int], *doc));
            return false;
        }
        i = i + 1;
    }
    true
}

/// Whether all predicates hold of a document, which is refused where it does not
/// answer them. Without predicates every document matches.
pub fn all_match(filters: &Vec<ScanFilter>, doc: &nodedb_types::Value) -> (r: Result<
    bool,
    LiteError,
>)
    ensures
        match r {
            Ok(verdict) => {
                &&& all_answer(filters@, *doc)
                &&& all_steady(filters@) ==> verdict == all_hold(filters@, *doc)
                &&& verdict ==> forall|i: int|
                    0 <= i < filters@.len() && steady_filter(filters@[i]) ==> filter_holds(
                        #[trigger] filters@[i],
                        *doc,
                    )
                &&& !verdict ==> filters@.len() > 0
            },
            Err(e) => !all_answer(filters@, *doc) && e@ == ErrorView::BadRequest(unanswered()),
        },
{
    if can_answer_all(filters, doc) {
        Ok(judge(filters, doc))
    } else {
        Err(no_answer())
    }
}

/// Reads encoded predicates, nothing standing for none.
pub(crate) fn read_filters(bytes: &[u8], what: &str) -> (r: Result<
    Vec<ScanFilter>,
    LiteError,
>)
    ensures
        match r {
            Ok(f) => f@ == filters_in(bytes@) && (bytes@.len() == 0 || decoded_filters(bytes@) is Ok),
            Err(e) => bytes@.len() > 0 && decoded_filters(bytes@) is Err && e@
                == ErrorView::Serialization(what@ + decoded_filters(bytes@)->Err_0),
        },
{
    if bytes.len() == 0 {
        return Ok(Vec::new());
    }
    match decode_filters(bytes) {
        Ok(f) => Ok(f),
        Err(e) => Err(LiteError::Serialization { detail: text::concat2(what, e.as_str()) }),
    }
}

/// Whether the predicate that a field equals a value holds of a document.
pub uninterp spec fn equals_holds(
    doc: nodedb_types::Value,
    field: Seq<char>,
    value: nodedb_types::Value,
) -> bool;

/// Whether a document answers whether a field equals a value.
pub open spec fn can_equal(
    doc: nodedb_types::Value,
    field: Seq<char>,
    value: nodedb_types::Value,
) -> bool {
    calm_value(value) && calm_field(doc, field)
}

/// Whether a document answers whether a field equals a value.
pub fn can_compare(doc: &nodedb_types::Value, field: &str, value: &nodedb_types::Value) -> (r: bool)
    ensures
        r == can_equal(*doc, field@, *value),
{
    is_calm_value(native::copy_native(value)) && is_calm_field(doc, field)
}

/// Calls `ScanFilter::matches_value` for the predicate that a field equals a
/// value, which answers where both can be compared. The result is the one named
/// [`equals_holds`].
#[verifier::external_body]
pub(crate) fn field_equals(
    doc: &nodedb_types::Value,
    field: &str,
    value: &nodedb_types::Value,
) -> (r: bool)
    requires
        can_equal(*doc, field@, *value),
    ensures
        r == equals_holds(*doc, field@, *value),
{
    let filter = ScanFilter {
        field: field.to_string(),
        op: FilterOp::Eq,
        value: value.clone(),
        clauses: Vec::new(),
        expr: None,
    };
    filter.matches_value(doc)
}

} // verus!
