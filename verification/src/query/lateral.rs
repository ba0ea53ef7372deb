//! Lateral joins: for each outer row, the inner rows that go with it.
use crate::error::{ErrorView, LiteError};
use crate::filter;
use crate::native;
use crate::query::joins;
use crate::query::record;
use crate::query::record::Record;
use crate::query::sort;
use crate::query::sort::SortKey;
use crate::text;
use vstd::prelude::*;

verus! {

/// The correlation of an inner row with an outer row: pairs of an outer and an
/// inner column.
pub open spec fn correlation(pairs: Seq<(String, String)>) -> Seq<(Seq<char>, Seq<char>)> {
    pairs.map_values(|p: (String, String)| (p.0@, p.1@))
}

/// The correlation of an inner row with an outer row, of pairs that name the
/// inner column first.
pub open spec fn inner_first(pairs: Seq<(String, String)>) -> Seq<(Seq<char>, Seq<char>)> {
    pairs.map_values(|p: (String, String)| (p.1@, p.0@))
}

/// Whether an inner row goes with an outer row: every inner column equals the
/// outer column it is paired with.
pub open spec fn correlated(
    outer: Map<Seq<char>, nodedb_types::Value>,
    inner: Map<Seq<char>, nodedb_types::Value>,
    pairs: Seq<(Seq<char>, Seq<char>)>,
) -> bool {
    forall|i: int|
        0 <= i < pairs.len() ==> filter::equals_holds(
            native::native_object(inner),
            (#[trigger] pairs[i]).1,
            native::field_or_null(outer, pairs[i].0),
        )
}

/// Whether an inner row answers whether it goes with an outer row.
pub open spec fn comparable(
    outer: Map<Seq<char>, nodedb_types::Value>,
    inner: Map<Seq<char>, nodedb_types::Value>,
    pairs: Seq<(Seq<char>, Seq<char>)>,
) -> bool {
    forall|i: int|
        0 <= i < pairs.len() ==> filter::can_equal(
            native::native_object(inner),
            (#[trigger] pairs[i]).1,
            native::field_or_null(outer, pairs[i].0),
        )
}

/// Whether every inner row answers whether it goes with an outer row.
pub open spec fn comparable_inner(
    outer: Map<Seq<char>, nodedb_types::Value>,
    inners: Seq<Map<Seq<char>, nodedb_types::Value>>,
    pairs: Seq<(Seq<char>, Seq<char>)>,
) -> bool {
    forall|j: int| 0 <= j < inners.len() ==> comparable(outer, #[trigger] inners[j], pairs)
}

/// Whether every inner row answers whether it goes with each outer row.
pub open spec fn all_comparable(
    outers: Seq<Map<Seq<char>, nodedb_types::Value>>,
    inners: Seq<Map<Seq<char>, nodedb_types::Value>>,
    pairs: Seq<(Seq<char>, Seq<char>)>,
) -> bool {
    forall|l: int| 0 <= l < outers.len() ==> comparable_inner(#[trigger] outers[l], inners, pairs)
}

/// The first `n` inner rows that pass the predicates and go with an outer row.
pub open spec fn inner_rows(
    outer: Map<Seq<char>, nodedb_types::Value>,
    inners: Seq<Map<Seq<char>, nodedb_types::Value>>,
    passes: Seq<bool>,
    pairs: Seq<(Seq<char>, Seq<char>)>,
    n: int,
) -> Seq<Map<Seq<char>, nodedb_types::Value>>
    decreases n,
{
    if n <= 0 {
        Seq::empty()
    } else if passes[n - 1] && correlated(outer, inners[n - 1], pairs) {
        inner_rows(outer, inners, passes, pairs, n - 1).push(inners[n - 1])
    } else {
        inner_rows(outer, inners, passes, pairs, n - 1)
    }
}

/// The names under which outer and inner rows appear, and whether an outer row
/// without an inner one is kept.
#[derive(Debug)]
pub struct LateralShape<'a> {
    /// The alias of the outer rows.
    pub outer_alias: &'a str,
    /// The alias of the inner rows.
    pub lateral_alias: &'a str,
    /// Whether an outer row without an inner one is kept.
    pub left_join: bool,
}

/// What a [`LateralShape`] says.
pub struct ShapeView {
    pub outer_alias: Seq<char>,
    pub lateral_alias: Seq<char>,
    pub left_join: bool,
}

impl<'a> View for LateralShape<'a> {
    type V = ShapeView;

    open spec fn view(&self) -> ShapeView {
        ShapeView {
            outer_alias: self.outer_alias@,
            lateral_alias: self.lateral_alias@,
            left_join: self.left_join,
        }
    }
}

/// The rows that an outer row yields with its inner rows.
pub open spec fn lateral_yield(
    outer: Map<Seq<char>, nodedb_types::Value>,
    inners: Seq<Map<Seq<char>, nodedb_types::Value>>,
    shape: ShapeView,
) -> Seq<Map<Seq<char>, nodedb_types::Value>> {
    let named = record::qualified_by(outer, shape.outer_alias);
    if inners.len() == 0 {
        if shape.left_join {
            seq![named]
        } else {
            Seq::empty()
        }
    } else {
        inners.map_values(
            |inner: Map<Seq<char>, nodedb_types::Value>|
                joins::merged(named, record::qualified_by(inner, shape.lateral_alias)),
        )
    }
}

/// The rows that the first `n` outer rows yield, in order.
pub open spec fn lateral_yields(
    outers: Seq<Map<Seq<char>, nodedb_types::Value>>,
    chosen: Seq<Seq<Map<Seq<char>, nodedb_types::Value>>>,
    shape: ShapeView,
    n: int,
) -> Seq<Map<Seq<char>, nodedb_types::Value>>
    decreases n,
{
    if n <= 0 {
        Seq::empty()
    } else {
        lateral_yields(outers, chosen, shape, n - 1) + lateral_yield(
            outers[n - 1],
            chosen[n - 1],
            shape,
        )
    }
}

/// The inner rows of each outer row.
pub open spec fn chosen_rows(
    outers: Seq<Map<Seq<char>, nodedb_types::Value>>,
    inners: Seq<Map<Seq<char>, nodedb_types::Value>>,
    passes: Seq<Seq<bool>>,
    pairs: Seq<(Seq<char>, Seq<char>)>,
) -> Seq<Seq<Map<Seq<char>, nodedb_types::Value>>> {
    Seq::new(
        outers.len(),
        |l: int| inner_rows(outers[l], inners, passes[l], pairs, inners.len() as int),
    )
}

/// The message for too many outer rows.
pub open spec fn cap_message(cap: usize, n: nat) -> Seq<char> {
    "lateral loop outer_row_cap="@ + text::decimal(cap as nat) + " exceeded: got "@
        + text::decimal(n) + " outer rows"@
}

/// The rows of a lateral loop, given which inner rows pass the predicates for
/// each outer row.
pub open spec fn lateral_spec(
    outers: Seq<Map<Seq<char>, nodedb_types::Value>>,
    inners: Seq<Map<Seq<char>, nodedb_types::Value>>,
    passes: Seq<Seq<bool>>,
    pairs: Seq<(Seq<char>, Seq<char>)>,
    shape: ShapeView,
    cap: usize,
) -> Result<Seq<Map<Seq<char>, nodedb_types::Value>>, ErrorView> {
    if cap > 0 && outers.len() > cap {
        Err(ErrorView::Storage(cap_message(cap, outers.len())))
    } else {
        Ok(
            lateral_yields(
                outers,
                chosen_rows(outers, inners, passes, pairs),
                shape,
                outers.len() as int,
            ),
        )
    }
}

/// Whether an inner row answers whether it goes with an outer row.
fn can_go_with(outer: &Record, inner: &Record, pairs: &[(String, String)]) -> (r: bool)
    ensures
        r == comparable(outer@, inner@, correlation(pairs@)),
{
    let doc = inner.to_object();
    let ghost all = correlation(pairs@);
    let mut i: usize = 0;
    while i < pairs.len()
        invariant
            i <= pairs@.len(),
            all == correlation(pairs@),
            doc == native::native_object(inner@),
            forall|j: int|
                0 <= j < i ==> filter::can_equal(
                    native::native_object(inner@),
                    (#[trigger] all[j]).1,
                    native::field_or_null(outer@, all[j].0),
                ),
        decreases pairs@.len() - i,
    {
        let value = outer.get_or_null(pairs[i].0.as_str());
        proof {
            assert(all[i as int] == (pairs@[i as int].0@, pairs@[i as int].1@));
        }
        if !filter::can_compare(&doc, pairs[i].1.as_str(), &value) {
            return false;
        }
        i = i + 1;
    }
    true
}

/// Whether every inner row answers whether it goes with each outer row.
fn can_compare_all(outers: &[Record], inners: &[Record], pairs: &[(String, String)]) -> (r: bool)
    ensures
        r == all_comparable(
            record::records_view(outers@),
            record::records_view(inners@),
            correlation(pairs@),
        ),
{
    let ghost os = record::records_view(outers@);
    let ghost is = record::records_view(inners@);
    let ghost paired = correlation(pairs@);
    let mut i: usize = 0;
    while i < outers.len()
        invariant
            i <= outers@.len(),
            os == record::records_view(outers@),
            is == record::records_view(inners@),
            paired == correlation(pairs@),
            forall|l: int| 0 <= l < i ==> comparable_inner(#[trigger] os[l], is, paired),
        decreases outers@.len() - i,
    {
        let mut k: usize = 0;
        while k < inners.len()
            invariant
                i < outers@.len(),
                k <= inners@.len(),
                os == record::records_view(outers@),
                is == record::records_view(inners@),
                paired == correlation(pairs@),
                forall|j: int| 0 <= j < k ==> comparable(os[i as int], #[trigger] is[j], paired),
            decreases inners@.len() - k,
        {
            if !can_go_with(&outers[i], &inners[k], pairs) {
                assert(!comparable(os[i as int], is[k as int], paired));
                assert(!comparable_inner(os[i as int], is, paired));
                return false;
            }
            k = k + 1;
        }
        i = i + 1;
    }
    true
}

/// Whether an inner row goes with an outer row.
fn goes_with(outer: &Record, inner: &Record, pairs: &[(String, String)]) -> (r: bool)
    requires
        comparable(outer@, inner@, correlation(pairs@)),
    ensures
        r == correlated(outer@, inner@, correlation(pairs@)),
{
    let doc = inner.to_object();
    let ghost all = correlation(pairs@);
    let mut i: usize = 0;
    while i < pairs.len()
        invariant
            i <= pairs@.len(),
            all == correlation(pairs@),
            doc == native::native_object(inner@),
            comparable(outer@, inner@, all),
            forall|j: int|
                0 <= j < i ==> filter::equals_holds(
                    native::native_object(inner@),
                    (#[trigger] all[j]).1,
                    native::field_or_null(outer@, all[j].0),
                ),
        decreases pairs@.len() - i,
    {
        let value = outer.get_or_null(pairs[i].0.as_str());
        proof {
            assert(all[i as int] == (pairs@[i as int].0@, pairs@[i as int].1@));
        }
        if !filter::field_equals(&doc, pairs[i].1.as_str(), &value) {
            return false;
        }
        i = i + 1;
    }
    true
}

/// The inner rows that pass the predicates and go with an outer row.
pub fn choose_inner(
    outer: &Record,
    inners: &[Record],
    passes: &Vec<bool>,
    pairs: &[(String, String)],
) -> (r: Vec<Record>)
    requires
        passes@.len() == inners@.len(),
        comparable_inner(outer@, record::records_view(inners@), correlation(pairs@)),
    ensures
        record::records_view(r@) == inner_rows(
            outer@,
            record::records_view(inners@),
            passes@,
            correlation(pairs@),
            inners@.len() as int,
        ),
{
    let ghost all = record::records_view(inners@);
    let mut out: Vec<Record> = Vec::new();
    let mut i: usize = 0;
    proof {
        assert(record::records_view(out@) =~= inner_rows(
            outer@,
            all,
            passes@,
            correlation(pairs@),
            0,
        ));
    }
    while i < inners.len()
        invariant
            i <= inners@.len(),
            passes@.len() == inners@.len(),
            all == record::records_view(inners@),
            comparable_inner(outer@, all, correlation(pairs@)),
            record::records_view(out@) == inner_rows(
                outer@,
                all,
                passes@,
                correlation(pairs@),
                i as int,
            ),
        decreases inners@.len() - i,
    {
        assert(comparable(outer@, all[i as int], correlation(pairs@)));
        if passes[i] && goes_with(outer, &inners[i], pairs) {
            let ghost before = record::records_view(out@);
            let row = inners[i].copy();
            out.push(row);
            proof {
                assert(record::records_view(out@) =~= before.push(row@));
            }
        }
        i = i + 1;
    }
    out
}

/// The rows that an outer row yields with its inner rows.
fn yield_lateral(outer: &Record, inners: &Vec<Record>, shape: &LateralShape) -> (r: Vec<Record>)
    ensures
        record::records_view(r@) == lateral_yield(outer@, record::records_view(inners@), shape@),
{
    let mut out: Vec<Record> = Vec::new();
    let ghost all = record::records_view(inners@);
    let named = outer.prefixed(shape.outer_alias);
    if inners.len() == 0 {
        if shape.left_join {
            out.push(named);
        }
        proof {
            assert(record::records_view(out@) =~= lateral_yield(outer@, all, shape@));
        }
        return out;
    }
    let ghost whole = lateral_yield(outer@, all, shape@);
    let mut i: usize = 0;
    while i < inners.len()
        invariant
            i <= inners@.len(),
            inners@.len() > 0,
            all == record::records_view(inners@),
            named@ == record::qualified_by(outer@, shape.outer_alias@),
            whole == lateral_yield(outer@, all, shape@),
            record::records_view(out@) == whole.take(i as int),
        decreases inners@.len() - i,
    {
        let ghost before = record::records_view(out@);
        let row = joins::merge_rows(&named, &inners[i].prefixed(shape.lateral_alias));
        out.push(row);
        proof {
            assert(record::records_view(out@) =~= before.push(row@));
            assert(whole[i as int] == row@);
            assert(whole.take(i as int + 1) =~= whole.take(i as int).push(whole[i as int]));
        }
        i = i + 1;
    }
    proof {
        assert(whole.take(i as int) =~= whole);
    }
    out
}

/// Appends rows.
fn push_all(out: &mut Vec<Record>, more: Vec<Record>)
    ensures
        record::records_view(final(out)@) == record::records_view(old(out)@)
            + record::records_view(more@),
{
    let ghost start = out@;
    let ghost tail = more@;
    let mut rest = more;
    out.append(&mut rest);
    proof {
        assert(record::records_view(out@) =~= record::records_view(start) + record::records_view(
            tail,
        ));
    }
}

/// Joins each outer row with every inner row that goes with it. More outer rows
/// than the cap allows are refused; a cap of zero allows any number.
pub fn lateral_loop(
    outers: &[Record],
    inners: &[Record],
    passes: &[Vec<bool>],
    pairs: &[(String, String)],
    shape: &LateralShape,
    cap: usize,
) -> (r: Result<Vec<Record>, LiteError>)
    requires
        joins::judges(joins::matrix_view(passes@), outers@.len(), inners@.len()),
        all_comparable(
            record::records_view(outers@),
            record::records_view(inners@),
            correlation(pairs@),
        ),
    ensures
        record::outcome_view(r) == lateral_spec(
            record::records_view(outers@),
            record::records_view(inners@),
            joins::matrix_view(passes@),
            correlation(pairs@),
            shape@,
            cap,
        ),
{
    if cap > 0 && outers.len() > cap {
        let shown = text::decimal_string(cap as u64);
        let got = text::decimal_string(outers.len() as u64);
        return Err(
            LiteError::Storage {
                detail: text::concat5(
                    "lateral loop outer_row_cap=",
                    shown.as_str(),
                    " exceeded: got ",
                    got.as_str(),
                    " outer rows",
                ),
            },
        );
    }
    let ghost os = record::records_view(outers@);
    let ghost is = record::records_view(inners@);
    let ghost said = joins::matrix_view(passes@);
    let ghost paired = correlation(pairs@);
    let ghost chosen = chosen_rows(os, is, said, paired);
    let mut out: Vec<Record> = Vec::new();
    let mut i: usize = 0;
    proof {
        assert(record::records_view(out@) =~= lateral_yields(os, chosen, shape@, 0));
    }
    while i < outers.len()
        invariant
            i <= outers@.len(),
            os == record::records_view(outers@),
            is == record::records_view(inners@),
            said == joins::matrix_view(passes@),
            paired == correlation(pairs@),
            chosen == chosen_rows(os, is, said, paired),
            joins::judges(said, outers@.len(), inners@.len()),
            all_comparable(os, is, paired),
            record::records_view(out@) == lateral_yields(os, chosen, shape@, i as int),
        decreases outers@.len() - i,
    {
        proof {
            assert(said[i as int] == passes@[i as int]@);
            assert(said[i as int].len() == inners@.len());
            assert(comparable_inner(os[i as int], is, paired));
        }
        let matched = choose_inner(&outers[i], inners, &passes[i], pairs);
        let rows = yield_lateral(&outers[i], &matched, shape);
        proof {
            assert(chosen[i as int] == record::records_view(matched@));
        }
        push_all(&mut out, rows);
        i = i + 1;
    }
    Ok(out)
}

/// Whether `chosen` are the inner rows of each outer row, sorted, and cut at the
/// limit.
pub open spec fn top_rows(
    outers: Seq<Map<Seq<char>, nodedb_types::Value>>,
    inners: Seq<Map<Seq<char>, nodedb_types::Value>>,
    passes: Seq<Seq<bool>>,
    pairs: Seq<(Seq<char>, Seq<char>)>,
    keys: Seq<SortKey>,
    limit: usize,
    chosen: Seq<Seq<Map<Seq<char>, nodedb_types::Value>>>,
) -> bool {
    chosen.len() == outers.len() && forall|l: int|
        0 <= l < outers.len() ==> top_of(
            inner_rows(outers[l], inners, passes[l], pairs, inners.len() as int),
            keys,
            limit,
            #[trigger] chosen[l],
        )
}

/// Whether `top` are the first rows, up to the limit, of sorted rows.
pub open spec fn top_of(
    rows: Seq<Map<Seq<char>, nodedb_types::Value>>,
    keys: Seq<SortKey>,
    limit: usize,
    top: Seq<Map<Seq<char>, nodedb_types::Value>>,
) -> bool {
    exists|sorted: Seq<Map<Seq<char>, nodedb_types::Value>>|
        #[trigger] sort::sorted_from(rows, sorted, keys) && top == cut(sorted, limit)
}

/// The first rows, up to the limit, where zero stands for no limit.
pub open spec fn cut(
    rows: Seq<Map<Seq<char>, nodedb_types::Value>>,
    limit: usize,
) -> Seq<Map<Seq<char>, nodedb_types::Value>> {
    if limit == 0 || rows.len() <= limit {
        rows
    } else {
        rows.take(limit as int)
    }
}

/// Whether rows are those of a lateral join with the top inner rows.
pub open spec fn top_k_done(
    outers: Seq<Map<Seq<char>, nodedb_types::Value>>,
    inners: Seq<Map<Seq<char>, nodedb_types::Value>>,
    passes: Seq<Seq<bool>>,
    pairs: Seq<(Seq<char>, Seq<char>)>,
    keys: Seq<SortKey>,
    limit: usize,
    shape: ShapeView,
    out: Seq<Map<Seq<char>, nodedb_types::Value>>,
) -> bool {
    exists|chosen: Seq<Seq<Map<Seq<char>, nodedb_types::Value>>>|
        #[trigger] top_rows(outers, inners, passes, pairs, keys, limit, chosen) && out
            == lateral_yields(outers, chosen, shape, outers.len() as int)
}

proof fn lemma_same_chosen(
    outers: Seq<Map<Seq<char>, nodedb_types::Value>>,
    a: Seq<Seq<Map<Seq<char>, nodedb_types::Value>>>,
    b: Seq<Seq<Map<Seq<char>, nodedb_types::Value>>>,
    shape: ShapeView,
    n: int,
)
    requires
        forall|i: int| 0 <= i < n ==> a[i] == b[i],
    ensures
        lateral_yields(outers, a, shape, n) == lateral_yields(outers, b, shape, n),
    decreases n,
{
    if n > 0 {
        lemma_same_chosen(outers, a, b, shape, n - 1);
    }
}

/// Joins each outer row with the first inner rows, in the order of the keys,
/// that go with it.
pub fn lateral_top_k(
    outers: &[Record],
    inners: &[Record],
    passes: &[Vec<bool>],
    pairs: &[(String, String)],
    keys: &[SortKey],
    limit: usize,
    shape: &LateralShape,
) -> (r: Vec<Record>)
    requires
        joins::judges(joins::matrix_view(passes@), outers@.len(), inners@.len()),
        all_comparable(
            record::records_view(outers@),
            record::records_view(inners@),
            correlation(pairs@),
        ),
    ensures
        top_k_done(
            record::records_view(outers@),
            record::records_view(inners@),
            joins::matrix_view(passes@),
            correlation(pairs@),
            keys@,
            limit,
            shape@,
            record::records_view(r@),
        ),
{
    let ghost os = record::records_view(outers@);
    let ghost is = record::records_view(inners@);
    let ghost said = joins::matrix_view(passes@);
    let ghost paired = correlation(pairs@);
    let ghost mut chosen: Seq<Seq<Map<Seq<char>, nodedb_types::Value>>> = Seq::empty();
    let mut out: Vec<Record> = Vec::new();
    let mut i: usize = 0;
    proof {
        assert(record::records_view(out@) =~= lateral_yields(os, chosen, shape@, 0));
    }
    while i < outers.len()
        invariant
            i <= outers@.len(),
            os == record::records_view(outers@),
            is == record::records_view(inners@),
            said == joins::matrix_view(passes@),
            paired == correlation(pairs@),
            joins::judges(said, outers@.len(), inners@.len()),
            all_comparable(os, is, paired),
            chosen.len() == i,
            forall|l: int|
                0 <= l < i ==> top_of(
                    inner_rows(os[l], is, said[l], paired, is.len() as int),
                    keys@,
                    limit,
                    #[trigger] chosen[l],
                ),
            record::records_view(out@) == lateral_yields(os, chosen, shape@, i as int),
        decreases outers@.len() - i,
    {
        proof {
            assert(said[i as int] == passes@[i as int]@);
            assert(said[i as int].len() == inners@.len());
            assert(comparable_inner(os[i as int], is, paired));
        }
        let mut matched = choose_inner(&outers[i], inners, &passes[i], pairs);
        let ghost unsorted = record::records_view(matched@);
        sort::sort_rows(&mut matched, keys);
        let ghost sorted = record::records_view(matched@);
        if limit > 0 && matched.len() > limit {
            matched.truncate(limit);
            proof {
                assert(record::records_view(matched@) =~= sorted.take(limit as int));
            }
        }
        proof {
            assert(sort::sorted_from(unsorted, sorted, keys@));
            assert(top_of(unsorted, keys@, limit, record::records_view(matched@)));
        }
        let rows = yield_lateral(&outers[i], &matched, shape);
        push_all(&mut out, rows);
        proof {
            let next = chosen.push(record::records_view(matched@));
            lemma_same_chosen(os, chosen, next, shape@, i as int);
            assert(lateral_yields(os, next, shape@, i as int + 1) == lateral_yields(
                os,
                next,
                shape@,
                i as int,
            ) + lateral_yield(os[i as int], next[i as int], shape@));
            chosen = next;
        }
        i = i + 1;
    }
    proof {
        assert(top_rows(os, is, said, paired, keys@, limit, chosen));
    }
    out
}

/// Whether verdicts can be those of encoded predicates on every inner row, once
/// for each of `outers` outer rows.
pub open spec fn judged_inner(
    filters: Seq<u8>,
    outers: nat,
    inners: Seq<Map<Seq<char>, nodedb_types::Value>>,
    passes: Seq<Seq<bool>>,
) -> bool {
    &&& joins::judges(passes, outers, inners.len())
    &&& forall|l: int, j: int|
        0 <= l < outers && 0 <= j < inners.len() ==> filter::can_judge(
            filters,
            native::native_object(inners[j]),
            #[trigger] passes[l][j],
        )
}

/// Whether every row answers encoded predicates.
pub open spec fn askable_rows(
    filters: Seq<u8>,
    inners: Seq<Map<Seq<char>, nodedb_types::Value>>,
) -> bool {
    forall|j: int|
        0 <= j < inners.len() ==> filter::can_ask(
            filters,
            native::native_object(#[trigger] inners[j]),
        )
}

/// Whether every row answers predicates that were read from `bytes`.
fn can_ask_rows(
    inners: &[Record],
    filters: &Vec<nodedb_query::scan_filter::ScanFilter>,
    bytes: &[u8],
) -> (r: bool)
    requires
        filters@ == filter::filters_in(bytes@),
    ensures
        r == askable_rows(bytes@, record::records_view(inners@)),
{
    let ghost is = record::records_view(inners@);
    let mut k: usize = 0;
    while k < inners.len()
        invariant
            k <= inners@.len(),
            is == record::records_view(inners@),
            filters@ == filter::filters_in(bytes@),
            forall|j: int|
                0 <= j < k ==> filter::can_ask(bytes@, native::native_object(#[trigger] is[j])),
        decreases inners@.len() - k,
    {
        let doc = inners[k].to_object();
        if !filter::can_answer_all(filters, &doc) {
            assert(!filter::can_ask(bytes@, native::native_object(is[k as int])));
            return false;
        }
        k = k + 1;
    }
    true
}

/// Judges every inner row by predicates that were read from `bytes`, once for
/// each outer row.
fn judge_inner(
    outers: usize,
    inners: &[Record],
    filters: &Vec<nodedb_query::scan_filter::ScanFilter>,
    bytes: &[u8],
) -> (r: Vec<Vec<bool>>)
    requires
        filters@ == filter::filters_in(bytes@),
        askable_rows(bytes@, record::records_view(inners@)),
    ensures
        judged_inner(
            bytes@,
            outers as nat,
            record::records_view(inners@),
            joins::matrix_view(r@),
        ),
{
    let ghost is = record::records_view(inners@);
    let mut out: Vec<Vec<bool>> = Vec::new();
    let mut i: usize = 0;
    while i < outers
        invariant
            i <= outers,
            is == record::records_view(inners@),
            filters@ == filter::filters_in(bytes@),
            askable_rows(bytes@, is),
            joins::judges(joins::matrix_view(out@), i as nat, inners@.len()),
            forall|l: int, j: int|
                0 <= l < i && 0 <= j < is.len() ==> filter::can_judge(
                    bytes@,
                    native::native_object(is[j]),
                    #[trigger] joins::matrix_view(out@)[l][j],
                ),
        decreases outers - i,
    {
        let mut line: Vec<bool> = Vec::new();
        let mut k: usize = 0;
        while k < inners.len()
            invariant
                k <= inners@.len(),
                is == record::records_view(inners@),
                filters@ == filter::filters_in(bytes@),
                askable_rows(bytes@, is),
                line@.len() == k,
                forall|j: int|
                    0 <= j < k ==> filter::can_judge(
                        bytes@,
                        native::native_object(is[j]),
                        #[trigger] line@[j],
                    ),
            decreases inners@.len() - k,
        {
            let doc = inners[k].to_object();
            assert(filter::can_ask(bytes@, native::native_object(is[k as int])));
            line.push(filter::judge(filters, &doc));
            k = k + 1;
        }
        let ghost before = joins::matrix_view(out@);
        out.push(line);
        proof {
            assert(joins::matrix_view(out@) =~= before.push(line@));
            assert forall|l: int| 0 <= l < i + 1 implies (
            #[trigger] joins::matrix_view(out@)[l]).len() == inners@.len() by {
                if l < i {
                    assert(before[l].len() == inners@.len());
                }
            }
            assert forall|l: int, j: int| 0 <= l < i + 1 && 0 <= j < is.len() implies filter::can_judge(
                bytes@,
                native::native_object(is[j]),
                #[trigger] joins::matrix_view(out@)[l][j],
            ) by {
                if l < i {
                    assert(joins::matrix_view(out@)[l][j] == before[l][j]);
                } else {
                    assert(joins::matrix_view(out@)[l][j] == line@[j]);
                }
            }
        }
        i = i + 1;
    }
    out
}

/// Whether rows or an error can be the outcome of a lateral loop under encoded
/// predicates.
pub open spec fn lateral_loop_done(
    outers: Seq<Map<Seq<char>, nodedb_types::Value>>,
    inners: Seq<Map<Seq<char>, nodedb_types::Value>>,
    filters: Seq<u8>,
    pairs: Seq<(Seq<char>, Seq<char>)>,
    shape: ShapeView,
    cap: usize,
    outcome: Result<Seq<Map<Seq<char>, nodedb_types::Value>>, ErrorView>,
) -> bool {
    exists|passes: Seq<Seq<bool>>|
        judged_inner(filters, outers.len(), inners, passes) && outcome
            == #[trigger] lateral_spec(outers, inners, passes, pairs, shape, cap)
}

/// Whether this can be the outcome of a lateral loop under encoded predicates.
/// Too many outer rows are refused, and so are predicates that cannot be read and
/// rows that do not answer.
pub open spec fn loop_answered(
    outers: Seq<Map<Seq<char>, nodedb_types::Value>>,
    inners: Seq<Map<Seq<char>, nodedb_types::Value>>,
    filters: Seq<u8>,
    pairs: Seq<(Seq<char>, Seq<char>)>,
    shape: ShapeView,
    cap: usize,
    r: Result<Seq<Map<Seq<char>, nodedb_types::Value>>, ErrorView>,
) -> bool {
    if cap > 0 && outers.len() > cap {
        r is Err && r->Err_0 == ErrorView::Storage(cap_message(cap, outers.len()))
    } else if filters.len() > 0 && filter::decoded_filters(filters) is Err {
        r is Err && r->Err_0 == ErrorView::Serialization(
            "decode filters: "@ + filter::decoded_filters(filters)->Err_0,
        )
    } else if !askable_rows(filters, inners) || !all_comparable(outers, inners, pairs) {
        r is Err && r->Err_0 == ErrorView::BadRequest(filter::unanswered())
    } else {
        lateral_loop_done(outers, inners, filters, pairs, shape, cap, r)
    }
}

/// The pairs with their columns the other way round.
fn outer_first(pairs: &[(String, String)]) -> (r: Vec<(String, String)>)
    ensures
        correlation(r@) == inner_first(pairs@),
{
    let mut out: Vec<(String, String)> = Vec::new();
    let mut i: usize = 0;
    while i < pairs.len()
        invariant
            i <= pairs@.len(),
            out@.len() == i,
            forall|j: int|
                0 <= j < i ==> (#[trigger] out@[j]).0@ == pairs@[j].1@ && out@[j].1@
                    == pairs@[j].0@,
        decreases pairs@.len() - i,
    {
        out.push((pairs[i].1.as_str().to_owned(), pairs[i].0.as_str().to_owned()));
        i = i + 1;
    }
    proof {
        assert(correlation(out@) =~= inner_first(pairs@));
    }
    out
}

/// Joins each outer row with every inner row that passes encoded predicates and
/// goes with it. Without predicates every inner row passes. The pairs name the
/// inner column first.
pub fn execute_lateral_loop(
    outers: &[Record],
    inners: &[Record],
    inner_filters: &[u8],
    correlation_predicates: &[(String, String)],
    shape: &LateralShape,
    cap: usize,
) -> (r: Result<Vec<Record>, LiteError>)
    ensures
        loop_answered(
            record::records_view(outers@),
            record::records_view(inners@),
            inner_filters@,
            inner_first(correlation_predicates@),
            shape@,
            cap,
            record::outcome_view(r),
        ),
{
    if cap > 0 && outers.len() > cap {
        let shown = text::decimal_string(cap as u64);
        let got = text::decimal_string(outers.len() as u64);
        return Err(
            LiteError::Storage {
                detail: text::concat5(
                    "lateral loop outer_row_cap=",
                    shown.as_str(),
                    " exceeded: got ",
                    got.as_str(),
                    " outer rows",
                ),
            },
        );
    }
    let filters = match filter::read_filters(inner_filters, "decode filters: ") {
        Ok(f) => f,
        Err(e) => return Err(e),
    };
    let pairs = outer_first(correlation_predicates);
    if !can_ask_rows(inners, &filters, inner_filters) || !can_compare_all(
        outers,
        inners,
        pairs.as_slice(),
    ) {
        return Err(filter::no_answer());
    }
    let passes = judge_inner(outers.len(), inners, &filters, inner_filters);
    let r = lateral_loop(outers, inners, passes.as_slice(), pairs.as_slice(), shape, cap);
    proof {
        assert(lateral_loop_done(
            record::records_view(outers@),
            record::records_view(inners@),
            inner_filters@,
            inner_first(correlation_predicates@),
            shape@,
            cap,
            record::outcome_view(r),
        ));
    }
    r
}

/// Whether rows can be those of a lateral join with the top inner rows under
/// encoded predicates.
pub open spec fn lateral_top_k_done(
    outers: Seq<Map<Seq<char>, nodedb_types::Value>>,
    inners: Seq<Map<Seq<char>, nodedb_types::Value>>,
    filters: Seq<u8>,
    pairs: Seq<(Seq<char>, Seq<char>)>,
    keys: Seq<SortKey>,
    limit: usize,
    shape: ShapeView,
    out: Seq<Map<Seq<char>, nodedb_types::Value>>,
) -> bool {
    exists|passes: Seq<Seq<bool>>|
        judged_inner(filters, outers.len(), inners, passes) && #[trigger] top_k_done(
            outers,
            inners,
            passes,
            pairs,
            keys,
            limit,
            shape,
            out,
        )
}

/// Whether this can be the outcome of a lateral join with the top inner rows
/// under encoded predicates. Predicates that cannot be read are refused, and so
/// are rows that do not answer.
pub open spec fn top_k_answered(
    outers: Seq<Map<Seq<char>, nodedb_types::Value>>,
    inners: Seq<Map<Seq<char>, nodedb_types::Value>>,
    filters: Seq<u8>,
    pairs: Seq<(Seq<char>, Seq<char>)>,
    keys: Seq<SortKey>,
    limit: usize,
    shape: ShapeView,
    r: Result<Seq<Map<Seq<char>, nodedb_types::Value>>, ErrorView>,
) -> bool {
    if filters.len() > 0 && filter::decoded_filters(filters) is Err {
        r is Err && r->Err_0 == ErrorView::Serialization(
            "decode filters: "@ + filter::decoded_filters(filters)->Err_0,
        )
    } else if !askable_rows(filters, inners) || !all_comparable(outers, inners, pairs) {
        r is Err && r->Err_0 == ErrorView::BadRequest(filter::unanswered())
    } else {
        r is Ok && lateral_top_k_done(
            outers,
            inners,
            filters,
            pairs,
            keys,
            limit,
            shape,
            r->Ok_0,
        )
    }
}

/// Joins each outer row with the first inner rows, in the order of the keys,
/// that pass encoded predicates and go with it. A limit of zero keeps all of
/// them.
pub fn execute_lateral_top_k(
    outers: &[Record],
    inners: &[Record],
    inner_filters: &[u8],
    pairs: &[(String, String)],
    keys: &[SortKey],
    limit: usize,
    shape: &LateralShape,
) -> (r: Result<Vec<Record>, LiteError>)
    ensures
        top_k_answered(
            record::records_view(outers@),
            record::records_view(inners@),
            inner_filters@,
            correlation(pairs@),
            keys@,
            limit,
            shape@,
            record::outcome_view(r),
        ),
{
    let filters = match filter::read_filters(inner_filters, "decode filters: ") {
        Ok(f) => f,
        Err(e) => return Err(e),
    };
    if !can_ask_rows(inners, &filters, inner_filters) || !can_compare_all(outers, inners, pairs) {
        return Err(filter::no_answer());
    }
    let passes = judge_inner(outers.len(), inners, &filters, inner_filters);
    let out = lateral_top_k(outers, inners, passes.as_slice(), pairs, keys, limit, shape);
    proof {
        assert(lateral_top_k_done(
            record::records_view(outers@),
            record::records_view(inners@),
            inner_filters@,
            correlation(pairs@),
            keys@,
            limit,
            shape@,
            record::records_view(out@),
        ));
    }
    Ok(out)
}

/// A lateral left join keeps every outer row: each yields at least one row.
pub proof fn lateral_left_keeps_outer_rows(
    outer: Map<Seq<char>, nodedb_types::Value>,
    inners: Seq<Map<Seq<char>, nodedb_types::Value>>,
    shape: ShapeView,
)
    requires
        shape.left_join,
    ensures
        lateral_yield(outer, inners, shape).len() >= 1,
{
}

} // verus!
