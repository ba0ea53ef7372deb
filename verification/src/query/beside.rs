//! Which inner rows a lateral join sets beside an outer row, and under which
//! names.
use crate::error::LiteError;
use crate::filter;
use crate::native;
use crate::query::lateral;
use crate::query::lateral::LateralShape;
use crate::query::record;
use crate::query::record::Record;
use crate::query::sort::SortKey;
use crate::value::DatumView;
use vstd::prelude::*;

verus! {

/// A row by the names of its values.
pub type Row = Map<Seq<char>, nodedb_types::Value>;

/// Whether a row meets every predicate that bytes encode. No bytes encode none.
pub open spec fn meets(filters: Seq<u8>, row: Row) -> bool {
    filters.len() == 0 || forall|i: int|
        0 <= i < filter::decoded_filters(filters)->Ok_0.len() ==> filter::filter_holds(
            #[trigger] filter::decoded_filters(filters)->Ok_0[i],
            native::native_object(row),
        )
}

/// Whether an inner column equals an outer column. An outer column that is not
/// there counts as null.
pub open spec fn pairs_up(
    outer: Row,
    inner: Row,
    outer_column: Seq<char>,
    inner_column: Seq<char>,
) -> bool {
    filter::equals_holds(
        native::native_object(inner),
        inner_column,
        if outer.dom().contains(outer_column) {
            outer[outer_column]
        } else {
            native::native_of(DatumView::Null)
        },
    )
}

/// The inner rows that go with an outer row, of pairs that name the inner column
/// first.
pub open spec fn mates(
    outer: Row,
    inners: Seq<Row>,
    filters: Seq<u8>,
    pairs: Seq<(String, String)>,
) -> Seq<Row> {
    inners.filter(
        |inner: Row|
            meets(filters, inner) && forall|i: int|
                0 <= i < pairs.len() ==> pairs_up(outer, inner, (#[trigger] pairs[i]).1@, pairs[i].0@),
    )
}

/// The inner rows that go with an outer row, of pairs that name the outer column
/// first.
pub open spec fn partners(
    outer: Row,
    inners: Seq<Row>,
    filters: Seq<u8>,
    pairs: Seq<(String, String)>,
) -> Seq<Row> {
    inners.filter(
        |inner: Row|
            meets(filters, inner) && forall|i: int|
                0 <= i < pairs.len() ==> pairs_up(outer, inner, (#[trigger] pairs[i]).0@, pairs[i].1@),
    )
}

/// Whether a row is another one with an alias and a dot before every name, or
/// the same where there is no alias.
pub open spec fn renamed(row: Row, alias: Seq<char>, out: Row) -> bool {
    if alias.len() == 0 {
        out == row
    } else {
        &&& forall|name: Seq<char>|
            #![trigger row.dom().contains(name)]
            row.dom().contains(name) ==> out.dom().contains(alias + seq!['.'] + name) && out[alias
                + seq!['.'] + name] == row[name]
        &&& forall|long: Seq<char>| #[trigger]
            out.dom().contains(long) ==> exists|name: Seq<char>| #[trigger]
                row.dom().contains(name) && long == alias + seq!['.'] + name
    }
}

/// Whether a row holds all of two others, the second one winning where both have
/// a name.
pub open spec fn holds_both(a: Row, b: Row, out: Row) -> bool {
    &&& forall|name: Seq<char>| #[trigger]
        out.dom().contains(name) <==> a.dom().contains(name) || b.dom().contains(name)
    &&& forall|name: Seq<char>|
        #![trigger b.dom().contains(name)]
        b.dom().contains(name) ==> out[name] == b[name]
    &&& forall|name: Seq<char>|
        #![trigger a.dom().contains(name)]
        a.dom().contains(name) && !b.dom().contains(name) ==> out[name] == a[name]
}

/// Whether a row sets an inner row beside an outer one, under their aliases.
pub open spec fn set_beside(
    outer: Row,
    inner: Row,
    outer_alias: Seq<char>,
    inner_alias: Seq<char>,
    out: Row,
) -> bool {
    exists|a: Row, b: Row| #[trigger]
        renamed(outer, outer_alias, a) && #[trigger] renamed(inner, inner_alias, b) && holds_both(
            a,
            b,
            out,
        )
}

/// Whether rows are an outer row beside each of its inner rows, in order. Without
/// inner rows the outer row stands alone where it is kept.
pub open spec fn beside(
    outer: Row,
    inners: Seq<Row>,
    shape: LateralShape,
    out: Seq<Row>,
) -> bool {
    &&& inners.len() == 0 && shape.left_join ==> out.len() == 1 && renamed(
        outer,
        shape.outer_alias@,
        out[0],
    )
    &&& inners.len() == 0 && !shape.left_join ==> out.len() == 0
    &&& inners.len() > 0 ==> out.len() == inners.len() && forall|i: int|
        0 <= i < inners.len() ==> set_beside(
            outer,
            inners[i],
            shape.outer_alias@,
            shape.lateral_alias@,
            #[trigger] out[i],
        )
}

/// Rows one list after the other.
pub open spec fn strung(parts: Seq<Seq<Row>>) -> Seq<Row>
    decreases parts.len(),
{
    if parts.len() == 0 {
        Seq::empty()
    } else {
        strung(parts.drop_last()) + parts.last()
    }
}

proof fn lemma_renamed(row: Row, alias: Seq<char>)
    ensures
        renamed(row, alias, record::qualified_by(row, alias)),
{
    reveal_strlit(".");
    assert("."@ =~= seq!['.']);
    let out = record::qualified_by(row, alias);
    if alias.len() > 0 {
        assert forall|name: Seq<char>|
            #![trigger row.dom().contains(name)]
            row.dom().contains(name) implies out.dom().contains(alias + seq!['.'] + name)
            && out[alias + seq!['.'] + name] == row[name] by {
            let long = alias + seq!['.'] + name;
            assert(long.take((alias + "."@).len() as int) =~= alias + "."@);
            assert(long.skip(alias.len() as int + 1) =~= name);
        }
        assert forall|long: Seq<char>| #[trigger] out.dom().contains(long) implies exists|
            name: Seq<char>,
        | #[trigger] row.dom().contains(name) && long == alias + seq!['.'] + name by {
            let name = long.skip(alias.len() as int + 1);
            assert(row.dom().contains(name));
            assert(long =~= long.take(alias.len() as int + 1) + name);
            assert(long == alias + seq!['.'] + name);
        }
    }
}

proof fn lemma_beside(outer: Row, inners: Seq<Row>, shape: LateralShape)
    ensures
        beside(outer, inners, shape, lateral::lateral_yield(outer, inners, shape@)),
{
    lemma_renamed(outer, shape.outer_alias@);
    let a = record::qualified_by(outer, shape.outer_alias@);
    let out = lateral::lateral_yield(outer, inners, shape@);
    if inners.len() > 0 {
        assert forall|i: int| 0 <= i < inners.len() implies set_beside(
            outer,
            inners[i],
            shape.outer_alias@,
            shape.lateral_alias@,
            #[trigger] out[i],
        ) by {
            lemma_renamed(inners[i], shape.lateral_alias@);
            let b = record::qualified_by(inners[i], shape.lateral_alias@);
            assert(holds_both(a, b, out[i]));
        }
    }
}

spec fn yields_of(
    outers: Seq<Row>,
    chosen: Seq<Seq<Row>>,
    shape: LateralShape,
) -> Seq<Seq<Row>> {
    Seq::new(outers.len(), |l: int| lateral::lateral_yield(outers[l], chosen[l], shape@))
}

proof fn lemma_strung(
    outers: Seq<Row>,
    chosen: Seq<Seq<Row>>,
    shape: LateralShape,
    n: int,
)
    requires
        0 <= n <= outers.len(),
        chosen.len() == outers.len(),
    ensures
        lateral::lateral_yields(outers, chosen, shape@, n) == strung(
            yields_of(outers, chosen, shape).take(n),
        ),
    decreases n,
{
    let parts = yields_of(outers, chosen, shape);
    if n > 0 {
        lemma_strung(outers, chosen, shape, n - 1);
        assert(parts.take(n).drop_last() =~= parts.take(n - 1));
        assert(parts.take(n).last() == parts[n - 1]);
    } else {
        assert(parts.take(0) =~= Seq::<Seq<Row>>::empty());
    }
}

proof fn lemma_meets(filters: Seq<u8>, row: Row, verdict: bool)
    requires
        filter::settled(filters),
        filter::can_judge(filters, native::native_object(row), verdict),
    ensures
        verdict == meets(filters, row),
{
    assert(verdict == filter::all_hold(filter::filters_in(filters), native::native_object(row)));
}

proof fn lemma_chosen(
    outer: Row,
    inners: Seq<Row>,
    filters: Seq<u8>,
    passes: Seq<bool>,
    pairs: Seq<(Seq<char>, Seq<char>)>,
    p: spec_fn(Row) -> bool,
    n: int,
)
    requires
        0 <= n <= inners.len(),
        filter::settled(filters),
        forall|j: int|
            0 <= j < inners.len() ==> filter::can_judge(
                filters,
                native::native_object(inners[j]),
                #[trigger] passes[j],
            ),
        forall|inner: Row| #[trigger]
            p(inner) <==> meets(filters, inner) && lateral::correlated(outer, inner, pairs),
    ensures
        lateral::inner_rows(outer, inners, passes, pairs, n) == inners.take(n).filter(p),
    decreases n,
{
    reveal(Seq::filter);
    if n > 0 {
        lemma_chosen(outer, inners, filters, passes, pairs, p, n - 1);
        assert(inners.take(n).drop_last() =~= inners.take(n - 1));
        assert(inners.take(n).last() == inners[n - 1]);
        lemma_meets(filters, inners[n - 1], passes[n - 1]);
        assert(p(inners[n - 1]) <==> meets(filters, inners[n - 1]) && lateral::correlated(
            outer,
            inners[n - 1],
            pairs,
        ));
    }
}

proof fn lemma_mates(
    outer: Row,
    inners: Seq<Row>,
    filters: Seq<u8>,
    passes: Seq<bool>,
    pairs: Seq<(String, String)>,
)
    requires
        filter::settled(filters),
        forall|j: int|
            0 <= j < inners.len() ==> filter::can_judge(
                filters,
                native::native_object(inners[j]),
                #[trigger] passes[j],
            ),
    ensures
        lateral::inner_rows(
            outer,
            inners,
            passes,
            lateral::inner_first(pairs),
            inners.len() as int,
        ) == mates(outer, inners, filters, pairs),
{
    let p = |inner: Row|
        meets(filters, inner) && forall|i: int|
            0 <= i < pairs.len() ==> pairs_up(outer, inner, (#[trigger] pairs[i]).1@, pairs[i].0@);
    let cols = lateral::inner_first(pairs);
    assert forall|inner: Row| #[trigger] p(inner) <==> meets(filters, inner)
        && lateral::correlated(outer, inner, cols) by {
        if lateral::correlated(outer, inner, cols) {
            assert forall|i: int| 0 <= i < pairs.len() implies pairs_up(
                outer,
                inner,
                (#[trigger] pairs[i]).1@,
                pairs[i].0@,
            ) by {
                assert(cols[i] == (pairs[i].1@, pairs[i].0@));
            }
        }
        if p(inner) {
            assert forall|i: int| 0 <= i < cols.len() implies filter::equals_holds(
                native::native_object(inner),
                (#[trigger] cols[i]).1,
                native::field_or_null(outer, cols[i].0),
            ) by {
                assert(pairs_up(outer, inner, pairs[i].1@, pairs[i].0@));
            }
        }
    }
    lemma_chosen(outer, inners, filters, passes, cols, p, inners.len() as int);
    assert(inners.take(inners.len() as int) =~= inners);
}

proof fn lemma_partners(
    outer: Row,
    inners: Seq<Row>,
    filters: Seq<u8>,
    passes: Seq<bool>,
    pairs: Seq<(String, String)>,
)
    requires
        filter::settled(filters),
        forall|j: int|
            0 <= j < inners.len() ==> filter::can_judge(
                filters,
                native::native_object(inners[j]),
                #[trigger] passes[j],
            ),
    ensures
        lateral::inner_rows(
            outer,
            inners,
            passes,
            lateral::correlation(pairs),
            inners.len() as int,
        ) == partners(outer, inners, filters, pairs),
{
    let p = |inner: Row|
        meets(filters, inner) && forall|i: int|
            0 <= i < pairs.len() ==> pairs_up(outer, inner, (#[trigger] pairs[i]).0@, pairs[i].1@);
    let cols = lateral::correlation(pairs);
    assert forall|inner: Row| #[trigger] p(inner) <==> meets(filters, inner)
        && lateral::correlated(outer, inner, cols) by {
        if lateral::correlated(outer, inner, cols) {
            assert forall|i: int| 0 <= i < pairs.len() implies pairs_up(
                outer,
                inner,
                (#[trigger] pairs[i]).0@,
                pairs[i].1@,
            ) by {
                assert(cols[i] == (pairs[i].0@, pairs[i].1@));
            }
        }
        if p(inner) {
            assert forall|i: int| 0 <= i < cols.len() implies filter::equals_holds(
                native::native_object(inner),
                (#[trigger] cols[i]).1,
                native::field_or_null(outer, cols[i].0),
            ) by {
                assert(pairs_up(outer, inner, pairs[i].0@, pairs[i].1@));
            }
        }
    }
    lemma_chosen(outer, inners, filters, passes, cols, p, inners.len() as int);
    assert(inners.take(inners.len() as int) =~= inners);
}

/// Whether rows are those of a lateral loop: each outer row, in order, beside the
/// inner rows that go with it.
pub open spec fn loops(
    outers: Seq<Row>,
    inners: Seq<Row>,
    filters: Seq<u8>,
    pairs: Seq<(String, String)>,
    shape: LateralShape,
    parts: Seq<Seq<Row>>,
) -> bool {
    parts.len() == outers.len() && forall|l: int|
        0 <= l < outers.len() ==> beside(
            outers[l],
            mates(outers[l], inners, filters, pairs),
            shape,
            #[trigger] parts[l],
        )
}

/// A lateral loop sets each outer row, in order, beside exactly the inner rows
/// that meet the predicates and equal it in the paired columns. More outer rows
/// than the cap allows are refused.
pub proof fn loop_sets_rows_beside_their_mates(
    outers: &[Record],
    inners: &[Record],
    filters: &[u8],
    pairs: &[(String, String)],
    shape: &LateralShape,
    cap: usize,
    r: Result<Vec<Record>, LiteError>,
)
    requires
        filter::settled(filters@),
        call_ensures(lateral::execute_lateral_loop, (outers, inners, filters, pairs, shape, cap), r),
    ensures
        cap > 0 && outers@.len() > cap ==> r is Err,
        r is Ok ==> exists|parts: Seq<Seq<Row>>|
            #[trigger] loops(
                record::records_view(outers@),
                record::records_view(inners@),
                filters@,
                pairs@,
                *shape,
                parts,
            ) && record::records_view(r->Ok_0@) == strung(parts),
{
    if r is Ok {
        let os = record::records_view(outers@);
        let is = record::records_view(inners@);
        let cols = lateral::inner_first(pairs@);
        let outcome = record::outcome_view(r);
        let passes = choose|passes: Seq<Seq<bool>>|
            lateral::judged_inner(filters@, os.len(), is, passes) && outcome
                == #[trigger] lateral::lateral_spec(os, is, passes, cols, shape@, cap);
        let chosen = lateral::chosen_rows(os, is, passes, cols);
        let parts = yields_of(os, chosen, *shape);
        lemma_strung(os, chosen, *shape, os.len() as int);
        assert(parts.take(os.len() as int) =~= parts);
        assert forall|l: int| 0 <= l < os.len() implies beside(
            os[l],
            mates(os[l], is, filters@, pairs@),
            *shape,
            #[trigger] parts[l],
        ) by {
            assert forall|j: int| 0 <= j < is.len() implies filter::can_judge(
                filters@,
                native::native_object(is[j]),
                #[trigger] passes[l][j],
            ) by {}
            lemma_mates(os[l], is, filters@, passes[l], pairs@);
            lemma_beside(os[l], chosen[l], *shape);
        }
        assert(loops(os, is, filters@, pairs@, *shape, parts));
    }
}

/// Whether rows are those of a lateral join with the top inner rows: each outer
/// row, in order, beside the first of the inner rows that go with it.
pub open spec fn tops(
    outers: Seq<Row>,
    inners: Seq<Row>,
    filters: Seq<u8>,
    pairs: Seq<(String, String)>,
    keys: Seq<SortKey>,
    limit: usize,
    shape: LateralShape,
    chosen: Seq<Seq<Row>>,
    parts: Seq<Seq<Row>>,
) -> bool {
    &&& parts.len() == outers.len()
    &&& chosen.len() == outers.len()
    &&& forall|l: int|
        0 <= l < outers.len() ==> lateral::top_of(
            partners(outers[l], inners, filters, pairs),
            keys,
            limit,
            #[trigger] chosen[l],
        )
    &&& forall|l: int|
        0 <= l < outers.len() ==> beside(outers[l], chosen[l], shape, #[trigger] parts[l])
}

/// A lateral join with the top inner rows sets each outer row, in order, beside
/// the first, in the order of the keys, of exactly the inner rows that meet the
/// predicates and equal it in the paired columns.
pub proof fn top_join_sets_rows_beside_their_partners(
    outers: &[Record],
    inners: &[Record],
    filters: &[u8],
    pairs: &[(String, String)],
    keys: &[SortKey],
    limit: usize,
    shape: &LateralShape,
    r: Result<Vec<Record>, LiteError>,
)
    requires
        filter::settled(filters@),
        call_ensures(
            lateral::execute_lateral_top_k,
            (outers, inners, filters, pairs, keys, limit, shape),
            r,
        ),
    ensures
        r is Ok ==> exists|chosen: Seq<Seq<Row>>, parts: Seq<Seq<Row>>|
            #[trigger] tops(
                record::records_view(outers@),
                record::records_view(inners@),
                filters@,
                pairs@,
                keys@,
                limit,
                *shape,
                chosen,
                parts,
            ) && record::records_view(r->Ok_0@) == strung(parts),
{
    if r is Ok {
        let os = record::records_view(outers@);
        let is = record::records_view(inners@);
        let cols = lateral::correlation(pairs@);
        let out = record::outcome_view(r)->Ok_0;
        assert(lateral::lateral_top_k_done(os, is, filters@, cols, keys@, limit, shape@, out));
        let passes = choose|passes: Seq<Seq<bool>>|
            lateral::judged_inner(filters@, os.len(), is, passes) && #[trigger] lateral::top_k_done(
                os,
                is,
                passes,
                cols,
                keys@,
                limit,
                shape@,
                out,
            );
        let chosen = choose|chosen: Seq<Seq<Row>>|
            #[trigger] lateral::top_rows(os, is, passes, cols, keys@, limit, chosen) && out
                == lateral::lateral_yields(os, chosen, shape@, os.len() as int);
        let parts = yields_of(os, chosen, *shape);
        lemma_strung(os, chosen, *shape, os.len() as int);
        assert(parts.take(os.len() as int) =~= parts);
        assert forall|l: int| 0 <= l < os.len() implies lateral::top_of(
            partners(os[l], is, filters@, pairs@),
            keys@,
            limit,
            #[trigger] chosen[l],
        ) by {
            assert forall|j: int| 0 <= j < is.len() implies filter::can_judge(
                filters@,
                native::native_object(is[j]),
                #[trigger] passes[l][j],
            ) by {}
            lemma_partners(os[l], is, filters@, passes[l], pairs@);
        }
        assert forall|l: int| 0 <= l < os.len() implies beside(
            os[l],
            chosen[l],
            *shape,
            #[trigger] parts[l],
        ) by {
            lemma_beside(os[l], chosen[l], *shape);
        }
        assert(tops(os, is, filters@, pairs@, keys@, limit, *shape, chosen, parts));
    }
}

/// A lateral join that pairs no columns, has no predicates and stays within its
/// cap is never refused.
pub proof fn plain_lateral_joins_are_accepted(
    outers: &[Record],
    inners: &[Record],
    filters: &[u8],
    pairs: &[(String, String)],
    keys: &[SortKey],
    limit: usize,
    shape: &LateralShape,
    cap: usize,
    looped: Result<Vec<Record>, LiteError>,
    topped: Result<Vec<Record>, LiteError>,
)
    requires
        filters@.len() == 0,
        pairs@.len() == 0,
        call_ensures(
            lateral::execute_lateral_loop,
            (outers, inners, filters, pairs, shape, cap),
            looped,
        ),
        call_ensures(
            lateral::execute_lateral_top_k,
            (outers, inners, filters, pairs, keys, limit, shape),
            topped,
        ),
    ensures
        cap == 0 || outers@.len() <= cap ==> looped is Ok,
        topped is Ok,
{
}

} // verus!
