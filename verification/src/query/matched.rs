//! Which rows a nested-loop join yields for each left row.
use crate::error::LiteError;
use crate::filter;
use crate::native;
use crate::query::beside;
use crate::query::beside::Row;
use crate::query::joins;
use crate::query::record;
use crate::query::record::Record;
use vstd::prelude::*;

verus! {

/// The right rows that meet a condition together with a left row.
pub open spec fn mates(condition: Seq<u8>, left: Row, rights: Seq<Row>) -> Seq<Row> {
    rights.filter(|right: Row| beside::meets(condition, left.union_prefer_right(right)))
}

/// Whether rows are a left row joined with each of the right rows, in order.
pub open spec fn joined_with(left: Row, rights: Seq<Row>, out: Seq<Row>) -> bool {
    out.len() == rights.len() && forall|i: int|
        0 <= i < rights.len() ==> beside::holds_both(left, rights[i], #[trigger] out[i])
}

/// Whether rows are those that a left row yields: by itself where a semi join
/// finds a right row or an anti join finds none, otherwise joined with each right
/// row it finds, and alone in a left join that finds none.
pub open spec fn yields(
    join: Seq<char>,
    condition: Seq<u8>,
    left: Row,
    rights: Seq<Row>,
    out: Seq<Row>,
) -> bool {
    let found = mates(condition, left, rights);
    if join == "semi"@ {
        out == if found.len() > 0 {
            seq![left]
        } else {
            Seq::empty()
        }
    } else if join == "anti"@ {
        out == if found.len() > 0 {
            Seq::empty()
        } else {
            seq![left]
        }
    } else if join == "left"@ && found.len() == 0 {
        out == seq![left]
    } else {
        joined_with(left, found, out)
    }
}

proof fn lemma_matches(
    condition: Seq<u8>,
    left: Row,
    rights: Seq<Row>,
    verdicts: Seq<bool>,
    n: int,
)
    requires
        0 <= n <= rights.len(),
        forall|j: int|
            0 <= j < rights.len() ==> #[trigger] verdicts[j] == beside::meets(
                condition,
                left.union_prefer_right(rights[j]),
            ),
    ensures
        joined_with(
            left,
            mates(condition, left, rights.take(n)),
            joins::matches_of(left, rights, verdicts, n),
        ),
        joins::any_of(verdicts, n) <==> mates(condition, left, rights.take(n)).len() > 0,
    decreases n,
{
    reveal(Seq::filter);
    if n > 0 {
        lemma_matches(condition, left, rights, verdicts, n - 1);
        assert(rights.take(n).drop_last() =~= rights.take(n - 1));
        assert(rights.take(n).last() == rights[n - 1]);
        assert(verdicts[n - 1] == beside::meets(
            condition,
            left.union_prefer_right(rights[n - 1]),
        ));
        let before = mates(condition, left, rights.take(n - 1));
        let found = mates(condition, left, rights.take(n));
        let rows = joins::matches_of(left, rights, verdicts, n);
        if verdicts[n - 1] {
            assert(found == before.push(rights[n - 1]));
            assert(beside::holds_both(left, rights[n - 1], rows.last()));
        } else {
            assert(found == before);
        }
        if joins::any_of(verdicts, n) {
            let i = choose|i: int| 0 <= i < n && #[trigger] verdicts[i];
            if i < n - 1 {
                assert(joins::any_of(verdicts, n - 1));
            }
        }
        if joins::any_of(verdicts, n - 1) {
            let i = choose|i: int| 0 <= i < n - 1 && #[trigger] verdicts[i];
            assert(joins::any_of(verdicts, n));
        }
    } else {
        assert(rights.take(0) =~= Seq::<Row>::empty());
    }
}

spec fn parts_of(
    lefts: Seq<Row>,
    rights: Seq<Row>,
    verdicts: Seq<Seq<bool>>,
    join: Seq<char>,
) -> Seq<Seq<Row>> {
    Seq::new(lefts.len(), |l: int| joins::left_yield(lefts[l], rights, verdicts[l], join))
}

proof fn lemma_strung(
    lefts: Seq<Row>,
    rights: Seq<Row>,
    verdicts: Seq<Seq<bool>>,
    join: Seq<char>,
    n: int,
)
    requires
        0 <= n <= lefts.len(),
    ensures
        joins::left_yields(lefts, rights, verdicts, join, n) == beside::strung(
            parts_of(lefts, rights, verdicts, join).take(n),
        ),
    decreases n,
{
    let parts = parts_of(lefts, rights, verdicts, join);
    if n > 0 {
        lemma_strung(lefts, rights, verdicts, join, n - 1);
        assert(parts.take(n).drop_last() =~= parts.take(n - 1));
        assert(parts.take(n).last() == parts[n - 1]);
    } else {
        assert(parts.take(0) =~= Seq::<Seq<Row>>::empty());
    }
}

/// Whether rows are those of a join, list by list for each left row.
pub open spec fn joins_lists(
    lefts: Seq<Row>,
    rights: Seq<Row>,
    condition: Seq<u8>,
    join: Seq<char>,
    parts: Seq<Seq<Row>>,
) -> bool {
    parts.len() == lefts.len() && forall|l: int|
        0 <= l < lefts.len() ==> yields(join, condition, lefts[l], rights, #[trigger] parts[l])
}

/// An inner, left, semi or anti join goes through the left rows in order. Each
/// yields exactly what the right rows that meet the condition with it call for.
/// Without a condition every pair of rows matches, and no join is refused.
pub proof fn join_goes_through_the_left_rows(
    lefts: &[Record],
    rights: &[Record],
    condition: &[u8],
    join: &str,
    limit: usize,
    r: Result<Vec<Record>, LiteError>,
)
    requires
        filter::settled(condition@),
        join@ != "right"@ && join@ != "full"@,
        limit == 0,
        call_ensures(
            joins::execute_nested_loop_join,
            (lefts, rights, condition, join, limit),
            r,
        ),
        r is Ok ==> r->Ok_0@.len() < usize::MAX,
    ensures
        condition@.len() == 0 ==> r is Ok,
        r is Ok ==> exists|parts: Seq<Seq<Row>>|
            #[trigger] joins_lists(
                record::records_view(lefts@),
                record::records_view(rights@),
                condition@,
                join@,
                parts,
            ) && record::records_view(r->Ok_0@) == beside::strung(parts),
{
    if r is Ok {
        let ls = record::records_view(lefts@);
        let rs = record::records_view(rights@);
        let out = record::outcome_view(r)->Ok_0;
        assert(out.len() == r->Ok_0@.len());
        assert(joins::join_done(ls, rs, condition@, join@, limit, out));
        let (verdicts, again) = choose|verdicts: Seq<Seq<bool>>, again: Seq<Seq<bool>>|
            joins::judged_pairs(condition@, ls, rs, verdicts) && joins::judged_pairs(
                condition@,
                ls,
                rs,
                again,
            ) && out == #[trigger] joins::joined(ls, rs, verdicts, again, join@, limit);
        let all = joins::left_yields(ls, rs, verdicts, join@, ls.len() as int);
        assert(out =~= all);
        let parts = parts_of(ls, rs, verdicts, join@);
        lemma_strung(ls, rs, verdicts, join@, ls.len() as int);
        assert(parts.take(ls.len() as int) =~= parts);
        assert forall|l: int| 0 <= l < ls.len() implies yields(
            join@,
            condition@,
            ls[l],
            rs,
            #[trigger] parts[l],
        ) by {
            assert forall|j: int| 0 <= j < rs.len() implies #[trigger] verdicts[l][j]
                == beside::meets(condition@, ls[l].union_prefer_right(rs[j])) by {
                let doc = native::native_object(joins::merged(ls[l], rs[j]));
                assert(filter::can_judge(condition@, doc, verdicts[l][j]));
                assert(verdicts[l][j] == filter::all_hold(filter::filters_in(condition@), doc));
            }
            lemma_matches(condition@, ls[l], rs, verdicts[l], rs.len() as int);
            assert(rs.take(rs.len() as int) =~= rs);
            reveal_strlit("semi");
            reveal_strlit("anti");
            reveal_strlit("left");
            assert("semi"@[0] == 's' && "anti"@[0] == 'a' && "left"@[0] == 'l');
        }
        assert(joins_lists(ls, rs, condition@, join@, parts));
    }
}

} // verus!
