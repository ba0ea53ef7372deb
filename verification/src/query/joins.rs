//! Joins by nested loops, for conditions that are no equalities.
use crate::error::{ErrorView, LiteError};
use crate::filter;
use crate::native;
use crate::query::record;
use crate::query::record::Record;
use crate::text;
use vstd::prelude::*;

verus! {

/// Two rows as one. The values of the right row win.
pub open spec fn merged(
    left: Map<Seq<char>, nodedb_types::Value>,
    right: Map<Seq<char>, nodedb_types::Value>,
) -> Map<Seq<char>, nodedb_types::Value> {
    left.union_prefer_right(right)
}

/// Makes two rows one.
pub fn merge_rows(left: &Record, right: &Record) -> (r: Record)
    ensures
        r@ == merged(left@, right@),
{
    let mut out = left.copy();
    out.extend(right);
    out
}

/// Whether one of the first `n` verdicts is positive.
pub open spec fn any_of(verdicts: Seq<bool>, n: int) -> bool {
    exists|i: int| 0 <= i < n && #[trigger] verdicts[i]
}

/// The left row with each of the first `n` right rows that match.
pub open spec fn matches_of(
    left: Map<Seq<char>, nodedb_types::Value>,
    rights: Seq<Map<Seq<char>, nodedb_types::Value>>,
    verdicts: Seq<bool>,
    n: int,
) -> Seq<Map<Seq<char>, nodedb_types::Value>>
    decreases n,
{
    if n <= 0 {
        Seq::empty()
    } else if verdicts[n - 1] {
        matches_of(left, rights, verdicts, n - 1).push(merged(left, rights[n - 1]))
    } else {
        matches_of(left, rights, verdicts, n - 1)
    }
}

/// The rows that a left row yields. A semi join keeps it once where something
/// matches, an anti join where nothing does, and an outer join keeps it on its
/// own where nothing does.
pub open spec fn left_yield(
    left: Map<Seq<char>, nodedb_types::Value>,
    rights: Seq<Map<Seq<char>, nodedb_types::Value>>,
    verdicts: Seq<bool>,
    join: Seq<char>,
) -> Seq<Map<Seq<char>, nodedb_types::Value>> {
    let found = any_of(verdicts, rights.len() as int);
    if join == "semi"@ {
        if found {
            seq![left]
        } else {
            Seq::empty()
        }
    } else if !found && (join == "anti"@ || join == "left"@ || join == "full"@) {
        seq![left]
    } else if join == "anti"@ {
        Seq::empty()
    } else {
        matches_of(left, rights, verdicts, rights.len() as int)
    }
}

/// The rows that the first `n` left rows yield, in order.
pub open spec fn left_yields(
    lefts: Seq<Map<Seq<char>, nodedb_types::Value>>,
    rights: Seq<Map<Seq<char>, nodedb_types::Value>>,
    verdicts: Seq<Seq<bool>>,
    join: Seq<char>,
    n: int,
) -> Seq<Map<Seq<char>, nodedb_types::Value>>
    decreases n,
{
    if n <= 0 {
        Seq::empty()
    } else {
        left_yields(lefts, rights, verdicts, join, n - 1) + left_yield(
            lefts[n - 1],
            rights,
            verdicts[n - 1],
            join,
        )
    }
}

/// Whether a right row matches one of the first `n` left rows.
pub open spec fn right_found(verdicts: Seq<Seq<bool>>, r: int, n: int) -> bool {
    exists|l: int| 0 <= l < n && (#[trigger] verdicts[l])[r]
}

/// The first `n` right rows that match no left row.
pub open spec fn right_yields(
    rights: Seq<Map<Seq<char>, nodedb_types::Value>>,
    verdicts: Seq<Seq<bool>>,
    lefts: int,
    n: int,
) -> Seq<Map<Seq<char>, nodedb_types::Value>>
    decreases n,
{
    if n <= 0 {
        Seq::empty()
    } else if right_found(verdicts, n - 1, lefts) {
        right_yields(rights, verdicts, lefts, n - 1)
    } else {
        right_yields(rights, verdicts, lefts, n - 1).push(rights[n - 1])
    }
}

/// Rows added one by one until the limit is reached. The limit is looked at
/// after each row, so that at least one row is added.
pub open spec fn appended(
    out: Seq<Map<Seq<char>, nodedb_types::Value>>,
    more: Seq<Map<Seq<char>, nodedb_types::Value>>,
    limit: nat,
) -> Seq<Map<Seq<char>, nodedb_types::Value>> {
    let room: int = if out.len() >= limit {
        1
    } else {
        limit - out.len()
    };
    if more.len() <= room {
        out + more
    } else {
        out + more.take(room)
    }
}

/// The limit of a join, where zero stands for none.
pub open spec fn limit_of(limit: usize) -> nat {
    if limit == 0 {
        usize::MAX as nat
    } else {
        limit as nat
    }
}

/// The rows of a join, given which pairs of rows match. The pairs are judged
/// once for the left rows and once more for the right rows of an outer join.
pub open spec fn joined(
    lefts: Seq<Map<Seq<char>, nodedb_types::Value>>,
    rights: Seq<Map<Seq<char>, nodedb_types::Value>>,
    verdicts: Seq<Seq<bool>>,
    again: Seq<Seq<bool>>,
    join: Seq<char>,
    limit: usize,
) -> Seq<Map<Seq<char>, nodedb_types::Value>> {
    let first = appended(
        Seq::empty(),
        left_yields(lefts, rights, verdicts, join, lefts.len() as int),
        limit_of(limit),
    );
    if join == "right"@ || join == "full"@ {
        appended(
            first,
            right_yields(rights, again, lefts.len() as int, rights.len() as int),
            limit_of(limit),
        )
    } else {
        first
    }
}

/// What judged pairs say.
pub open spec fn matrix_view(verdicts: Seq<Vec<bool>>) -> Seq<Seq<bool>> {
    verdicts.map_values(|v: Vec<bool>| v@)
}

/// Whether there is a verdict for each pair of rows.
pub open spec fn judges(verdicts: Seq<Seq<bool>>, lefts: nat, rights: nat) -> bool {
    verdicts.len() == lefts && forall|l: int|
        0 <= l < lefts ==> (#[trigger] verdicts[l]).len() == rights
}

/// Appends a row and says whether the limit is reached.
fn push_row(out: &mut Vec<Record>, row: Record, limit: usize) -> (r: bool)
    ensures
        record::records_view(final(out)@) == record::records_view(old(out)@).push(row@),
        r == (final(out)@.len() >= limit),
{
    let ghost before = record::records_view(out@);
    out.push(row);
    proof {
        assert(record::records_view(out@) =~= before.push(row@));
    }
    out.len() >= limit
}

/// The rows that a left row yields.
fn yield_left(left: &Record, rights: &[Record], verdicts: &Vec<bool>, join: &str) -> (r: Vec<
    Record,
>)
    requires
        verdicts@.len() == rights@.len(),
    ensures
        record::records_view(r@) == left_yield(
            left@,
            record::records_view(rights@),
            verdicts@,
            join@,
        ),
{
    let semi = text::str_eq(join, "semi");
    let anti = text::str_eq(join, "anti");
    let outer = text::str_eq(join, "left") || text::str_eq(join, "full");
    let ghost all = record::records_view(rights@);
    let mut out: Vec<Record> = Vec::new();
    let mut found: bool = false;
    let mut i: usize = 0;
    proof {
        assert(record::records_view(out@) =~= Seq::<
            Map<Seq<char>, nodedb_types::Value>,
        >::empty());
    }
    while i < rights.len()
        invariant
            i <= rights@.len(),
            verdicts@.len() == rights@.len(),
            all == record::records_view(rights@),
            found == any_of(verdicts@, i as int),
            record::records_view(out@) == (if semi || anti {
                Seq::<Map<Seq<char>, nodedb_types::Value>>::empty()
            } else {
                matches_of(left@, all, verdicts@, i as int)
            }),
        decreases rights@.len() - i,
    {
        if verdicts[i] {
            found = true;
            if !semi && !anti {
                push_row(&mut out, merge_rows(left, &rights[i]), 0);
            }
        } else {
            proof {
                if any_of(verdicts@, i as int + 1) {
                    let k = choose|k: int| 0 <= k < i + 1 && #[trigger] verdicts@[k];
                    assert(0 <= k < i && verdicts@[k]);
                }
            }
        }
        i = i + 1;
    }
    let kept: bool = if semi {
        found
    } else {
        !found && (anti || outer)
    };
    if kept {
        proof {
            if !found {
                lemma_no_match(left@, all, verdicts@, i as int);
            }
        }
        let mut single: Vec<Record> = Vec::new();
        single.push(left.copy());
        proof {
            assert(record::records_view(single@) =~= seq![left@]);
        }
        return single;
    }
    out
}

proof fn lemma_no_match(
    left: Map<Seq<char>, nodedb_types::Value>,
    rights: Seq<Map<Seq<char>, nodedb_types::Value>>,
    verdicts: Seq<bool>,
    n: int,
)
    requires
        !any_of(verdicts, n),
    ensures
        matches_of(left, rights, verdicts, n) == Seq::<
            Map<Seq<char>, nodedb_types::Value>,
        >::empty(),
    decreases n,
{
    if n > 0 {
        assert(!verdicts[n - 1]);
        assert(!any_of(verdicts, n - 1)) by {
            if any_of(verdicts, n - 1) {
                let k = choose|k: int| 0 <= k < n - 1 && #[trigger] verdicts[k];
                assert(0 <= k < n && verdicts[k]);
            }
        }
        lemma_no_match(left, rights, verdicts, n - 1);
    }
}

/// Appends rows until the limit is reached, and says whether it is.
fn push_rows(out: &mut Vec<Record>, more: Vec<Record>, limit: usize) -> (r: bool)
    requires
        limit > 0,
    ensures
        record::records_view(final(out)@) == appended(
            record::records_view(old(out)@),
            record::records_view(more@),
            limit as nat,
        ),
        r == (final(out)@.len() >= limit),
{
    let ghost start = record::records_view(out@);
    let ghost all = record::records_view(more@);
    let mut i: usize = 0;
    proof {
        assert(start + all.take(0) =~= start);
    }
    while i < more.len()
        invariant
            i <= more@.len(),
            limit > 0,
            start == record::records_view(old(out)@),
            all == record::records_view(more@),
            record::records_view(out@) == start + all.take(i as int),
            i > 0 ==> out@.len() < limit,
            i == 0 ==> out@.len() == start.len(),
        decreases more@.len() - i,
    {
        let full = push_row(out, more[i].copy(), limit);
        proof {
            assert((start + all.take(i as int)).push(all[i as int]) =~= start + all.take(
                i as int + 1,
            ));
        }
        i = i + 1;
        if full {
            proof {
                assert(record::records_view(out@).len() == start.len() + i);
                let room: int = if start.len() >= limit {
                    1
                } else {
                    limit - start.len()
                };
                assert(i == room);
                if all.len() <= room {
                    assert(all.take(i as int) =~= all);
                }
            }
            return true;
        }
    }
    proof {
        assert(all.take(i as int) =~= all);
    }
    out.len() >= limit
}

proof fn lemma_appended_more(
    a: Seq<Map<Seq<char>, nodedb_types::Value>>,
    b: Seq<Map<Seq<char>, nodedb_types::Value>>,
    limit: nat,
)
    requires
        limit > 0,
    ensures
        appended(Seq::empty(), a, limit).len() >= limit ==> appended(Seq::empty(), a + b, limit)
            == appended(Seq::empty(), a, limit),
        appended(Seq::empty(), a, limit).len() < limit ==> appended(Seq::empty(), a + b, limit)
            == appended(appended(Seq::empty(), a, limit), b, limit),
{
    let none = Seq::<Map<Seq<char>, nodedb_types::Value>>::empty();
    let first = appended(none, a, limit);
    if first.len() >= limit {
        assert(a.len() >= limit);
        assert((a + b).take(limit as int) =~= a.take(limit as int));
        if a.len() == limit {
            assert(a.take(limit as int) =~= a);
        }
        assert(none + a =~= a);
        if (a + b).len() <= limit {
            assert(a + b =~= a);
        }
    } else {
        assert(first =~= a);
        let room = limit - a.len();
        if b.len() <= room {
            assert(none + (a + b) =~= a + b);
        } else {
            assert((a + b).take(limit as int) =~= a + b.take(room));
            assert(none + (a + b).take(limit as int) =~= a + b.take(room));
        }
    }
}

proof fn lemma_appended_full(
    lefts: Seq<Map<Seq<char>, nodedb_types::Value>>,
    rights: Seq<Map<Seq<char>, nodedb_types::Value>>,
    verdicts: Seq<Seq<bool>>,
    join: Seq<char>,
    k: int,
    limit: nat,
)
    requires
        limit > 0,
        0 <= k <= lefts.len(),
        appended(Seq::empty(), left_yields(lefts, rights, verdicts, join, k), limit).len()
            >= limit,
    ensures
        appended(
            Seq::empty(),
            left_yields(lefts, rights, verdicts, join, lefts.len() as int),
            limit,
        ) == appended(Seq::empty(), left_yields(lefts, rights, verdicts, join, k), limit),
    decreases lefts.len() - k,
{
    if k < lefts.len() {
        lemma_appended_more(
            left_yields(lefts, rights, verdicts, join, k),
            left_yield(lefts[k], rights, verdicts[k], join),
            limit,
        );
        lemma_appended_full(lefts, rights, verdicts, join, k + 1, limit);
    }
}

/// The rows of a join, given which pairs of rows match.
pub fn nested_loop_join(
    lefts: &[Record],
    rights: &[Record],
    verdicts: &[Vec<bool>],
    again: &[Vec<bool>],
    join: &str,
    limit: usize,
) -> (r: Vec<Record>)
    requires
        judges(matrix_view(verdicts@), lefts@.len(), rights@.len()),
        judges(matrix_view(again@), lefts@.len(), rights@.len()),
    ensures
        record::records_view(r@) == joined(
            record::records_view(lefts@),
            record::records_view(rights@),
            matrix_view(verdicts@),
            matrix_view(again@),
            join@,
            limit,
        ),
{
    let effective: usize = if limit == 0 {
        usize::MAX
    } else {
        limit
    };
    let ghost ls = record::records_view(lefts@);
    let ghost rs = record::records_view(rights@);
    let ghost said = matrix_view(verdicts@);
    let ghost said_again = matrix_view(again@);
    let mut out: Vec<Record> = Vec::new();
    let mut i: usize = 0;
    let mut full: bool = false;
    proof {
        assert(record::records_view(out@) =~= appended(
            Seq::empty(),
            left_yields(ls, rs, said, join@, 0),
            effective as nat,
        ));
    }
    while i < lefts.len() && !full
        invariant
            i <= lefts@.len(),
            effective > 0,
            ls == record::records_view(lefts@),
            rs == record::records_view(rights@),
            said == matrix_view(verdicts@),
            judges(said, lefts@.len(), rights@.len()),
            full == (out@.len() >= effective),
            record::records_view(out@) == appended(
                Seq::empty(),
                left_yields(ls, rs, said, join@, i as int),
                effective as nat,
            ),
        decreases lefts@.len() - i,
    {
        proof {
            assert(said[i as int] == verdicts@[i as int]@);
            lemma_appended_more(
                left_yields(ls, rs, said, join@, i as int),
                left_yield(ls[i as int], rs, said[i as int], join@),
                effective as nat,
            );
        }
        let rows = yield_left(&lefts[i], rights, &verdicts[i], join);
        full = push_rows(&mut out, rows, effective);
        i = i + 1;
    }
    proof {
        if i < lefts@.len() {
            lemma_appended_full(ls, rs, said, join@, i as int, effective as nat);
        }
    }
    if text::str_eq(join, "right") || text::str_eq(join, "full") {
        let unmatched = yield_rights(lefts.len(), rights, again);
        push_rows(&mut out, unmatched, effective);
    }
    out
}

/// The right rows that match no left row.
fn yield_rights(lefts: usize, rights: &[Record], again: &[Vec<bool>]) -> (r: Vec<Record>)
    requires
        judges(matrix_view(again@), lefts as nat, rights@.len()),
    ensures
        record::records_view(r@) == right_yields(
            record::records_view(rights@),
            matrix_view(again@),
            lefts as int,
            rights@.len() as int,
        ),
{
    let ghost rs = record::records_view(rights@);
    let ghost said = matrix_view(again@);
    let mut out: Vec<Record> = Vec::new();
    let mut i: usize = 0;
    proof {
        assert(record::records_view(out@) =~= right_yields(rs, said, lefts as int, 0));
    }
    while i < rights.len()
        invariant
            i <= rights@.len(),
            rs == record::records_view(rights@),
            said == matrix_view(again@),
            judges(said, lefts as nat, rights@.len()),
            record::records_view(out@) == right_yields(rs, said, lefts as int, i as int),
        decreases rights@.len() - i,
    {
        let mut found: bool = false;
        let mut l: usize = 0;
        while l < lefts
            invariant
                l <= lefts,
                i < rights@.len(),
                said == matrix_view(again@),
                judges(said, lefts as nat, rights@.len()),
                found == right_found(said, i as int, l as int),
            decreases lefts - l,
        {
            proof {
                assert(said[l as int] == again@[l as int]@);
                assert(said[l as int].len() == rights@.len());
            }
            let now: bool = again[l][i];
            proof {
                if right_found(said, i as int, l as int + 1) {
                    let k = choose|k: int| 0 <= k < l + 1 && (#[trigger] said[k])[i as int];
                    if k < l {
                        assert(0 <= k < l && said[k][i as int]);
                    }
                }
                if right_found(said, i as int, l as int) {
                    let k = choose|k: int| 0 <= k < l && (#[trigger] said[k])[i as int];
                    assert(0 <= k < l + 1 && said[k][i as int]);
                }
                if now {
                    assert(said[l as int][i as int]);
                }
            }
            found = found || now;
            l = l + 1;
        }
        if !found {
            push_row(&mut out, rights[i].copy(), 0);
        }
        i = i + 1;
    }
    out
}

/// Whether verdicts can be those of a condition on every pair of rows.
pub open spec fn judged_pairs(
    condition: Seq<u8>,
    lefts: Seq<Map<Seq<char>, nodedb_types::Value>>,
    rights: Seq<Map<Seq<char>, nodedb_types::Value>>,
    verdicts: Seq<Seq<bool>>,
) -> bool {
    &&& judges(verdicts, lefts.len(), rights.len())
    &&& forall|l: int, j: int|
        0 <= l < lefts.len() && 0 <= j < rights.len() ==> filter::can_judge(
            condition,
            native::native_object(merged(lefts[l], rights[j])),
            #[trigger] verdicts[l][j],
        )
}

/// Whether every pair of rows answers a condition.
pub open spec fn askable_pairs(
    condition: Seq<u8>,
    lefts: Seq<Map<Seq<char>, nodedb_types::Value>>,
    rights: Seq<Map<Seq<char>, nodedb_types::Value>>,
) -> bool {
    forall|l: int, j: int|
        0 <= l < lefts.len() && 0 <= j < rights.len() ==> filter::can_ask(
            condition,
            native::native_object(#[trigger] merged(lefts[l], rights[j])),
        )
}

/// Whether every pair of rows answers a condition that was read from `bytes`.
fn can_ask_pairs(
    lefts: &[Record],
    rights: &[Record],
    condition: &Vec<nodedb_query::scan_filter::ScanFilter>,
    bytes: &[u8],
) -> (r: bool)
    requires
        condition@ == filter::filters_in(bytes@),
    ensures
        r == askable_pairs(
            bytes@,
            record::records_view(lefts@),
            record::records_view(rights@),
        ),
{
    let ghost ls = record::records_view(lefts@);
    let ghost rs = record::records_view(rights@);
    let mut i: usize = 0;
    while i < lefts.len()
        invariant
            i <= lefts@.len(),
            ls == record::records_view(lefts@),
            rs == record::records_view(rights@),
            condition@ == filter::filters_in(bytes@),
            forall|l: int, j: int|
                0 <= l < i && 0 <= j < rs.len() ==> filter::can_ask(
                    bytes@,
                    native::native_object(#[trigger] merged(ls[l], rs[j])),
                ),
        decreases lefts@.len() - i,
    {
        let mut k: usize = 0;
        while k < rights.len()
            invariant
                k <= rights@.len(),
                i < lefts@.len(),
                ls == record::records_view(lefts@),
                rs == record::records_view(rights@),
                condition@ == filter::filters_in(bytes@),
                forall|j: int|
                    0 <= j < k ==> filter::can_ask(
                        bytes@,
                        native::native_object(#[trigger] merged(ls[i as int], rs[j])),
                    ),
            decreases rights@.len() - k,
        {
            let doc = merge_rows(&lefts[i], &rights[k]).to_object();
            if !filter::can_answer_all(condition, &doc) {
                assert(!filter::can_ask(
                    bytes@,
                    native::native_object(merged(ls[i as int], rs[k as int])),
                ));
                return false;
            }
            k = k + 1;
        }
        i = i + 1;
    }
    true
}

/// Judges every pair of rows by a condition that was read from `bytes`.
fn judge_pairs(
    lefts: &[Record],
    rights: &[Record],
    condition: &Vec<nodedb_query::scan_filter::ScanFilter>,
    bytes: &[u8],
) -> (r: Vec<Vec<bool>>)
    requires
        condition@ == filter::filters_in(bytes@),
        askable_pairs(bytes@, record::records_view(lefts@), record::records_view(rights@)),
    ensures
        judged_pairs(
            bytes@,
            record::records_view(lefts@),
            record::records_view(rights@),
            matrix_view(r@),
        ),
{
    let ghost ls = record::records_view(lefts@);
    let ghost rs = record::records_view(rights@);
    let mut out: Vec<Vec<bool>> = Vec::new();
    let mut i: usize = 0;
    while i < lefts.len()
        invariant
            i <= lefts@.len(),
            ls == record::records_view(lefts@),
            rs == record::records_view(rights@),
            condition@ == filter::filters_in(bytes@),
            askable_pairs(bytes@, ls, rs),
            judges(matrix_view(out@), i as nat, rights@.len()),
            forall|l: int, j: int|
                0 <= l < i && 0 <= j < rs.len() ==> filter::can_judge(
                    bytes@,
                    native::native_object(merged(ls[l], rs[j])),
                    #[trigger] matrix_view(out@)[l][j],
                ),
        decreases lefts@.len() - i,
    {
        let mut line: Vec<bool> = Vec::new();
        let mut k: usize = 0;
        while k < rights.len()
            invariant
                k <= rights@.len(),
                i < lefts@.len(),
                ls == record::records_view(lefts@),
                rs == record::records_view(rights@),
                condition@ == filter::filters_in(bytes@),
                askable_pairs(bytes@, ls, rs),
                line@.len() == k,
                forall|j: int|
                    0 <= j < k ==> filter::can_judge(
                        bytes@,
                        native::native_object(merged(ls[i as int], rs[j])),
                        #[trigger] line@[j],
                    ),
            decreases rights@.len() - k,
        {
            let doc = merge_rows(&lefts[i], &rights[k]).to_object();
            proof {
                assert(filter::can_ask(
                    bytes@,
                    native::native_object(merged(ls[i as int], rs[k as int])),
                ));
            }
            line.push(filter::judge(condition, &doc));
            k = k + 1;
        }
        let ghost before = matrix_view(out@);
        out.push(line);
        proof {
            assert(matrix_view(out@) =~= before.push(line@));
            assert forall|l: int| 0 <= l < i + 1 implies (#[trigger] matrix_view(out@)[l]).len()
                == rights@.len() by {
                if l < i {
                    assert(before[l].len() == rights@.len());
                }
            }
            assert forall|l: int, j: int| 0 <= l < i + 1 && 0 <= j < rs.len() implies filter::can_judge(
                bytes@,
                native::native_object(merged(ls[l], rs[j])),
                #[trigger] matrix_view(out@)[l][j],
            ) by {
                if l < i {
                    assert(matrix_view(out@)[l][j] == before[l][j]);
                } else {
                    assert(matrix_view(out@)[l][j] == line@[j]);
                }
            }
        }
        i = i + 1;
    }
    out
}

/// Whether rows can be those of a join under a condition.
pub open spec fn join_done(
    lefts: Seq<Map<Seq<char>, nodedb_types::Value>>,
    rights: Seq<Map<Seq<char>, nodedb_types::Value>>,
    condition: Seq<u8>,
    join: Seq<char>,
    limit: usize,
    out: Seq<Map<Seq<char>, nodedb_types::Value>>,
) -> bool {
    exists|verdicts: Seq<Seq<bool>>, again: Seq<Seq<bool>>|
        judged_pairs(condition, lefts, rights, verdicts) && judged_pairs(
            condition,
            lefts,
            rights,
            again,
        ) && out == #[trigger] joined(lefts, rights, verdicts, again, join, limit)
}

/// Whether this can be the outcome of a join under a condition. One that cannot
/// be read is refused, and so is one that a pair of rows does not answer.
pub open spec fn join_answered(
    lefts: Seq<Map<Seq<char>, nodedb_types::Value>>,
    rights: Seq<Map<Seq<char>, nodedb_types::Value>>,
    condition: Seq<u8>,
    join: Seq<char>,
    limit: usize,
    r: Result<Seq<Map<Seq<char>, nodedb_types::Value>>, ErrorView>,
) -> bool {
    if condition.len() > 0 && filter::decoded_filters(condition) is Err {
        r is Err && r->Err_0 == ErrorView::Serialization(
            "decode nested loop condition: "@ + filter::decoded_filters(condition)->Err_0,
        )
    } else if !askable_pairs(condition, lefts, rights) {
        r is Err && r->Err_0 == ErrorView::BadRequest(filter::unanswered())
    } else {
        r is Ok && join_done(lefts, rights, condition, join, limit, r->Ok_0)
    }
}

/// Joins two lists of rows under an encoded condition. Without a condition
/// every pair matches.
pub fn execute_nested_loop_join(
    lefts: &[Record],
    rights: &[Record],
    condition: &[u8],
    join: &str,
    limit: usize,
) -> (r: Result<Vec<Record>, LiteError>)
    ensures
        join_answered(
            record::records_view(lefts@),
            record::records_view(rights@),
            condition@,
            join@,
            limit,
            record::outcome_view(r),
        ),
{
    let filters = match filter::read_filters(condition, "decode nested loop condition: ") {
        Ok(f) => f,
        Err(e) => return Err(e),
    };
    if !can_ask_pairs(lefts, rights, &filters, condition) {
        return Err(filter::no_answer());
    }
    let verdicts = judge_pairs(lefts, rights, &filters, condition);
    let again = judge_pairs(lefts, rights, &filters, condition);
    let out = nested_loop_join(
        lefts,
        rights,
        verdicts.as_slice(),
        again.as_slice(),
        join,
        limit,
    );
    proof {
        assert(join_done(
            record::records_view(lefts@),
            record::records_view(rights@),
            condition@,
            join@,
            limit,
            record::records_view(out@),
        ));
    }
    Ok(out)
}

/// A condition whose verdicts are settled determines the rows of a join.
pub proof fn settled_conditions_determine_a_join(
    lefts: Seq<Map<Seq<char>, nodedb_types::Value>>,
    rights: Seq<Map<Seq<char>, nodedb_types::Value>>,
    condition: Seq<u8>,
    join: Seq<char>,
    limit: usize,
    first: Seq<Map<Seq<char>, nodedb_types::Value>>,
    second: Seq<Map<Seq<char>, nodedb_types::Value>>,
)
    requires
        filter::settled(condition),
        join_done(lefts, rights, condition, join, limit, first),
        join_done(lefts, rights, condition, join, limit, second),
    ensures
        first == second,
{
    let (a, b) = choose|verdicts: Seq<Seq<bool>>, again: Seq<Seq<bool>>|
        judged_pairs(condition, lefts, rights, verdicts) && judged_pairs(
            condition,
            lefts,
            rights,
            again,
        ) && first == #[trigger] joined(lefts, rights, verdicts, again, join, limit);
    let (c, d) = choose|verdicts: Seq<Seq<bool>>, again: Seq<Seq<bool>>|
        judged_pairs(condition, lefts, rights, verdicts) && judged_pairs(
            condition,
            lefts,
            rights,
            again,
        ) && second == #[trigger] joined(lefts, rights, verdicts, again, join, limit);
    lemma_same_verdicts(condition, lefts, rights, a, c);
    lemma_same_verdicts(condition, lefts, rights, b, d);
}

proof fn lemma_same_verdicts(
    condition: Seq<u8>,
    lefts: Seq<Map<Seq<char>, nodedb_types::Value>>,
    rights: Seq<Map<Seq<char>, nodedb_types::Value>>,
    a: Seq<Seq<bool>>,
    b: Seq<Seq<bool>>,
)
    requires
        filter::settled(condition),
        judged_pairs(condition, lefts, rights, a),
        judged_pairs(condition, lefts, rights, b),
    ensures
        a == b,
{
    assert forall|l: int| 0 <= l < lefts.len() implies #[trigger] a[l] == b[l] by {
        assert(a[l].len() == rights.len());
        assert(b[l].len() == rights.len());
        assert forall|j: int| 0 <= j < rights.len() implies a[l][j] == b[l][j] by {
            let doc = native::native_object(merged(lefts[l], rights[j]));
            assert(filter::can_judge(condition, doc, a[l][j]));
            assert(filter::can_judge(condition, doc, b[l][j]));
        }
        assert(a[l] =~= b[l]);
    }
    assert(a =~= b);
}

proof fn lemma_split(
    lefts: Seq<Map<Seq<char>, nodedb_types::Value>>,
    rights: Seq<Map<Seq<char>, nodedb_types::Value>>,
    verdicts: Seq<Seq<bool>>,
    n: int,
)
    requires
        0 <= n <= lefts.len(),
    ensures
        left_yields(lefts, rights, verdicts, "semi"@, n).len() + left_yields(
            lefts,
            rights,
            verdicts,
            "anti"@,
            n,
        ).len() == n,
    decreases n,
{
    reveal_strlit("semi");
    reveal_strlit("anti");
    reveal_strlit("left");
    reveal_strlit("full");
    assert("semi"@[0] != "anti"@[0]);
    if n > 0 {
        lemma_split(lefts, rights, verdicts, n - 1);
    }
}

/// A semi join and an anti join divide the left rows between them: each left
/// row is in exactly one of the two.
pub proof fn semi_and_anti_divide(
    lefts: Seq<Map<Seq<char>, nodedb_types::Value>>,
    rights: Seq<Map<Seq<char>, nodedb_types::Value>>,
    verdicts: Seq<bool>,
    left: Map<Seq<char>, nodedb_types::Value>,
    all: Seq<Seq<bool>>,
)
    ensures
        left_yield(left, rights, verdicts, "semi"@) + left_yield(left, rights, verdicts, "anti"@)
            == seq![left],
        left_yields(lefts, rights, all, "semi"@, lefts.len() as int).len() + left_yields(
            lefts,
            rights,
            all,
            "anti"@,
            lefts.len() as int,
        ).len() == lefts.len(),
{
    reveal_strlit("semi");
    reveal_strlit("anti");
    assert("semi"@[0] != "anti"@[0]);
    assert(left_yield(left, rights, verdicts, "semi"@) + left_yield(
        left,
        rights,
        verdicts,
        "anti"@,
    ) =~= seq![left]);
    lemma_split(lefts, rights, all, lefts.len() as int);
}

/// A left join loses no left row: each yields at least one row.
pub proof fn left_join_keeps_left_rows(
    left: Map<Seq<char>, nodedb_types::Value>,
    rights: Seq<Map<Seq<char>, nodedb_types::Value>>,
    verdicts: Seq<bool>,
)
    ensures
        left_yield(left, rights, verdicts, "left"@).len() >= 1,
{
    reveal_strlit("semi");
    reveal_strlit("anti");
    reveal_strlit("left");
    assert("semi"@[0] != "left"@[0]);
    assert("anti"@[0] != "left"@[0]);
    if any_of(verdicts, rights.len() as int) {
        lemma_some_match(left, rights, verdicts, rights.len() as int);
    }
}

proof fn lemma_some_match(
    left: Map<Seq<char>, nodedb_types::Value>,
    rights: Seq<Map<Seq<char>, nodedb_types::Value>>,
    verdicts: Seq<bool>,
    n: int,
)
    requires
        any_of(verdicts, n),
    ensures
        matches_of(left, rights, verdicts, n).len() >= 1,
    decreases n,
{
    let k = choose|k: int| 0 <= k < n && #[trigger] verdicts[k];
    if k < n - 1 {
        assert(any_of(verdicts, n - 1)) by {
            assert(0 <= k < n - 1 && verdicts[k]);
        }
        lemma_some_match(left, rights, verdicts, n - 1);
    }
}

proof fn lemma_names_differ()
    ensures
        "semi"@ != "anti"@,
        "semi"@ != "left"@,
        "semi"@ != "inner"@,
        "anti"@ != "left"@,
        "anti"@ != "inner"@,
        "left"@ != "inner"@,
        "full"@ != "semi"@ && "full"@ != "anti"@ && "full"@ != "left"@ && "full"@ != "inner"@,
        "right"@ != "semi"@ && "right"@ != "anti"@ && "right"@ != "left"@ && "right"@ != "inner"@,
{
    reveal_strlit("semi");
    reveal_strlit("anti");
    reveal_strlit("left");
    reveal_strlit("inner");
    reveal_strlit("full");
    reveal_strlit("right");
    assert("semi"@[0] == 's' && "anti"@[0] == 'a' && "left"@[0] == 'l');
    assert("inner"@[0] == 'i' && "full"@[0] == 'f' && "right"@[0] == 'r');
}

proof fn lemma_parts(
    lefts: Seq<Map<Seq<char>, nodedb_types::Value>>,
    rights: Seq<Map<Seq<char>, nodedb_types::Value>>,
    verdicts: Seq<Seq<bool>>,
    n: int,
)
    requires
        0 <= n <= lefts.len(),
    ensures
        left_yields(lefts, rights, verdicts, "semi"@, n).to_multiset().add(
            left_yields(lefts, rights, verdicts, "anti"@, n).to_multiset(),
        ) =~= lefts.take(n).to_multiset(),
        left_yields(lefts, rights, verdicts, "inner"@, n).to_multiset().add(
            left_yields(lefts, rights, verdicts, "anti"@, n).to_multiset(),
        ) =~= left_yields(lefts, rights, verdicts, "left"@, n).to_multiset(),
    decreases n,
{
    lemma_names_differ();
    if n > 0 {
        lemma_parts(lefts, rights, verdicts, n - 1);
        let left = lefts[n - 1];
        let row = verdicts[n - 1];
        let semi = left_yield(left, rights, row, "semi"@);
        let anti = left_yield(left, rights, row, "anti"@);
        let inner = left_yield(left, rights, row, "inner"@);
        let outer = left_yield(left, rights, row, "left"@);
        if !any_of(row, rights.len() as int) {
            lemma_no_match(left, rights, row, rights.len() as int);
        }
        assert(semi + anti =~= seq![left]);
        assert(inner + anti =~= outer);
        assert(lefts.take(n) =~= lefts.take(n - 1) + seq![left]);
        vstd::seq_lib::lemma_multiset_commutative(semi, anti);
        vstd::seq_lib::lemma_multiset_commutative(inner, anti);
        vstd::seq_lib::lemma_multiset_commutative(lefts.take(n - 1), seq![left]);
        vstd::seq_lib::lemma_multiset_commutative(
            left_yields(lefts, rights, verdicts, "semi"@, n - 1),
            semi,
        );
        vstd::seq_lib::lemma_multiset_commutative(
            left_yields(lefts, rights, verdicts, "anti"@, n - 1),
            anti,
        );
        vstd::seq_lib::lemma_multiset_commutative(
            left_yields(lefts, rights, verdicts, "inner"@, n - 1),
            inner,
        );
        vstd::seq_lib::lemma_multiset_commutative(
            left_yields(lefts, rights, verdicts, "left"@, n - 1),
            outer,
        );
    } else {
        let none = Seq::<Map<Seq<char>, nodedb_types::Value>>::empty();
        assert(lefts.take(0) =~= none);
        vstd::seq_lib::lemma_multiset_commutative(none, none);
        assert(none + none =~= none);
    }
}

/// Whether a join of this kind yields no more rows than its limit lets through.
pub open spec fn uncut(
    lefts: Seq<Map<Seq<char>, nodedb_types::Value>>,
    rights: Seq<Map<Seq<char>, nodedb_types::Value>>,
    verdicts: Seq<Seq<bool>>,
    join: Seq<char>,
    limit: usize,
) -> bool {
    left_yields(lefts, rights, verdicts, join, lefts.len() as int).len() <= limit_of(limit)
}

/// The rows of a semi join and those of an anti join are, together, the left
/// rows.
pub proof fn semi_and_anti_are_the_left_side(
    lefts: Seq<Map<Seq<char>, nodedb_types::Value>>,
    rights: Seq<Map<Seq<char>, nodedb_types::Value>>,
    verdicts: Seq<Seq<bool>>,
    again: Seq<Seq<bool>>,
    limit: usize,
)
    requires
        uncut(lefts, rights, verdicts, "semi"@, limit),
        uncut(lefts, rights, verdicts, "anti"@, limit),
    ensures
        joined(lefts, rights, verdicts, again, "semi"@, limit).to_multiset().add(
            joined(lefts, rights, verdicts, again, "anti"@, limit).to_multiset(),
        ) == lefts.to_multiset(),
{
    lemma_names_differ();
    let n = lefts.len() as int;
    lemma_parts(lefts, rights, verdicts, n);
    assert(lefts.take(n) =~= lefts);
    let none = Seq::<Map<Seq<char>, nodedb_types::Value>>::empty();
    let semi = left_yields(lefts, rights, verdicts, "semi"@, n);
    let anti = left_yields(lefts, rights, verdicts, "anti"@, n);
    assert(none + semi =~= semi);
    assert(none + anti =~= anti);
}

/// The rows of a left join are those of an inner join and those of an anti join
/// together.
pub proof fn left_is_inner_and_anti(
    lefts: Seq<Map<Seq<char>, nodedb_types::Value>>,
    rights: Seq<Map<Seq<char>, nodedb_types::Value>>,
    verdicts: Seq<Seq<bool>>,
    again: Seq<Seq<bool>>,
    limit: usize,
)
    requires
        uncut(lefts, rights, verdicts, "left"@, limit),
        uncut(lefts, rights, verdicts, "inner"@, limit),
        uncut(lefts, rights, verdicts, "anti"@, limit),
    ensures
        joined(lefts, rights, verdicts, again, "inner"@, limit).to_multiset().add(
            joined(lefts, rights, verdicts, again, "anti"@, limit).to_multiset(),
        ) == joined(lefts, rights, verdicts, again, "left"@, limit).to_multiset(),
{
    lemma_names_differ();
    let n = lefts.len() as int;
    lemma_parts(lefts, rights, verdicts, n);
    let none = Seq::<Map<Seq<char>, nodedb_types::Value>>::empty();
    let inner = left_yields(lefts, rights, verdicts, "inner"@, n);
    let anti = left_yields(lefts, rights, verdicts, "anti"@, n);
    let outer = left_yields(lefts, rights, verdicts, "left"@, n);
    assert(none + inner =~= inner);
    assert(none + anti =~= anti);
    assert(none + outer =~= outer);
}

/// Whether a pair of rows meets a settled condition.
pub open spec fn meets(
    condition: Seq<u8>,
    left: Map<Seq<char>, nodedb_types::Value>,
    right: Map<Seq<char>, nodedb_types::Value>,
) -> bool {
    filter::all_hold(filter::filters_in(condition), native::native_object(merged(left, right)))
}

/// Whether a left row meets a condition with one of the right rows.
pub open spec fn meets_any(
    condition: Seq<u8>,
    left: Map<Seq<char>, nodedb_types::Value>,
    rights: Seq<Map<Seq<char>, nodedb_types::Value>>,
) -> bool {
    exists|j: int| 0 <= j < rights.len() && meets(condition, left, #[trigger] rights[j])
}

/// The pairs of a left row with the right rows that it meets a condition with,
/// merged.
pub open spec fn met_pairs(
    condition: Seq<u8>,
    left: Map<Seq<char>, nodedb_types::Value>,
    rights: Seq<Map<Seq<char>, nodedb_types::Value>>,
) -> Seq<Map<Seq<char>, nodedb_types::Value>>
    decreases rights.len(),
{
    if rights.len() == 0 {
        Seq::empty()
    } else if meets(condition, left, rights.last()) {
        met_pairs(condition, left, rights.drop_last()).push(merged(left, rights.last()))
    } else {
        met_pairs(condition, left, rights.drop_last())
    }
}

/// The pairs of rows that meet a condition, merged, in the order of the left
/// rows and then of the right rows.
pub open spec fn all_met_pairs(
    condition: Seq<u8>,
    lefts: Seq<Map<Seq<char>, nodedb_types::Value>>,
    rights: Seq<Map<Seq<char>, nodedb_types::Value>>,
) -> Seq<Map<Seq<char>, nodedb_types::Value>>
    decreases lefts.len(),
{
    if lefts.len() == 0 {
        Seq::empty()
    } else {
        all_met_pairs(condition, lefts.drop_last(), rights) + met_pairs(
            condition,
            lefts.last(),
            rights,
        )
    }
}

proof fn lemma_met_row(
    condition: Seq<u8>,
    left: Map<Seq<char>, nodedb_types::Value>,
    rights: Seq<Map<Seq<char>, nodedb_types::Value>>,
    verdicts: Seq<bool>,
    n: int,
)
    requires
        0 <= n <= rights.len(),
        forall|j: int|
            0 <= j < rights.len() ==> #[trigger] verdicts[j] == meets(condition, left, rights[j]),
    ensures
        matches_of(left, rights, verdicts, n) == met_pairs(condition, left, rights.take(n)),
        any_of(verdicts, n) == meets_any(condition, left, rights.take(n)),
    decreases n,
{
    if n > 0 {
        lemma_met_row(condition, left, rights, verdicts, n - 1);
        assert(rights.take(n).drop_last() =~= rights.take(n - 1));
        assert(verdicts[n - 1] == meets(condition, left, rights[n - 1]));
    }
    if any_of(verdicts, n) {
        let k = choose|k: int| 0 <= k < n && #[trigger] verdicts[k];
        assert(meets(condition, left, rights.take(n)[k]));
    }
    if meets_any(condition, left, rights.take(n)) {
        let k = choose|k: int|
            0 <= k < rights.take(n).len() && meets(condition, left, #[trigger] rights.take(n)[k]);
        assert(verdicts[k]);
    }
}

proof fn lemma_met_rows(
    condition: Seq<u8>,
    lefts: Seq<Map<Seq<char>, nodedb_types::Value>>,
    rights: Seq<Map<Seq<char>, nodedb_types::Value>>,
    verdicts: Seq<Seq<bool>>,
    n: int,
)
    requires
        0 <= n <= lefts.len(),
        filter::settled(condition),
        judged_pairs(condition, lefts, rights, verdicts),
    ensures
        left_yields(lefts, rights, verdicts, "semi"@, n) == lefts.take(n).filter(
            |l: Map<Seq<char>, nodedb_types::Value>| meets_any(condition, l, rights),
        ),
        left_yields(lefts, rights, verdicts, "anti"@, n) == lefts.take(n).filter(
            |l: Map<Seq<char>, nodedb_types::Value>| !meets_any(condition, l, rights),
        ),
        left_yields(lefts, rights, verdicts, "inner"@, n) == all_met_pairs(
            condition,
            lefts.take(n),
            rights,
        ),
    decreases n,
{
    lemma_names_differ();
    reveal(Seq::filter);
    let met = |l: Map<Seq<char>, nodedb_types::Value>| meets_any(condition, l, rights);
    let unmet = |l: Map<Seq<char>, nodedb_types::Value>| !meets_any(condition, l, rights);
    if n > 0 {
        lemma_met_rows(condition, lefts, rights, verdicts, n - 1);
        let left = lefts[n - 1];
        let row = verdicts[n - 1];
        assert forall|j: int| 0 <= j < rights.len() implies #[trigger] row[j] == meets(
            condition,
            left,
            rights[j],
        ) by {
            assert(filter::can_judge(
                condition,
                native::native_object(merged(left, rights[j])),
                verdicts[n - 1][j],
            ));
        }
        lemma_met_row(condition, left, rights, row, rights.len() as int);
        assert(rights.take(rights.len() as int) =~= rights);
        assert(lefts.take(n).drop_last() =~= lefts.take(n - 1));
        assert(lefts.take(n).last() == left);
        assert(left_yields(lefts, rights, verdicts, "semi"@, n) =~= lefts.take(n).filter(met));
        assert(left_yields(lefts, rights, verdicts, "anti"@, n) =~= lefts.take(n).filter(unmet));
    } else {
        assert(lefts.take(0).filter(met) =~= Seq::empty());
        assert(lefts.take(0).filter(unmet) =~= Seq::empty());
    }
}

proof fn lemma_whole(
    lefts: Seq<Map<Seq<char>, nodedb_types::Value>>,
    rights: Seq<Map<Seq<char>, nodedb_types::Value>>,
    condition: Seq<u8>,
    join: Seq<char>,
    verdicts: Seq<Seq<bool>>,
    out: Seq<Map<Seq<char>, nodedb_types::Value>>,
)
    requires
        filter::settled(condition),
        judged_pairs(condition, lefts, rights, verdicts),
        join_done(lefts, rights, condition, join, 0, out),
        join != "right"@ && join != "full"@,
        out.len() < usize::MAX,
    ensures
        out == left_yields(lefts, rights, verdicts, join, lefts.len() as int),
{
    let (a, b) = choose|a: Seq<Seq<bool>>, b: Seq<Seq<bool>>|
        judged_pairs(condition, lefts, rights, a) && judged_pairs(condition, lefts, rights, b)
            && out == #[trigger] joined(lefts, rights, a, b, join, 0);
    lemma_same_verdicts(condition, lefts, rights, a, verdicts);
    let all = left_yields(lefts, rights, verdicts, join, lefts.len() as int);
    let none = Seq::<Map<Seq<char>, nodedb_types::Value>>::empty();
    assert(none + all =~= all);
    if all.len() > usize::MAX {
        assert((none + all.take(usize::MAX as int)).len() == usize::MAX);
    }
}

/// Joins of the same rows on one settled condition, which every pair of rows
/// answers, belong together. The semi join keeps each left row that meets the
/// condition with some right row, the anti join each that meets it with none, so
/// that the two are the left rows together. The inner join yields one merged row
/// for each pair that meets the condition, and the left join yields its rows and
/// those of the anti join. Without a condition every pair meets it. A list in
/// memory is shorter than the greatest index.
pub proof fn joins_on_one_condition(
    lefts: Seq<Map<Seq<char>, nodedb_types::Value>>,
    rights: Seq<Map<Seq<char>, nodedb_types::Value>>,
    condition: Seq<u8>,
    semi: Result<Seq<Map<Seq<char>, nodedb_types::Value>>, ErrorView>,
    anti: Result<Seq<Map<Seq<char>, nodedb_types::Value>>, ErrorView>,
    inner: Result<Seq<Map<Seq<char>, nodedb_types::Value>>, ErrorView>,
    left: Result<Seq<Map<Seq<char>, nodedb_types::Value>>, ErrorView>,
)
    requires
        condition.len() == 0 || filter::decoded_filters(condition) is Ok,
        filter::settled(condition),
        askable_pairs(condition, lefts, rights),
        join_answered(lefts, rights, condition, "semi"@, 0, semi),
        join_answered(lefts, rights, condition, "anti"@, 0, anti),
        join_answered(lefts, rights, condition, "inner"@, 0, inner),
        join_answered(lefts, rights, condition, "left"@, 0, left),
        semi is Ok ==> semi->Ok_0.len() < usize::MAX,
        anti is Ok ==> anti->Ok_0.len() < usize::MAX,
        inner is Ok ==> inner->Ok_0.len() < usize::MAX,
        left is Ok ==> left->Ok_0.len() < usize::MAX,
    ensures
        semi is Ok && anti is Ok && inner is Ok && left is Ok,
        semi->Ok_0 == lefts.filter(
            |l: Map<Seq<char>, nodedb_types::Value>| meets_any(condition, l, rights),
        ),
        anti->Ok_0 == lefts.filter(
            |l: Map<Seq<char>, nodedb_types::Value>| !meets_any(condition, l, rights),
        ),
        semi->Ok_0.to_multiset().add(anti->Ok_0.to_multiset()) == lefts.to_multiset(),
        inner->Ok_0 == all_met_pairs(condition, lefts, rights),
        left->Ok_0.to_multiset() == inner->Ok_0.to_multiset().add(anti->Ok_0.to_multiset()),
        condition.len() == 0 ==> forall|l: int, j: int|
            0 <= l < lefts.len() && 0 <= j < rights.len() ==> #[trigger] meets(
                condition,
                lefts[l],
                rights[j],
            ),
{
    lemma_names_differ();
    let n = lefts.len() as int;
    let (verdicts, again) = choose|a: Seq<Seq<bool>>, b: Seq<Seq<bool>>|
        judged_pairs(condition, lefts, rights, a) && judged_pairs(condition, lefts, rights, b)
            && semi->Ok_0 == #[trigger] joined(lefts, rights, a, b, "semi"@, 0);
    lemma_whole(lefts, rights, condition, "semi"@, verdicts, semi->Ok_0);
    lemma_whole(lefts, rights, condition, "anti"@, verdicts, anti->Ok_0);
    lemma_whole(lefts, rights, condition, "inner"@, verdicts, inner->Ok_0);
    lemma_whole(lefts, rights, condition, "left"@, verdicts, left->Ok_0);
    lemma_met_rows(condition, lefts, rights, verdicts, n);
    lemma_parts(lefts, rights, verdicts, n);
    assert(lefts.take(n) =~= lefts);
}

proof fn lemma_unmet_rights(
    condition: Seq<u8>,
    lefts: Seq<Map<Seq<char>, nodedb_types::Value>>,
    rights: Seq<Map<Seq<char>, nodedb_types::Value>>,
    verdicts: Seq<Seq<bool>>,
    n: int,
)
    requires
        0 <= n <= rights.len(),
        filter::settled(condition),
        judged_pairs(condition, lefts, rights, verdicts),
    ensures
        right_yields(rights, verdicts, lefts.len() as int, n) == rights.take(n).filter(
            |r: Map<Seq<char>, nodedb_types::Value>| !met_by_any(condition, lefts, r),
        ),
    decreases n,
{
    reveal(Seq::filter);
    let unmet = |r: Map<Seq<char>, nodedb_types::Value>| !met_by_any(condition, lefts, r);
    if n > 0 {
        lemma_unmet_rights(condition, lefts, rights, verdicts, n - 1);
        let right = rights[n - 1];
        assert(rights.take(n).drop_last() =~= rights.take(n - 1));
        assert(rights.take(n).last() == right);
        assert forall|l: int| 0 <= l < lefts.len() implies #[trigger] verdicts[l][n - 1] == meets(
            condition,
            lefts[l],
            right,
        ) by {
            assert(filter::can_judge(
                condition,
                native::native_object(merged(lefts[l], rights[n - 1])),
                verdicts[l][n - 1],
            ));
        }
        if right_found(verdicts, n - 1, lefts.len() as int) {
            let l = choose|l: int| 0 <= l < lefts.len() && (#[trigger] verdicts[l])[n - 1];
            assert(meets(condition, lefts[l], right));
        }
        if met_by_any(condition, lefts, right) {
            let l = choose|l: int|
                0 <= l < lefts.len() && meets(condition, #[trigger] lefts[l], right);
            assert(verdicts[l][n - 1]);
        }
        assert(right_yields(rights, verdicts, lefts.len() as int, n) =~= rights.take(n).filter(
            unmet,
        ));
    } else {
        assert(rights.take(0).filter(unmet) =~= Seq::empty());
    }
}

/// Whether a right row meets a condition with one of the left rows.
pub open spec fn met_by_any(
    condition: Seq<u8>,
    lefts: Seq<Map<Seq<char>, nodedb_types::Value>>,
    right: Map<Seq<char>, nodedb_types::Value>,
) -> bool {
    exists|l: int| 0 <= l < lefts.len() && meets(condition, #[trigger] lefts[l], right)
}

proof fn lemma_whole_outer(
    lefts: Seq<Map<Seq<char>, nodedb_types::Value>>,
    rights: Seq<Map<Seq<char>, nodedb_types::Value>>,
    condition: Seq<u8>,
    join: Seq<char>,
    verdicts: Seq<Seq<bool>>,
    out: Seq<Map<Seq<char>, nodedb_types::Value>>,
)
    requires
        filter::settled(condition),
        judged_pairs(condition, lefts, rights, verdicts),
        join_done(lefts, rights, condition, join, 0, out),
        join == "right"@ || join == "full"@,
        out.len() < usize::MAX,
    ensures
        out == left_yields(lefts, rights, verdicts, join, lefts.len() as int) + right_yields(
            rights,
            verdicts,
            lefts.len() as int,
            rights.len() as int,
        ),
{
    let (a, b) = choose|a: Seq<Seq<bool>>, b: Seq<Seq<bool>>|
        judged_pairs(condition, lefts, rights, a) && judged_pairs(condition, lefts, rights, b)
            && out == #[trigger] joined(lefts, rights, a, b, join, 0);
    lemma_same_verdicts(condition, lefts, rights, a, verdicts);
    lemma_same_verdicts(condition, lefts, rights, b, verdicts);
    let all = left_yields(lefts, rights, verdicts, join, lefts.len() as int);
    let none = Seq::<Map<Seq<char>, nodedb_types::Value>>::empty();
    assert(none + all =~= all);
    if all.len() > usize::MAX {
        assert((none + all.take(usize::MAX as int)).len() == usize::MAX);
    }
}

proof fn lemma_same_side(
    lefts: Seq<Map<Seq<char>, nodedb_types::Value>>,
    rights: Seq<Map<Seq<char>, nodedb_types::Value>>,
    verdicts: Seq<Seq<bool>>,
    n: int,
)
    ensures
        left_yields(lefts, rights, verdicts, "right"@, n) == left_yields(
            lefts,
            rights,
            verdicts,
            "inner"@,
            n,
        ),
        left_yields(lefts, rights, verdicts, "full"@, n) == left_yields(
            lefts,
            rights,
            verdicts,
            "left"@,
            n,
        ),
    decreases n,
{
    lemma_names_differ();
    reveal_strlit("right");
    reveal_strlit("full");
    assert("right"@[0] == 'r' && "full"@[0] == 'f');
    if n > 0 {
        lemma_same_side(lefts, rights, verdicts, n - 1);
    }
}

/// Outer joins of the same rows on one settled condition, which every pair of rows
/// answers. A right join yields the rows of the inner join and exactly the right
/// rows that meet the condition with no left row; a full join yields the rows of
/// the left join and those same right rows. So a right row is on its own only where
/// it matches nothing. A list in memory is shorter than the greatest index.
pub proof fn outer_joins_keep_what_matches_nothing(
    lefts: Seq<Map<Seq<char>, nodedb_types::Value>>,
    rights: Seq<Map<Seq<char>, nodedb_types::Value>>,
    condition: Seq<u8>,
    inner: Result<Seq<Map<Seq<char>, nodedb_types::Value>>, ErrorView>,
    left: Result<Seq<Map<Seq<char>, nodedb_types::Value>>, ErrorView>,
    right: Result<Seq<Map<Seq<char>, nodedb_types::Value>>, ErrorView>,
    full: Result<Seq<Map<Seq<char>, nodedb_types::Value>>, ErrorView>,
)
    requires
        condition.len() == 0 || filter::decoded_filters(condition) is Ok,
        filter::settled(condition),
        askable_pairs(condition, lefts, rights),
        join_answered(lefts, rights, condition, "inner"@, 0, inner),
        join_answered(lefts, rights, condition, "left"@, 0, left),
        join_answered(lefts, rights, condition, "right"@, 0, right),
        join_answered(lefts, rights, condition, "full"@, 0, full),
        inner is Ok ==> inner->Ok_0.len() < usize::MAX,
        left is Ok ==> left->Ok_0.len() < usize::MAX,
        right is Ok ==> right->Ok_0.len() < usize::MAX,
        full is Ok ==> full->Ok_0.len() < usize::MAX,
    ensures
        inner is Ok && left is Ok && right is Ok && full is Ok,
        ({
            let alone = rights.filter(
                |r: Map<Seq<char>, nodedb_types::Value>| !met_by_any(condition, lefts, r),
            );
            &&& right->Ok_0 == inner->Ok_0 + alone
            &&& full->Ok_0 == left->Ok_0 + alone
            &&& right->Ok_0.to_multiset() == inner->Ok_0.to_multiset().add(alone.to_multiset())
            &&& full->Ok_0.to_multiset() == left->Ok_0.to_multiset().add(alone.to_multiset())
        }),
        inner->Ok_0 == all_met_pairs(condition, lefts, rights),
{
    lemma_names_differ();
    let n = lefts.len() as int;
    let (verdicts, again) = choose|a: Seq<Seq<bool>>, b: Seq<Seq<bool>>|
        judged_pairs(condition, lefts, rights, a) && judged_pairs(condition, lefts, rights, b)
            && inner->Ok_0 == #[trigger] joined(lefts, rights, a, b, "inner"@, 0);
    lemma_whole(lefts, rights, condition, "inner"@, verdicts, inner->Ok_0);
    lemma_whole(lefts, rights, condition, "left"@, verdicts, left->Ok_0);
    lemma_whole_outer(lefts, rights, condition, "right"@, verdicts, right->Ok_0);
    lemma_whole_outer(lefts, rights, condition, "full"@, verdicts, full->Ok_0);
    lemma_same_side(lefts, rights, verdicts, n);
    lemma_unmet_rights(condition, lefts, rights, verdicts, rights.len() as int);
    lemma_met_rows(condition, lefts, rights, verdicts, n);
    assert(rights.take(rights.len() as int) =~= rights);
    assert(lefts.take(n) =~= lefts);
    let alone = rights.filter(
        |r: Map<Seq<char>, nodedb_types::Value>| !met_by_any(condition, lefts, r),
    );
    vstd::seq_lib::lemma_multiset_commutative(inner->Ok_0, alone);
    vstd::seq_lib::lemma_multiset_commutative(left->Ok_0, alone);
}

/// A merged row has the names of both rows. Where both have a name, the value of
/// the right row counts.
pub proof fn merged_rows_hold_both(
    left: Map<Seq<char>, nodedb_types::Value>,
    right: Map<Seq<char>, nodedb_types::Value>,
    name: Seq<char>,
)
    ensures
        merged(left, right).dom().contains(name) == (left.dom().contains(name)
            || right.dom().contains(name)),
        right.dom().contains(name) ==> merged(left, right)[name] == right[name],
        left.dom().contains(name) && !right.dom().contains(name) ==> merged(left, right)[name]
            == left[name],
{
}

/// A limit cuts an inner, left, semi or anti join short: what comes out is the
/// beginning of what comes out without one, as long as the limit lets it be.
pub proof fn limited_join_is_a_beginning(
    lefts: Seq<Map<Seq<char>, nodedb_types::Value>>,
    rights: Seq<Map<Seq<char>, nodedb_types::Value>>,
    condition: Seq<u8>,
    join: Seq<char>,
    limit: usize,
    whole: Seq<Map<Seq<char>, nodedb_types::Value>>,
    cut: Seq<Map<Seq<char>, nodedb_types::Value>>,
)
    requires
        filter::settled(condition),
        join != "right"@ && join != "full"@,
        limit > 0,
        join_done(lefts, rights, condition, join, 0, whole),
        join_done(lefts, rights, condition, join, limit, cut),
        whole.len() < usize::MAX,
    ensures
        cut == if whole.len() <= limit {
            whole
        } else {
            whole.take(limit as int)
        },
{
    let (a, b) = choose|a: Seq<Seq<bool>>, b: Seq<Seq<bool>>|
        judged_pairs(condition, lefts, rights, a) && judged_pairs(condition, lefts, rights, b)
            && cut == #[trigger] joined(lefts, rights, a, b, join, limit);
    lemma_whole(lefts, rights, condition, join, a, whole);
    let none = Seq::<Map<Seq<char>, nodedb_types::Value>>::empty();
    assert(none + whole =~= whole);
    if whole.len() > limit {
        assert(none + whole.take(limit as int) =~= whole.take(limit as int));
    }
}

} // verus!
