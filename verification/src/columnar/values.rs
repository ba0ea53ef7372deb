//! What the values of fields in line protocol stand for, and which lines hold no
//! row.
use crate::chars;
use crate::columnar::ilp;
use crate::native;
use crate::text;
use crate::value::DatumView;
use vstd::prelude::*;

verus! {

proof fn lemma_decimal(n: nat)
    ensures
        text::decimal(n).len() > 0,
        forall|i: int|
            0 <= i < text::decimal(n).len() ==> '0' <= #[trigger] text::decimal(n)[i] <= '9',
        ilp::digits_value(text::decimal(n)) == Some(n),
    decreases n,
{
    if n < 10 {
        let s = text::decimal(n);
        assert(s.drop_last() =~= Seq::<char>::empty());
        reveal_with_fuel(ilp::digits_value, 2);
    } else {
        lemma_decimal(n / 10);
        let s = text::decimal(n);
        assert(s.drop_last() =~= text::decimal(n / 10));
        assert(s.last() as int - '0' as int == n % 10);
    }
}

pub(crate) proof fn lemma_signed_decimal(n: i64)
    ensures
        ilp::int_of(text::signed_decimal(n as int)) == Some(n),
{
    let s = text::signed_decimal(n as int);
    if n < 0 {
        reveal_strlit("-");
        let m = (-(n as int)) as nat;
        lemma_decimal(m);
        assert(s[0] == '-');
        assert(s.skip(1) =~= text::decimal(m));
    } else {
        lemma_decimal(n as nat);
        assert('0' <= s[0] <= '9');
    }
}

/// An integer in decimal notation, followed by an `i`, is read as that integer.
pub proof fn written_integer_is_read(n: i64)
    ensures
        ilp::field_value(text::signed_decimal(n as int).push('i')) == native::native_of(
            DatumView::Integer(n),
        ),
{
    let s = text::signed_decimal(n as int);
    lemma_signed_decimal(n);
    assert(s.push('i').drop_last() =~= s);
}

/// A text with a backslash before every quote.
pub open spec fn escaped(s: Seq<char>) -> Seq<char>
    decreases s.len(),
{
    if s.len() == 0 {
        Seq::empty()
    } else if s[0] == '"' {
        seq!['\\', '"'] + escaped(s.skip(1))
    } else {
        seq![s[0]] + escaped(s.skip(1))
    }
}

proof fn lemma_escaped(s: Seq<char>)
    ensures
        ilp::unquoted(escaped(s)) == s,
        escaped(s).len() > 0 ==> escaped(s)[0] != '"',
    decreases s.len(),
{
    let e = escaped(s);
    if s.len() > 0 {
        let rest = s.skip(1);
        lemma_escaped(rest);
        if s[0] == '"' {
            assert(e[0] == '\\' && e[1] == '"');
            assert(e.skip(2) =~= escaped(rest));
            assert(seq!['"'] + rest =~= s);
        } else {
            assert(e[0] == s[0]);
            assert(e.skip(1) =~= escaped(rest));
            if e.len() >= 2 {
                assert(e[1] == escaped(rest)[0]);
            }
            assert(seq![s[0]] + rest =~= s);
        }
    } else {
        assert(e =~= Seq::<char>::empty());
        assert(s =~= Seq::<char>::empty());
    }
}

/// The spellings of a boolean.
pub open spec fn spelled(b: bool) -> Seq<Seq<char>> {
    if b {
        seq!["true"@, "True"@, "TRUE"@, "t"@, "T"@]
    } else {
        seq!["false"@, "False"@, "FALSE"@, "f"@, "F"@]
    }
}

proof fn lemma_spellings()
    ensures
        forall|b: bool, i: int|
            0 <= i < 5 ==> (#[trigger] spelled(b)[i]).len() > 0 && spelled(b)[i].last() != 'i'
                && spelled(b)[i][0] != '"',
        forall|i: int, j: int|
            0 <= i < 5 && 0 <= j < 5 ==> #[trigger] spelled(true)[i] != #[trigger] spelled(false)[j],
{
    reveal_strlit("true");
    reveal_strlit("True");
    reveal_strlit("TRUE");
    reveal_strlit("t");
    reveal_strlit("T");
    reveal_strlit("false");
    reveal_strlit("False");
    reveal_strlit("FALSE");
    reveal_strlit("f");
    reveal_strlit("F");
    assert(spelled(true).len() == 5 && spelled(false).len() == 5);
    assert forall|b: bool, i: int| 0 <= i < 5 implies (#[trigger] spelled(b)[i]).len() > 0
        && spelled(b)[i].last() != 'i' && spelled(b)[i][0] != '"' by {
        if i == 0 {
        } else if i == 1 {
        } else if i == 2 {
        } else if i == 3 {
        } else {
        }
    }
    assert forall|i: int| 0 <= i < 5 implies (#[trigger] spelled(true)[i])[0] == 't'
        || spelled(true)[i][0] == 'T' by {
        if i == 0 {
        } else if i == 1 {
        } else if i == 2 {
        } else if i == 3 {
        } else {
        }
    }
    assert forall|j: int| 0 <= j < 5 implies (#[trigger] spelled(false)[j])[0] == 'f'
        || spelled(false)[j][0] == 'F' by {
        if j == 0 {
        } else if j == 1 {
        } else if j == 2 {
        } else if j == 3 {
        } else {
        }
    }
}

/// A text in quotes, its own quotes escaped, is read as that text.
pub proof fn quoted_text_is_read(s: Seq<char>)
    ensures
        ilp::field_value(seq!['"'] + escaped(s) + seq!['"']) == native::native_of(
            DatumView::String(s),
        ),
{
    let v = seq!['"'] + escaped(s) + seq!['"'];
    lemma_escaped(s);
    lemma_spellings();
    assert(v.subrange(1, v.len() - 1) =~= escaped(s));
    assert(v[0] == '"' && v.last() == '"');
    assert(spelled(true)[0] == "true"@ && spelled(true)[1] == "True"@ && spelled(true)[2]
        == "TRUE"@ && spelled(true)[3] == "t"@ && spelled(true)[4] == "T"@);
    assert(spelled(false)[0] == "false"@ && spelled(false)[1] == "False"@ && spelled(false)[2]
        == "FALSE"@ && spelled(false)[3] == "f"@ && spelled(false)[4] == "F"@);
}

/// Each spelling of a boolean is read as that boolean.
pub proof fn spelled_boolean_is_read(b: bool, i: int)
    requires
        0 <= i < spelled(b).len(),
    ensures
        ilp::field_value(spelled(b)[i]) == native::native_of(DatumView::Bool(b)),
{
    lemma_spellings();
    assert(spelled(true)[0] == "true"@ && spelled(true)[1] == "True"@ && spelled(true)[2]
        == "TRUE"@ && spelled(true)[3] == "t"@ && spelled(true)[4] == "T"@);
    assert(spelled(false)[0] == "false"@ && spelled(false)[1] == "False"@ && spelled(false)[2]
        == "FALSE"@ && spelled(false)[3] == "f"@ && spelled(false)[4] == "F"@);
    let v = spelled(b)[i];
    assert(v.last() != 'i');
    if b {
        assert(ilp::says_true(v));
    } else {
        assert(ilp::says_false(v));
        assert(!ilp::says_true(v));
    }
}

/// A text that ends in no `i`, spells no boolean and starts with no quote is read
/// as the float that it is, or else as itself.
pub proof fn other_value_is_a_float_or_a_text(v: Seq<char>)
    requires
        v.len() > 0,
        v.last() != 'i',
        v[0] != '"',
        forall|b: bool, i: int| 0 <= i < 5 ==> v != #[trigger] spelled(b)[i],
    ensures
        ilp::field_value(v) == match native::parsed_float(v) {
            Some(f) => f,
            None => native::native_of(DatumView::String(v)),
        },
{
    assert(spelled(true)[0] == "true"@ && spelled(true)[1] == "True"@ && spelled(true)[2]
        == "TRUE"@ && spelled(true)[3] == "t"@ && spelled(true)[4] == "T"@);
    assert(spelled(false)[0] == "false"@ && spelled(false)[1] == "False"@ && spelled(false)[2]
        == "FALSE"@ && spelled(false)[3] == "f"@ && spelled(false)[4] == "F"@);
}

proof fn lemma_trim_end_keeps(s: Seq<char>)
    requires
        s.len() > 0,
        !chars::white(s[0]),
    ensures
        ilp::trim_end(s).len() > 0,
        ilp::trim_end(s)[0] == s[0],
    decreases s.len(),
{
    if ilp::is_space(s.last()) {
        assert(s.len() > 1);
        lemma_trim_end_keeps(s.drop_last());
    }
}

/// An empty line and a comment change nothing, wherever they stand.
pub proof fn comments_and_empty_lines_hold_no_row(
    before: Seq<Seq<char>>,
    line: Seq<char>,
    after: Seq<Seq<char>>,
    columns: Seq<Seq<char>>,
)
    requires
        line.len() == 0 || line[0] == '#',
    ensures
        ilp::line_rows(before + seq![line] + after, columns) == ilp::line_rows(
            before + after,
            columns,
        ),
    decreases after.len(),
{
    let all = before + seq![line] + after;
    let rest = before + after;
    if after.len() == 0 {
        assert(all.drop_last() =~= rest);
        assert(all.last() == line);
        if line.len() > 0 {
            assert(!chars::white('#'));
            lemma_trim_end_keeps(line);
            assert(ilp::trim_start(line) == line);
        }
    } else {
        let less = after.drop_last();
        comments_and_empty_lines_hold_no_row(before, line, less, columns);
        assert(all.drop_last() =~= before + seq![line] + less);
        assert(rest.drop_last() =~= before + less);
        assert(all.last() == after.last() && rest.last() == after.last());
    }
}

} // verus!
