//! What is read from lines that were written in line protocol.
use crate::chars;
use crate::columnar::ilp;
use crate::columnar::rows;
use crate::native;
use crate::text;
use crate::value::DatumView;
use vstd::prelude::*;
use vstd::utf8::{encode_utf8, encode_utf8_decode_utf8};

verus! {

/// A line to be written: a measurement, tags, fields, and a timestamp where there
/// is one.
pub struct Line {
    pub measurement: Seq<char>,
    pub tags: Seq<(Seq<char>, Seq<char>)>,
    pub fields: Seq<(Seq<char>, Seq<char>)>,
    pub timestamp: Option<Seq<char>>,
}

/// Whether a text can stand in a line as it is: it holds no white space, comma or
/// backslash.
pub open spec fn plain(s: Seq<char>) -> bool {
    forall|i: int|
        0 <= i < s.len() ==> !chars::white(#[trigger] s[i]) && s[i] != ',' && s[i] != '\\'
}

/// Whether a text can be a name in a line: plain, and without an equals sign.
pub open spec fn plain_name(s: Seq<char>) -> bool {
    plain(s) && forall|i: int| 0 <= i < s.len() ==> #[trigger] s[i] != '='
}

/// Whether pairs can stand in a line.
pub open spec fn plain_pairs(pairs: Seq<(Seq<char>, Seq<char>)>) -> bool {
    forall|i: int|
        0 <= i < pairs.len() ==> plain_name((#[trigger] pairs[i]).0) && plain(pairs[i].1)
}

/// A pair as it stands in a line.
pub open spec fn pair_text(pair: (Seq<char>, Seq<char>)) -> Seq<char> {
    pair.0 + seq!['='] + pair.1
}

/// Pairs as they stand in a line.
pub open spec fn pair_texts(pairs: Seq<(Seq<char>, Seq<char>)>) -> Seq<Seq<char>> {
    pairs.map_values(|p: (Seq<char>, Seq<char>)| pair_text(p))
}

/// Tags as they stand behind a measurement, each after a comma.
pub open spec fn tag_text(tags: Seq<(Seq<char>, Seq<char>)>) -> Seq<char>
    decreases tags.len(),
{
    if tags.len() == 0 {
        Seq::empty()
    } else {
        tag_text(tags.drop_last()) + (seq![','] + pair_text(tags.last()))
    }
}

/// Fields as they stand in a line, with commas between them.
pub open spec fn field_text(fields: Seq<(Seq<char>, Seq<char>)>) -> Seq<char>
    decreases fields.len(),
{
    if fields.len() == 0 {
        Seq::empty()
    } else if fields.len() == 1 {
        pair_text(fields[0])
    } else {
        field_text(fields.drop_last()) + seq![','] + pair_text(fields.last())
    }
}

/// A line as it is written.
pub open spec fn line_text(line: Line) -> Seq<char> {
    line.measurement + tag_text(line.tags) + seq![' '] + field_text(line.fields)
        + match line.timestamp {
        Some(t) => seq![' '] + t,
        None => Seq::empty(),
    }
}

/// Whether a line can be written: its parts are plain, it has a measurement that
/// does not begin like a comment and a field, its timestamp is not empty, and no
/// name occurs twice.
pub open spec fn writable(line: Line) -> bool {
    &&& line.measurement.len() > 0
    &&& line.measurement[0] != '#'
    &&& plain(line.measurement)
    &&& plain_pairs(line.tags)
    &&& plain_pairs(line.fields)
    &&& line.fields.len() > 0
    &&& line.timestamp matches Some(t) ==> t.len() > 0 && plain(t)
    &&& forall|i: int, j: int|
        0 <= i < j < line.tags.len() ==> (#[trigger] line.tags[i]).0 != (
        #[trigger] line.tags[j]).0
    &&& forall|i: int, j: int|
        0 <= i < j < line.fields.len() ==> (#[trigger] line.fields[i]).0 != (
        #[trigger] line.fields[j]).0
    &&& forall|i: int, j: int|
        0 <= i < line.tags.len() && 0 <= j < line.fields.len() ==> (#[trigger] line.tags[i]).0
            != (#[trigger] line.fields[j]).0
}

/// Whether a row holds everything that a line says, in the order of the columns:
/// the value of each field and the text of each tag, and null under a column that
/// the line does not name.
pub open spec fn holds_line(
    row: Seq<nodedb_types::Value>,
    columns: Seq<Seq<char>>,
    line: Line,
) -> bool {
    &&& row.len() == columns.len()
    &&& forall|c: int, i: int|
        0 <= c < columns.len() && 0 <= i < line.fields.len() && #[trigger] columns[c] == (
        #[trigger] line.fields[i]).0 ==> row[c] == ilp::field_value(line.fields[i].1)
    &&& forall|c: int, i: int|
        0 <= c < columns.len() && 0 <= i < line.tags.len() && #[trigger] columns[c] == (
        #[trigger] line.tags[i]).0 ==> row[c] == native::native_of(
            DatumView::String(line.tags[i].1),
        )
    &&& forall|c: int|
        0 <= c < columns.len() && (forall|i: int|
            0 <= i < line.fields.len() ==> columns[c] != (#[trigger] line.fields[i]).0) && (forall|
            i: int,
        |
            0 <= i < line.tags.len() ==> columns[c] != (#[trigger] line.tags[i]).0)
            ==> #[trigger] row[c] == native::null()
}

proof fn lemma_space_at(s: Seq<char>, i: int, n: int)
    requires
        0 <= i <= n < s.len(),
        s[n] == ' ',
        forall|j: int| i <= j < n ==> #[trigger] s[j] != ' ' && s[j] != '\\',
    ensures
        ilp::space_from(s, i) == Some(n),
    decreases n - i,
{
    if i < n {
        assert(s[i] != ' ' && s[i] != '\\');
        lemma_space_at(s, i + 1, n);
    }
}

proof fn lemma_no_space(s: Seq<char>, i: int)
    requires
        0 <= i <= s.len(),
        forall|j: int| i <= j < s.len() ==> #[trigger] s[j] != ' ' && s[j] != '\\',
    ensures
        ilp::space_from(s, i) is None,
    decreases s.len() - i,
{
    if i < s.len() {
        assert(s[i] != ' ' && s[i] != '\\');
        lemma_no_space(s, i + 1);
    }
}

proof fn lemma_char_at(s: Seq<char>, c: char, i: int, n: int)
    requires
        0 <= i <= n < s.len(),
        s[n] == c,
        forall|j: int| i <= j < n ==> #[trigger] s[j] != c,
    ensures
        ilp::char_from(s, c, i) == Some(n),
    decreases n - i,
{
    if i < n {
        assert(s[i] != c);
        lemma_char_at(s, c, i + 1, n);
    }
}

proof fn lemma_no_char(s: Seq<char>, c: char, i: int)
    requires
        0 <= i <= s.len(),
        forall|j: int| i <= j < s.len() ==> #[trigger] s[j] != c,
    ensures
        ilp::char_from(s, c, i) is None,
    decreases s.len() - i,
{
    if i < s.len() {
        assert(s[i] != c);
        lemma_no_char(s, c, i + 1);
    }
}

proof fn lemma_char_bounds(s: Seq<char>, c: char, i: int)
    requires
        0 <= i <= s.len(),
    ensures
        match ilp::char_from(s, c, i) {
            Some(k) => i <= k < s.len() && s[k] == c && forall|j: int|
                i <= j < k ==> #[trigger] s[j] != c,
            None => forall|j: int| i <= j < s.len() ==> #[trigger] s[j] != c,
        },
    decreases s.len() - i,
{
    if i < s.len() && s[i] != c {
        lemma_char_bounds(s, c, i + 1);
    }
}

/// Text behind a last separator is one more piece.
proof fn lemma_one_more_piece(x: Seq<char>, y: Seq<char>, c: char)
    requires
        forall|j: int| 0 <= j < y.len() ==> #[trigger] y[j] != c,
    ensures
        ilp::pieces(x + seq![c] + y, c) == ilp::pieces(x, c).push(y),
    decreases x.len(),
{
    let s = x + seq![c] + y;
    lemma_char_bounds(x, c, 0);
    lemma_no_char(y, c, 0);
    assert(ilp::pieces(y, c) =~= seq![y]);
    match ilp::char_from(x, c, 0) {
        Some(k) => {
            assert(s[k] == c);
            assert forall|j: int| 0 <= j < k implies #[trigger] s[j] != c by {
                assert(x[j] != c);
            }
            lemma_char_at(s, c, 0, k);
            let rest = x.skip(k + 1);
            lemma_one_more_piece(rest, y, c);
            assert(s.take(k) =~= x.take(k));
            assert(s.skip(k + 1) =~= rest + seq![c] + y);
            assert(seq![x.take(k)] + ilp::pieces(rest, c).push(y) =~= (seq![x.take(k)]
                + ilp::pieces(rest, c)).push(y));
        },
        None => {
            assert forall|j: int| 0 <= j < x.len() implies #[trigger] s[j] != c by {
                assert(x[j] != c);
            }
            lemma_char_at(s, c, 0, x.len() as int);
            assert(s.take(x.len() as int) =~= x);
            assert(s.skip(x.len() as int + 1) =~= y);
            assert(seq![x] + seq![y] =~= seq![x].push(y));
        },
    }
}

proof fn lemma_pair_plain(pair: (Seq<char>, Seq<char>))
    requires
        plain_name(pair.0),
        plain(pair.1),
    ensures
        plain(pair_text(pair)),
        ilp::cut_once(pair_text(pair), '=') == Some((pair.0, pair.1)),
{
    let s = pair_text(pair);
    let n = pair.0.len() as int;
    assert forall|i: int| 0 <= i < s.len() implies !chars::white(#[trigger] s[i]) && s[i] != ','
        && s[i] != '\\' by {
        if i < n {
            assert(s[i] == pair.0[i]);
        } else if i > n {
            assert(s[i] == pair.1[i - n - 1]);
        }
    }
    assert forall|j: int| 0 <= j < n implies #[trigger] s[j] != '=' by {
        assert(s[j] == pair.0[j]);
    }
    lemma_char_at(s, '=', 0, n);
    assert(s.take(n) =~= pair.0);
    assert(s.skip(n + 1) =~= pair.1);
}

/// Whether a text has no white space and no backslash.
pub open spec fn unbroken(s: Seq<char>) -> bool {
    forall|i: int| 0 <= i < s.len() ==> !chars::white(#[trigger] s[i]) && s[i] != '\\'
}

proof fn lemma_fields_text(fields: Seq<(Seq<char>, Seq<char>)>)
    requires
        plain_pairs(fields),
        fields.len() > 0,
    ensures
        ilp::pieces(field_text(fields), ',') == pair_texts(fields),
        unbroken(field_text(fields)),
        field_text(fields).len() > 0,
    decreases fields.len(),
{
    let last = fields.last();
    assert(plain_name(fields[fields.len() - 1].0) && plain(fields[fields.len() - 1].1));
    lemma_pair_plain(last);
    let all = pair_texts(fields);
    if fields.len() == 1 {
        let s = pair_text(fields[0]);
        assert forall|j: int| 0 <= j < s.len() implies #[trigger] s[j] != ',' by {}
        lemma_no_char(s, ',', 0);
        assert(ilp::pieces(s, ',') =~= seq![s]);
        assert(all =~= seq![s]);
    } else {
        let head = fields.drop_last();
        assert forall|i: int| 0 <= i < head.len() implies plain_name((#[trigger] head[i]).0)
            && plain(head[i].1) by {
            assert(plain_name(fields[i].0));
        }
        lemma_fields_text(head);
        let y = pair_text(last);
        assert forall|j: int| 0 <= j < y.len() implies #[trigger] y[j] != ',' by {}
        lemma_one_more_piece(field_text(head), y, ',');
        assert(all =~= pair_texts(head).push(y));
        let s = field_text(fields);
        let n = field_text(head).len() as int;
        assert forall|i: int| 0 <= i < s.len() implies !chars::white(#[trigger] s[i]) && s[i]
            != '\\' by {
            if i < n {
                assert(s[i] == field_text(head)[i]);
            } else if i > n {
                assert(s[i] == y[i - n - 1]);
            }
        }
    }
}

proof fn lemma_tags_text(tags: Seq<(Seq<char>, Seq<char>)>)
    requires
        plain_pairs(tags),
    ensures
        tags.len() == 0 ==> tag_text(tags).len() == 0,
        tags.len() > 0 ==> tag_text(tags) == seq![','] + field_text(tags),
    decreases tags.len(),
{
    if tags.len() == 1 {
        assert(tag_text(tags.drop_last()) =~= Seq::empty());
        assert(tag_text(tags) =~= seq![','] + field_text(tags));
    } else if tags.len() > 1 {
        let head = tags.drop_last();
        assert forall|i: int| 0 <= i < head.len() implies plain_name((#[trigger] head[i]).0)
            && plain(head[i].1) by {
            assert(plain_name(tags[i].0));
        }
        lemma_tags_text(head);
        assert(tag_text(tags) =~= seq![','] + field_text(tags));
    }
}

/// The value that a pair gives to its name: the text itself for a tag, the value
/// that it stands for for a field.
pub open spec fn pair_value(v: Seq<char>, typed: bool) -> nodedb_types::Value {
    if typed {
        ilp::field_value(v)
    } else {
        native::native_of(DatumView::String(v))
    }
}

/// Whether fields are those before with each pair set.
pub open spec fn pairs_read(
    base: Map<Seq<char>, nodedb_types::Value>,
    pairs: Seq<(Seq<char>, Seq<char>)>,
    typed: bool,
    out: Map<Seq<char>, nodedb_types::Value>,
) -> bool {
    &&& forall|i: int|
        0 <= i < pairs.len() ==> out.dom().contains((#[trigger] pairs[i]).0) && out[pairs[i].0]
            == pair_value(pairs[i].1, typed)
    &&& forall|name: Seq<char>|
        (forall|i: int| 0 <= i < pairs.len() ==> (#[trigger] pairs[i]).0 != name)
            ==> #[trigger] out.dom().contains(name) == base.dom().contains(name) && out[name]
            == base[name]
}

proof fn lemma_pairs(
    base: Map<Seq<char>, nodedb_types::Value>,
    pairs: Seq<(Seq<char>, Seq<char>)>,
    typed: bool,
)
    requires
        plain_pairs(pairs),
        forall|i: int, j: int|
            0 <= i < j < pairs.len() ==> (#[trigger] pairs[i]).0 != (#[trigger] pairs[j]).0,
    ensures
        pairs_read(base, pairs, typed, ilp::with_pairs(base, pair_texts(pairs), typed)),
    decreases pairs.len(),
{
    let texts = pair_texts(pairs);
    let out = ilp::with_pairs(base, texts, typed);
    if pairs.len() > 0 {
        let head = pairs.drop_last();
        let n = pairs.len() - 1;
        assert forall|i: int| 0 <= i < head.len() implies plain_name((#[trigger] head[i]).0)
            && plain(head[i].1) by {
            assert(plain_name(pairs[i].0));
        }
        assert forall|i: int, j: int| 0 <= i < j < head.len() implies (#[trigger] head[i]).0 != (
        #[trigger] head[j]).0 by {
            assert(pairs[i].0 != pairs[j].0);
        }
        lemma_pairs(base, head, typed);
        assert(texts.drop_last() =~= pair_texts(head));
        assert(plain_name(pairs[n].0) && plain(pairs[n].1));
        lemma_pair_plain(pairs[n]);
        let mid = ilp::with_pairs(base, texts.drop_last(), typed);
        assert(out == mid.insert(pairs[n].0, pair_value(pairs[n].1, typed)));
        assert forall|i: int| 0 <= i < pairs.len() implies out.dom().contains(
            (#[trigger] pairs[i]).0,
        ) && out[pairs[i].0] == pair_value(pairs[i].1, typed) by {
            if i < n {
                assert(head[i] == pairs[i]);
                assert(pairs[i].0 != pairs[n].0);
            }
        }
        assert forall|name: Seq<char>|
            (forall|i: int| 0 <= i < pairs.len() ==> (#[trigger] pairs[i]).0
                != name) implies #[trigger] out.dom().contains(name) == base.dom().contains(name)
            && out[name] == base[name] by {
            assert(pairs[n].0 != name);
            assert forall|i: int| 0 <= i < head.len() implies (#[trigger] head[i]).0 != name by {
                assert(pairs[i].0 != name);
            }
            assert(mid.dom().contains(name) == base.dom().contains(name));
        }
    }
}

proof fn lemma_untouched(s: Seq<char>)
    requires
        s.len() > 0,
        !chars::white(s[0]),
        !chars::white(s.last()),
    ensures
        ilp::trim_start(s) == s,
        ilp::trim_end(s) == s,
        ilp::trimmed(s) == s,
{
}

proof fn lemma_ends(line: Line)
    requires
        writable(line),
    ensures
        line_text(line).len() > 0,
        line_text(line)[0] == line.measurement[0],
        !chars::white(line_text(line)[0]),
        !chars::white(line_text(line).last()),
{
    let s = line_text(line);
    lemma_fields_text(line.fields);
    assert(s[0] == line.measurement[0]);
    let body = field_text(line.fields);
    match line.timestamp {
        Some(t) => {
            assert(s.last() == t.last());
            assert(!chars::white(t[t.len() - 1]));
        },
        None => {
            assert(s.last() == body.last());
            assert(!chars::white(body[body.len() - 1]));
        },
    }
}

/// The tags and fields of a written line are all read from it.
pub proof fn written_line_is_read(line: Line, columns: Seq<Seq<char>>)
    requires
        writable(line),
    ensures
        ilp::trimmed(line_text(line)) == line_text(line),
        !ilp::holds_no_row(line_text(line)),
        ilp::line_fields(line_text(line)) is Some,
        holds_line(
            rows::row_of(ilp::line_fields(line_text(line))->0, columns),
            columns,
            line,
        ),
{
    let s = line_text(line);
    lemma_ends(line);
    lemma_untouched(s);
    lemma_fields_text(line.fields);
    lemma_tags_text(line.tags);
    let key = line.measurement + tag_text(line.tags);
    let body = field_text(line.fields);
    let n = key.len() as int;
    if line.tags.len() > 0 {
        lemma_fields_text(line.tags);
    }
    assert(unbroken(key)) by {
        assert forall|i: int| 0 <= i < key.len() implies !chars::white(#[trigger] key[i])
            && key[i] != '\\' by {
            let m = line.measurement.len() as int;
            if i < m {
                assert(key[i] == line.measurement[i]);
            } else if i > m {
                assert(key[i] == field_text(line.tags)[i - m - 1]);
            }
        }
    }
    assert forall|j: int| 0 <= j < n implies #[trigger] s[j] != ' ' && s[j] != '\\' by {
        assert(s[j] == key[j]);
        assert(!chars::white(key[j]));
    }
    assert(s[n] == ' ');
    lemma_space_at(s, 0, n);
    let rest = s.skip(n + 1);
    assert(s.take(n) =~= key);
    assert(rest[0] == body[0]);
    assert(!chars::white(body[0]));
    assert(ilp::trim_start(rest) == rest);
    assert(ilp::cut_at_space(s) == Some((key, rest)));
    match line.timestamp {
        Some(t) => {
            let b = body.len() as int;
            assert(rest =~= body + (seq![' '] + t));
            assert forall|j: int| 0 <= j < b implies #[trigger] rest[j] != ' ' && rest[j]
                != '\\' by {
                assert(rest[j] == body[j]);
                assert(!chars::white(body[j]));
            }
            assert(rest[b] == ' ');
            lemma_space_at(rest, 0, b);
            assert(rest.take(b) =~= body);
        },
        None => {
            assert(rest =~= body);
            assert forall|j: int| 0 <= j < rest.len() implies #[trigger] rest[j] != ' ' && rest[j]
                != '\\' by {
                assert(!chars::white(body[j]));
            }
            lemma_no_space(rest, 0);
        },
    }
    let tags = if line.tags.len() > 0 {
        ilp::with_pairs(Map::empty(), ilp::pieces(field_text(line.tags), ','), false)
    } else {
        Map::empty()
    };
    let m = line.measurement.len() as int;
    if line.tags.len() > 0 {
        assert forall|j: int| 0 <= j < m implies #[trigger] key[j] != ',' by {
            assert(key[j] == line.measurement[j]);
        }
        assert(key[m] == ',');
        lemma_char_at(key, ',', 0, m);
        assert(key.skip(m + 1) =~= field_text(line.tags));
    } else {
        assert(key =~= line.measurement);
        assert forall|j: int| 0 <= j < key.len() implies #[trigger] key[j] != ',' by {}
        lemma_no_char(key, ',', 0);
    }
    lemma_pairs(Map::empty(), line.tags, false);
    lemma_pairs(tags, line.fields, true);
    let texts = pair_texts(line.fields);
    let out = ilp::with_pairs(tags, texts, true);
    assert(ilp::line_fields(s) == Some(out));
    let row = rows::row_of(out, columns);
    assert forall|c: int, i: int|
        0 <= c < columns.len() && 0 <= i < line.tags.len() && #[trigger] columns[c] == (
        #[trigger] line.tags[i]).0 implies row[c] == native::native_of(
        DatumView::String(line.tags[i].1),
    ) by {
        let name = line.tags[i].0;
        assert forall|k: int| 0 <= k < line.fields.len() implies (#[trigger] line.fields[k]).0
            != name by {}
        assert(out.dom().contains(name) == tags.dom().contains(name));
    }
    assert forall|c: int|
        0 <= c < columns.len() && (forall|i: int|
            0 <= i < line.fields.len() ==> columns[c] != (#[trigger] line.fields[i]).0) && (forall|
            i: int,
        |
            0 <= i < line.tags.len() ==> columns[c] != (#[trigger] line.tags[i]).0) implies (
    #[trigger] row[c]) == native::null() by {
        let name = columns[c];
        assert(out.dom().contains(name) == tags.dom().contains(name));
        if line.tags.len() > 0 {
            assert(tags.dom().contains(name) == Map::<
                Seq<char>,
                nodedb_types::Value,
            >::empty().dom().contains(name));
        }
    }
}

/// Several lines as they are written, one under the other.
pub open spec fn text_of_lines(lines: Seq<Line>) -> Seq<char>
    decreases lines.len(),
{
    if lines.len() == 0 {
        Seq::empty()
    } else if lines.len() == 1 {
        line_text(lines[0])
    } else {
        text_of_lines(lines.drop_last()) + seq!['\n'] + line_text(lines.last())
    }
}

proof fn lemma_no_newline(line: Line)
    requires
        writable(line),
    ensures
        forall|i: int| 0 <= i < line_text(line).len() ==> #[trigger] line_text(line)[i] != '\n',
{
    let s = line_text(line);
    lemma_fields_text(line.fields);
    lemma_tags_text(line.tags);
    if line.tags.len() > 0 {
        lemma_fields_text(line.tags);
    }
    let m = line.measurement.len() as int;
    let k = m + tag_text(line.tags).len();
    let b = k + 1 + field_text(line.fields).len();
    assert(chars::white('\n'));
    assert forall|i: int| 0 <= i < s.len() implies #[trigger] s[i] != '\n' by {
        if i < m {
            assert(s[i] == line.measurement[i]);
        } else if i < k {
            if i > m {
                assert(s[i] == field_text(line.tags)[i - m - 1]);
            }
        } else if k < i && i < b {
            assert(s[i] == field_text(line.fields)[i - k - 1]);
        } else if i > b {
            assert(s[i] == (line.timestamp->0)[i - b - 1]);
        }
    }
}

proof fn lemma_line_pieces(lines: Seq<Line>)
    requires
        lines.len() > 0,
        forall|i: int| 0 <= i < lines.len() ==> writable(#[trigger] lines[i]),
    ensures
        ilp::pieces(text_of_lines(lines), '\n') == lines.map_values(|l: Line| line_text(l)),
    decreases lines.len(),
{
    let last = lines.last();
    assert(writable(lines[lines.len() - 1]));
    lemma_no_newline(last);
    let all = lines.map_values(|l: Line| line_text(l));
    let s = line_text(last);
    if lines.len() == 1 {
        lemma_no_char(s, '\n', 0);
        assert(ilp::pieces(s, '\n') =~= seq![s]);
        assert(all =~= seq![s]);
    } else {
        let head = lines.drop_last();
        assert forall|i: int| 0 <= i < head.len() implies writable(#[trigger] head[i]) by {
            assert(writable(lines[i]));
        }
        lemma_line_pieces(head);
        lemma_one_more_piece(text_of_lines(head), s, '\n');
        assert(all =~= head.map_values(|l: Line| line_text(l)).push(s));
    }
}

proof fn lemma_read_lines(lines: Seq<Line>, columns: Seq<Seq<char>>)
    requires
        forall|i: int| 0 <= i < lines.len() ==> writable(#[trigger] lines[i]),
    ensures
        ({
            let r = ilp::line_rows(lines.map_values(|l: Line| line_text(l)), columns);
            &&& r is Ok
            &&& r->Ok_0.len() == lines.len()
            &&& forall|i: int|
                0 <= i < lines.len() ==> holds_line(#[trigger] r->Ok_0[i], columns, lines[i])
        }),
    decreases lines.len(),
{
    if lines.len() > 0 {
        let head = lines.drop_last();
        assert forall|i: int| 0 <= i < head.len() implies writable(#[trigger] head[i]) by {
            assert(writable(lines[i]));
        }
        lemma_read_lines(head, columns);
        assert(writable(lines[lines.len() - 1]));
        written_line_is_read(lines.last(), columns);
        let all = lines.map_values(|l: Line| line_text(l));
        assert(all.drop_last() =~= head.map_values(|l: Line| line_text(l)));
        assert(all.last() == line_text(lines.last()));
    }
}

/// What was written in line protocol is read back: one row for each line, in
/// order, with the value of every field and the text of every tag of the line.
pub proof fn written_lines_are_read(lines: Seq<Line>, columns: Seq<Seq<char>>)
    requires
        lines.len() > 0,
        forall|i: int| 0 <= i < lines.len() ==> writable(#[trigger] lines[i]),
    ensures
        ({
            let r = ilp::ilp_rows(encode_utf8(text_of_lines(lines)), columns);
            &&& r is Ok
            &&& r->Ok_0.len() == lines.len()
            &&& forall|i: int|
                0 <= i < lines.len() ==> holds_line(#[trigger] r->Ok_0[i], columns, lines[i])
        }),
{
    let whole = text_of_lines(lines);
    encode_utf8_decode_utf8(whole);
    vstd::utf8::encode_utf8_valid_utf8(whole);
    lemma_line_pieces(lines);
    lemma_read_lines(lines, columns);
}

} // verus!
