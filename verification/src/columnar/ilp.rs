//! Rows in line protocol.
//!
//! A line is `measurement[,tag=value]* field=value[,field=value]* [timestamp]`.
use crate::bytes;
use crate::columnar::rows;
use crate::error::{ErrorView, LiteError};
use crate::native;
use crate::text;
use crate::value::{names_view, Datum, DatumView};
use crate::wire;
use vstd::prelude::*;
use vstd::slice::slice_subrange;

verus! {

/// The whitespace characters of Unicode.
pub open spec fn is_space(c: char) -> bool {
    ||| 0x9 <= c as int <= 0xd
    ||| c as int == 0x20
    ||| c as int == 0x85
    ||| c as int == 0xa0
    ||| c as int == 0x1680
    ||| 0x2000 <= c as int <= 0x200a
    ||| c as int == 0x2028
    ||| c as int == 0x2029
    ||| c as int == 0x202f
    ||| c as int == 0x205f
    ||| c as int == 0x3000
}

/// The text without leading whitespace.
pub open spec fn trim_start(s: Seq<char>) -> Seq<char>
    decreases s.len(),
{
    if s.len() > 0 && is_space(s[0]) {
        trim_start(s.skip(1))
    } else {
        s
    }
}

/// The text without trailing whitespace.
pub open spec fn trim_end(s: Seq<char>) -> Seq<char>
    decreases s.len(),
{
    if s.len() > 0 && is_space(s.last()) {
        trim_end(s.drop_last())
    } else {
        s
    }
}

/// The first space at or after `i` that no backslash precedes.
pub open spec fn space_from(s: Seq<char>, i: int) -> Option<int>
    decreases (if i < s.len() { s.len() - i } else { 0 }),
{
    if i < 0 || i >= s.len() {
        None
    } else if s[i] == '\\' {
        space_from(s, i + 2)
    } else if s[i] == ' ' {
        Some(i)
    } else {
        space_from(s, i + 1)
    }
}

/// A text cut at its first unescaped space.
pub open spec fn cut_at_space(s: Seq<char>) -> Option<(Seq<char>, Seq<char>)> {
    match space_from(s, 0) {
        Some(i) => Some((s.take(i), trim_start(s.skip(i + 1)))),
        None => None,
    }
}

/// Whether `c` is whitespace.
fn space(c: char) -> (r: bool)
    ensures
        r == is_space(c),
{
    let n: u32 = c as u32;
    (0x9 <= n && n <= 0xd) || n == 0x20 || n == 0x85 || n == 0xa0 || n == 0x1680 || (0x2000 <= n
        && n <= 0x200a) || n == 0x2028 || n == 0x2029 || n == 0x202f || n == 0x205f || n == 0x3000
}

/// The number of leading whitespace characters, counted from `from`.
fn skip_space(s: &[char], from: usize) -> (r: usize)
    requires
        from <= s@.len(),
    ensures
        from <= r <= s@.len(),
        trim_start(s@.skip(from as int)) == s@.skip(r as int),
{
    let mut i: usize = from;
    while i < s.len() && space(s[i])
        invariant
            from <= i <= s@.len(),
            trim_start(s@.skip(from as int)) == trim_start(s@.skip(i as int)),
        decreases s@.len() - i,
    {
        proof {
            assert(s@.skip(i as int).skip(1) =~= s@.skip(i as int + 1));
        }
        i = i + 1;
    }
    i
}

/// Cuts `s` at its first unescaped space, and drops the whitespace that
/// follows.
pub fn split_ilp_space<'a>(s: &'a str) -> (r: Option<(&'a str, &'a str)>)
    ensures
        match r {
            Some(p) => cut_at_space(s@) == Some((p.0@, p.1@)),
            None => cut_at_space(s@) is None,
        },
{
    let chars = text::chars_of(s);
    let n: usize = chars.len();
    let mut i: usize = 0;
    while i < n
        invariant
            chars@ == s@,
            n == chars@.len(),
            space_from(s@, 0) == space_from(s@, i as int),
        decreases n - i,
    {
        if chars[i] == '\\' {
            if i + 1 >= n {
                proof {
                    assert(space_from(s@, i as int + 2) is None);
                }
                return None;
            }
            i = i + 2;
        } else if chars[i] == ' ' {
            let from = skip_space(chars.as_slice(), i + 1);
            let head = s.substring_char(0, i);
            let tail = s.substring_char(from, n);
            proof {
                assert(head@ =~= s@.take(i as int));
                assert(tail@ =~= s@.skip(from as int));
            }
            return Some((head, tail));
        } else {
            i = i + 1;
        }
    }
    None
}

/// The first position of `c` at or after `i`.
pub open spec fn char_from(s: Seq<char>, c: char, i: int) -> Option<int>
    decreases s.len() - i,
{
    if i < 0 || i >= s.len() {
        None
    } else if s[i] == c {
        Some(i)
    } else {
        char_from(s, c, i + 1)
    }
}

/// A text cut at the first `c`.
pub open spec fn cut_once(s: Seq<char>, c: char) -> Option<(Seq<char>, Seq<char>)> {
    match char_from(s, c, 0) {
        Some(i) => Some((s.take(i), s.skip(i + 1))),
        None => None,
    }
}

proof fn lemma_char_from(s: Seq<char>, c: char, i: int)
    requires
        0 <= i,
    ensures
        match char_from(s, c, i) {
            Some(k) => i <= k < s.len(),
            None => true,
        },
    decreases s.len() - i,
{
    if i < s.len() && s[i] != c {
        lemma_char_from(s, c, i + 1);
    }
}

/// The parts of a text between the `c`s.
pub open spec fn pieces(s: Seq<char>, c: char) -> Seq<Seq<char>>
    decreases s.len(),
    via pieces_end
{
    match cut_once(s, c) {
        Some((head, rest)) => seq![head] + pieces(rest, c),
        None => seq![s],
    }
}

#[via_fn]
proof fn pieces_end(s: Seq<char>, c: char) {
    lemma_char_from(s, c, 0);
}

/// The first position of `c`.
fn find_char(s: &[char], c: char) -> (r: Option<usize>)
    ensures
        match r {
            Some(i) => i < s@.len() && char_from(s@, c, 0) == Some(i as int),
            None => char_from(s@, c, 0) is None,
        },
{
    let mut i: usize = 0;
    while i < s.len()
        invariant
            i <= s@.len(),
            char_from(s@, c, 0) == char_from(s@, c, i as int),
        decreases s@.len() - i,
    {
        if s[i] == c {
            return Some(i);
        }
        i = i + 1;
    }
    None
}

/// What the parts are.
pub open spec fn parts_view(parts: Seq<&[char]>) -> Seq<Seq<char>> {
    parts.map_values(|p: &[char]| p@)
}

/// Cuts a text at every `c`.
fn split_chars<'a>(s: &'a [char], c: char) -> (r: Vec<&'a [char]>)
    ensures
        parts_view(r@) == pieces(s@, c),
{
    let mut out: Vec<&'a [char]> = Vec::new();
    let mut pos: usize = 0;
    proof {
        assert(s@.skip(0) =~= s@);
        assert(parts_view(out@) + pieces(s@, c) =~= pieces(s@, c));
    }
    loop
        invariant
            pos <= s@.len(),
            parts_view(out@) + pieces(s@.skip(pos as int), c) == pieces(s@, c),
        decreases s@.len() - pos,
    {
        let rest = slice_subrange(s, pos, s.len());
        proof {
            assert(rest@ =~= s@.skip(pos as int));
        }
        match find_char(rest, c) {
            Some(i) => {
                let head = slice_subrange(rest, 0, i);
                let ghost before = parts_view(out@);
                out.push(head);
                proof {
                    assert(head@ =~= rest@.take(i as int));
                    assert(rest@.skip(i as int + 1) =~= s@.skip(pos as int + i as int + 1));
                    assert(parts_view(out@) =~= before + seq![head@]);
                    assert(pieces(rest@, c) == seq![head@] + pieces(
                        s@.skip(pos as int + i as int + 1),
                        c,
                    ));
                    assert(before + (seq![head@] + pieces(s@.skip(pos as int + i as int + 1), c))
                        =~= (before + seq![head@]) + pieces(
                        s@.skip(pos as int + i as int + 1),
                        c,
                    ));
                }
                pos = pos + i + 1;
            },
            None => {
                let ghost before = parts_view(out@);
                out.push(rest);
                proof {
                    assert(pieces(rest@, c) == seq![rest@]);
                    assert(parts_view(out@) =~= before + seq![rest@]);
                }
                return out;
            },
        }
    }
}

/// The number that a run of decimal digits stands for.
pub open spec fn digits_value(s: Seq<char>) -> Option<nat>
    decreases s.len(),
{
    if s.len() == 0 {
        Some(0nat)
    } else {
        match digits_value(s.drop_last()) {
            Some(v) => if '0' <= s.last() && s.last() <= '9' {
                Some((v * 10 + (s.last() as int - '0' as int)) as nat)
            } else {
                None
            },
            None => None,
        }
    }
}

/// The integer that a text stands for: an optional sign, then digits, within
/// the range of the type.
pub open spec fn int_of(s: Seq<char>) -> Option<i64> {
    let signed = s.len() > 0 && (s[0] == '-' || s[0] == '+');
    let digits = if signed {
        s.skip(1)
    } else {
        s
    };
    match digits_value(digits) {
        Some(n) => {
            let v: int = if signed && s[0] == '-' {
                -(n as int)
            } else {
                n as int
            };
            if digits.len() > 0 && i64::MIN <= v <= i64::MAX {
                Some(v as i64)
            } else {
                None
            }
        },
        None => None,
    }
}

proof fn lemma_digits_grow(s: Seq<char>, k: int)
    requires
        0 <= k <= s.len(),
    ensures
        digits_value(s) is Some ==> digits_value(s.take(k)) is Some && digits_value(s.take(k))->0
            <= digits_value(s)->0,
    decreases s.len() - k,
{
    if k < s.len() {
        lemma_digits_grow(s, k + 1);
        assert(s.take(k + 1).drop_last() =~= s.take(k));
    } else {
        assert(s.take(k) =~= s);
    }
}

/// The largest magnitude of a signed integer.
const LARGEST: u64 = 0x8000_0000_0000_0000;

/// Reads a run of decimal digits up to [`LARGEST`].
fn read_digits(s: &[char]) -> (r: Option<u64>)
    ensures
        match r {
            Some(n) => n <= LARGEST && digits_value(s@) == Some(n as nat),
            None => digits_value(s@) is None || digits_value(s@)->0 > LARGEST,
        },
{
    let mut value: u64 = 0;
    let mut i: usize = 0;
    while i < s.len()
        invariant
            i <= s@.len(),
            value <= LARGEST,
            digits_value(s@.take(i as int)) == Some(value as nat),
        decreases s@.len() - i,
    {
        let c: char = s[i];
        proof {
            assert(s@.take(i as int + 1).drop_last() =~= s@.take(i as int));
            lemma_digits_grow(s@, i as int + 1);
        }
        if c < '0' || c > '9' {
            return None;
        }
        let d: u64 = c as u64 - 48;
        if value > (LARGEST - d) / 10 {
            return None;
        }
        value = value * 10 + d;
        i = i + 1;
    }
    proof {
        assert(s@.take(i as int) =~= s@);
    }
    Some(value)
}

/// Reads a signed integer.
pub fn read_int(s: &[char]) -> (r: Option<i64>)
    ensures
        r == int_of(s@),
{
    if s.len() == 0 {
        return None;
    }
    let signed: bool = s[0] == '-' || s[0] == '+';
    let negative: bool = s[0] == '-';
    let digits = if signed {
        slice_subrange(s, 1, s.len())
    } else {
        s
    };
    proof {
        if signed {
            assert(digits@ =~= s@.skip(1));
        }
    }
    if digits.len() == 0 {
        return None;
    }
    match read_digits(digits) {
        None => None,
        Some(n) => {
            if negative {
                if n == LARGEST {
                    Some(i64::MIN)
                } else {
                    Some(-(n as i64))
                }
            } else if n == LARGEST {
                None
            } else {
                Some(n as i64)
            }
        },
    }
}

/// A quoted text with every `\"` made a plain quote.
pub open spec fn unquoted(s: Seq<char>) -> Seq<char>
    decreases s.len(),
{
    if s.len() == 0 {
        Seq::empty()
    } else if s.len() >= 2 && s[0] == '\\' && s[1] == '"' {
        seq!['"'] + unquoted(s.skip(2))
    } else {
        seq![s[0]] + unquoted(s.skip(1))
    }
}

/// Whether a text is one of the spellings of true.
pub open spec fn says_true(v: Seq<char>) -> bool {
    v == "true"@ || v == "True"@ || v == "TRUE"@ || v == "t"@ || v == "T"@
}

/// Whether a text is one of the spellings of false.
pub open spec fn says_false(v: Seq<char>) -> bool {
    v == "false"@ || v == "False"@ || v == "FALSE"@ || v == "f"@ || v == "F"@
}

/// The value that a field's text stands for: an integer with the suffix `i`, a
/// boolean, a quoted string, a float, or else the text itself.
pub open spec fn field_value(v: Seq<char>) -> nodedb_types::Value {
    if v.len() > 0 && v.last() == 'i' && int_of(v.drop_last()) is Some {
        native::native_of(DatumView::Integer(int_of(v.drop_last())->0))
    } else if says_true(v) {
        native::native_of(DatumView::Bool(true))
    } else if says_false(v) {
        native::native_of(DatumView::Bool(false))
    } else if v.len() >= 2 && v[0] == '"' && v.last() == '"' {
        native::native_of(DatumView::String(unquoted(v.subrange(1, v.len() - 1))))
    } else {
        match native::parsed_float(v) {
            Some(f) => f,
            None => native::native_of(DatumView::String(v)),
        }
    }
}

/// Makes every `\"` a plain quote.
fn unquote(s: &[char]) -> (r: Vec<char>)
    ensures
        r@ == unquoted(s@),
{
    let mut out: Vec<char> = Vec::new();
    let mut i: usize = 0;
    proof {
        assert(s@.skip(0) =~= s@);
        assert(out@ + unquoted(s@) =~= unquoted(s@));
    }
    while i < s.len()
        invariant
            i <= s@.len(),
            out@ + unquoted(s@.skip(i as int)) == unquoted(s@),
        decreases s@.len() - i,
    {
        let ghost before = out@;
        let ghost rest = s@.skip(i as int);
        if i + 1 < s.len() && s[i] == '\\' && s[i + 1] == '"' {
            out.push('"');
            proof {
                assert(rest.skip(2) =~= s@.skip(i as int + 2));
                assert(out@ + unquoted(rest.skip(2)) =~= before + (seq!['"'] + unquoted(
                    rest.skip(2),
                )));
            }
            i = i + 2;
        } else {
            out.push(s[i]);
            proof {
                assert(rest.skip(1) =~= s@.skip(i as int + 1));
                assert(out@ + unquoted(rest.skip(1)) =~= before + (seq![rest[0]] + unquoted(
                    rest.skip(1),
                )));
            }
            i = i + 1;
        }
    }
    proof {
        assert(unquoted(s@.skip(i as int)) =~= Seq::<char>::empty());
        assert(out@ + Seq::<char>::empty() =~= out@);
    }
    out
}

/// Reads the value of a field.
pub fn parse_ilp_field_value(v: &str) -> (r: nodedb_types::Value)
    ensures
        r == field_value(v@),
{
    let chars = text::chars_of(v);
    let n: usize = chars.len();
    if n > 0 && chars[n - 1] == 'i' {
        let stripped = slice_subrange(chars.as_slice(), 0, n - 1);
        proof {
            assert(stripped@ =~= v@.drop_last());
        }
        match read_int(stripped) {
            Some(i) => return native::native(Datum::Integer(i)),
            None => {},
        }
    }
    if text::str_eq(v, "true") || text::str_eq(v, "True") || text::str_eq(v, "TRUE")
        || text::str_eq(v, "t") || text::str_eq(v, "T") {
        return native::native(Datum::Bool(true));
    }
    if text::str_eq(v, "false") || text::str_eq(v, "False") || text::str_eq(v, "FALSE")
        || text::str_eq(v, "f") || text::str_eq(v, "F") {
        return native::native(Datum::Bool(false));
    }
    if n >= 2 && chars[0] == '"' && chars[n - 1] == '"' {
        let inner = unquote(slice_subrange(chars.as_slice(), 1, n - 1));
        return native::native(Datum::String(text::string_of(inner.as_slice())));
    }
    match native::parse_float(v) {
        Some(f) => f,
        None => native::native(Datum::String(v.to_owned())),
    }
}

/// The fields after one `key=value` part. A part without `=` adds nothing.
pub open spec fn with_pair(
    fields: Map<Seq<char>, nodedb_types::Value>,
    part: Seq<char>,
    typed: bool,
) -> Map<Seq<char>, nodedb_types::Value> {
    match cut_once(part, '=') {
        Some((k, v)) => fields.insert(
            k,
            if typed {
                field_value(v)
            } else {
                native::native_of(DatumView::String(v))
            },
        ),
        None => fields,
    }
}

/// The fields after several parts, in order.
pub open spec fn with_pairs(
    fields: Map<Seq<char>, nodedb_types::Value>,
    parts: Seq<Seq<char>>,
    typed: bool,
) -> Map<Seq<char>, nodedb_types::Value>
    decreases parts.len(),
{
    if parts.len() == 0 {
        fields
    } else {
        with_pair(with_pairs(fields, parts.drop_last(), typed), parts.last(), typed)
    }
}

/// The text without whitespace at its ends.
pub open spec fn trimmed(s: Seq<char>) -> Seq<char> {
    trim_end(trim_start(s))
}

/// The tags and fields of a line, a field taking the place of a tag of its
/// name. A line without an unescaped space has no field set.
pub open spec fn line_fields(line: Seq<char>) -> Option<Map<Seq<char>, nodedb_types::Value>> {
    match cut_at_space(line) {
        None => None,
        Some((key, rest)) => {
            let tags = match cut_once(key, ',') {
                Some((_, t)) => with_pairs(Map::empty(), pieces(t, ','), false),
                None => Map::empty(),
            };
            let fields = match cut_at_space(rest) {
                Some((f, _)) => f,
                None => rest,
            };
            Some(with_pairs(tags, pieces(fields, ','), true))
        },
    }
}

/// Whether a trimmed line holds no row: it is empty or a comment.
pub open spec fn holds_no_row(line: Seq<char>) -> bool {
    line.len() == 0 || line[0] == '#'
}

/// The rows of several lines, or the first line that has no field set.
pub open spec fn line_rows(lines: Seq<Seq<char>>, columns: Seq<Seq<char>>) -> Result<
    Seq<Seq<nodedb_types::Value>>,
    Seq<char>,
>
    decreases lines.len(),
{
    if lines.len() == 0 {
        Ok(Seq::empty())
    } else {
        match line_rows(lines.drop_last(), columns) {
            Err(line) => Err(line),
            Ok(before) => {
                let line = trimmed(lines.last());
                if holds_no_row(line) {
                    Ok(before)
                } else {
                    match line_fields(line) {
                        Some(fields) => Ok(before.push(rows::row_of(fields, columns))),
                        None => Err(line),
                    }
                }
            },
        }
    }
}

/// The rows of a payload in line protocol.
pub open spec fn ilp_rows(payload: Seq<u8>, columns: Seq<Seq<char>>) -> Result<
    Seq<Seq<nodedb_types::Value>>,
    ErrorView,
> {
    if !vstd::utf8::valid_utf8(payload) {
        Err(
            ErrorView::Serialization(
                "ILP payload is not valid UTF-8: "@ + text::utf8_error(payload),
            ),
        )
    } else {
        match line_rows(pieces(vstd::utf8::decode_utf8(payload), '\n'), columns) {
            Ok(rows) => Ok(rows),
            Err(line) => Err(ErrorView::Serialization("ILP line missing field set: "@ + line)),
        }
    }
}

/// Adds the `key=value` parts of a text to the fields.
fn add_pairs(fields: &mut Vec<(String, nodedb_types::Value)>, s: &[char], typed: bool)
    requires
        wire::distinct_names(old(fields)@),
    ensures
        wire::distinct_names(final(fields)@),
        wire::fields_map(final(fields)@) == with_pairs(
            wire::fields_map(old(fields)@),
            pieces(s@, ','),
            typed,
        ),
{
    let parts = split_chars(s, ',');
    let ghost start = wire::fields_map(fields@);
    let ghost all = pieces(s@, ',');
    let mut i: usize = 0;
    while i < parts.len()
        invariant
            i <= parts@.len(),
            parts_view(parts@) == all,
            wire::distinct_names(fields@),
            wire::fields_map(fields@) == with_pairs(start, all.take(i as int), typed),
        decreases parts@.len() - i,
    {
        let part = parts[i];
        proof {
            assert(all[i as int] == part@);
            assert(all.take(i as int + 1).drop_last() =~= all.take(i as int));
        }
        let end: usize = part.len();
        match find_char(part, '=') {
            Some(at) => {
                let key = text::string_of(slice_subrange(part, 0, at));
                let value = text::string_of(slice_subrange(part, at + 1, end));
                proof {
                    assert(key@ =~= part@.take(at as int));
                    assert(value@ =~= part@.skip(at as int + 1));
                }
                let datum = if typed {
                    parse_ilp_field_value(value.as_str())
                } else {
                    native::native(Datum::String(value))
                };
                wire::set_field(fields, key.as_str(), datum);
            },
            None => {},
        }
        i = i + 1;
    }
    proof {
        assert(all.take(i as int) =~= all);
    }
}

/// Drops the whitespace at both ends.
fn trim<'a>(s: &'a [char]) -> (r: &'a [char])
    ensures
        r@ == trimmed(s@),
{
    let from = skip_space(s, 0);
    proof {
        assert(s@.skip(0) =~= s@);
    }
    let mut to: usize = s.len();
    proof {
        assert(s@.subrange(from as int, to as int) =~= s@.skip(from as int));
    }
    while to > from && space(s[to - 1])
        invariant
            from <= to <= s@.len(),
            trim_end(s@.subrange(from as int, to as int)) == trim_end(s@.skip(from as int)),
        decreases to,
    {
        proof {
            let now = s@.subrange(from as int, to as int);
            assert(now.last() == s@[to - 1]);
            assert(now.drop_last() =~= s@.subrange(from as int, to - 1));
        }
        to = to - 1;
    }
    proof {
        let now = s@.subrange(from as int, to as int);
        if now.len() > 0 {
            assert(now.last() == s@[to - 1]);
        }
    }
    slice_subrange(s, from, to)
}

/// Reads the tags and fields of one line.
fn read_line(line: &[char]) -> (r: Option<Vec<(String, nodedb_types::Value)>>)
    ensures
        match r {
            Some(f) => wire::distinct_names(f@) && line_fields(line@) == Some(
                wire::fields_map(f@),
            ),
            None => line_fields(line@) is None,
        },
{
    let whole = text::string_of(line);
    let (key, rest) = match split_ilp_space(whole.as_str()) {
        Some(p) => p,
        None => return None,
    };
    let body = match split_ilp_space(rest) {
        Some(p) => p.0,
        None => rest,
    };
    let mut fields: Vec<(String, nodedb_types::Value)> = Vec::new();
    proof {
        assert(wire::fields_map(fields@) =~= Map::<Seq<char>, nodedb_types::Value>::empty());
    }
    let key_chars = text::chars_of(key);
    match find_char(key_chars.as_slice(), ',') {
        Some(at) => {
            let end: usize = key_chars.len();
            let tags = slice_subrange(key_chars.as_slice(), at + 1, end);
            proof {
                assert(tags@ =~= key@.skip(at as int + 1));
            }
            add_pairs(&mut fields, tags, false);
        },
        None => {},
    }
    let body_chars = text::chars_of(body);
    add_pairs(&mut fields, body_chars.as_slice(), true);
    Some(fields)
}

/// Reads the rows of a payload in line protocol. Names that are no columns
/// are passed over, and columns that a line does not name are null.
pub fn parse_ilp(payload: &[u8], columns: &[String]) -> (r: Result<
    Vec<Vec<nodedb_types::Value>>,
    LiteError,
>)
    ensures
        match r {
            Ok(out) => ilp_rows(payload@, names_view(columns@)) == Ok::<
                Seq<Seq<nodedb_types::Value>>,
                ErrorView,
            >(rows::table_view(out@)),
            Err(e) => ilp_rows(payload@, names_view(columns@)) == Err::<
                Seq<Seq<nodedb_types::Value>>,
                ErrorView,
            >(e@),
        },
{
    let whole = match text::utf8_string(bytes::copy_bytes(payload)) {
        Ok(s) => s,
        Err(e) => return Err(
            LiteError::Serialization {
                detail: text::concat2("ILP payload is not valid UTF-8: ", e.as_str()),
            },
        ),
    };
    let chars = text::chars_of(whole.as_str());
    let lines = split_chars(chars.as_slice(), '\n');
    let ghost all = pieces(whole@, '\n');
    let ghost names = names_view(columns@);
    let mut out: Vec<Vec<nodedb_types::Value>> = Vec::new();
    let mut i: usize = 0;
    proof {
        assert(rows::table_view(out@) =~= Seq::<Seq<nodedb_types::Value>>::empty());
    }
    while i < lines.len()
        invariant
            i <= lines@.len(),
            parts_view(lines@) == all,
            names == names_view(columns@),
            vstd::utf8::valid_utf8(payload@),
            all == pieces(vstd::utf8::decode_utf8(payload@), '\n'),
            line_rows(all.take(i as int), names) == Ok::<
                Seq<Seq<nodedb_types::Value>>,
                Seq<char>,
            >(rows::table_view(out@)),
        decreases lines@.len() - i,
    {
        proof {
            assert(all[i as int] == lines@[i as int]@);
            assert(all.take(i as int + 1).drop_last() =~= all.take(i as int));
        }
        let line = trim(lines[i]);
        if line.len() > 0 && line[0] != '#' {
            match read_line(line) {
                Some(fields) => {
                    let row = rows::ordered_row(&fields, columns);
                    let ghost before = rows::table_view(out@);
                    out.push(row);
                    proof {
                        assert(rows::table_view(out@) =~= before.push(row@));
                    }
                },
                None => {
                    proof {
                        lemma_first_error(all, names, i as int + 1);
                    }
                    let shown = text::string_of(line);
                    return Err(
                        LiteError::Serialization {
                            detail: text::concat2("ILP line missing field set: ", shown.as_str()),
                        },
                    );
                },
            }
        }
        i = i + 1;
    }
    proof {
        assert(all.take(i as int) =~= all);
    }
    Ok(out)
}

proof fn lemma_first_error(lines: Seq<Seq<char>>, columns: Seq<Seq<char>>, k: int)
    requires
        0 <= k <= lines.len(),
        line_rows(lines.take(k), columns) is Err,
    ensures
        line_rows(lines, columns) == line_rows(lines.take(k), columns),
    decreases lines.len() - k,
{
    if k < lines.len() {
        assert(lines.take(k + 1).drop_last() =~= lines.take(k));
        lemma_first_error(lines, columns, k + 1);
    } else {
        assert(lines.take(k) =~= lines);
    }
}

} // verus!
