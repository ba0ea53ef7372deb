//! Texts that the `nodedb_types` crate reads as points in time.
//!
//! `nodedb_types::NdbDateTime::parse` takes `2024-03-15` and
//! `2024-03-15T10:30:00.123456Z` apart, cuts the fraction of a second behind its
//! sixth byte, and counts the days of the date in 32-bit integers. Of a few texts
//! the sixth byte lies inside a character, or the count leaves its range. Those
//! are told apart here, so that they are never handed to it.
use crate::chars::{
    head, number, number_of, position, position_of, tail, trim, trim_mark, trimmed, without_mark,
};
use vstd::prelude::*;

verus! {

/// A time without white space around it and without its zone mark.
pub open spec fn bare(s: Seq<char>) -> Seq<char> {
    without_mark(without_mark(trimmed(s), 'Z'), 'z')
}

/// How many bytes a character takes.
pub open spec fn width(c: char) -> nat {
    let n = c as u32;
    if n < 0x80 {
        1
    } else if n < 0x800 {
        2
    } else if n < 0x10000 {
        3
    } else {
        4
    }
}

/// How many bytes a text takes.
pub open spec fn bytes(s: Seq<char>) -> nat
    decreases s.len(),
{
    if s.len() == 0 {
        0
    } else {
        bytes(s.drop_last()) + width(s.last())
    }
}

/// The year, month and day that a text holds.
pub open spec fn date(s: Seq<char>) -> Option<(int, int, int)> {
    let i = position(s, '-');
    let rest = s.skip(i + 1);
    let j = position(rest, '-');
    let day = rest.skip(j + 1);
    if i < s.len() && j < rest.len() && position(day, '-') == day.len() {
        match (
            number(s.take(i), i32::MAX as int),
            number(rest.take(j), u32::MAX as int),
            number(day, u32::MAX as int),
        ) {
            (Some(y), Some(m), Some(d)) => Some((y, m, d)),
            _ => None,
        }
    } else {
        None
    }
}

/// Whether the days of a date can be counted in 32-bit integers. The count goes
/// by years that begin in March.
pub open spec fn countable(year: int, month: int, day: int) -> bool {
    let y = if month <= 2 {
        year - 1
    } else {
        year
    };
    let m = if month <= 2 {
        month + 9
    } else {
        month - 3
    };
    let cycle = y % 400;
    let ahead = (153 * m + 2) / 5 + day;
    &&& 153 * m + 2 <= u32::MAX
    &&& 1 <= ahead <= u32::MAX
    &&& cycle * 365 + cycle / 4 - cycle / 100 + ahead - 1 <= u32::MAX
}

/// Whether a text names no date, or one whose days can be counted.
pub open spec fn sound_date(s: Seq<char>) -> bool {
    match date(s) {
        Some((y, m, d)) => countable(y, m, d),
        None => true,
    }
}

/// Whether a text names an hour and a minute: two numbers with a colon between
/// them, and nothing or a colon behind them.
pub open spec fn names_time(s: Seq<char>) -> bool {
    let i = position(s, ':');
    let rest = s.skip(i + 1);
    i < s.len() && number(s.take(i), u32::MAX as int) is Some && number(
        rest.take(position(rest, ':')),
        u32::MAX as int,
    ) is Some
}

/// Whether a character of a text ends behind a byte, where the text is filled
/// up with zeros.
pub open spec fn cuts_at(s: Seq<char>, byte: int) -> bool
    decreases s.len(),
{
    if s.len() == 0 || byte == 0 {
        true
    } else {
        width(s[0]) <= byte && cuts_at(s.skip(1), byte - width(s[0]))
    }
}

/// Whether a time of day names no time, or one whose fraction can be cut.
pub open spec fn cuttable(s: Seq<char>) -> bool {
    let dot = position(s, '.');
    names_time(s.take(dot)) ==> dot == s.len() || cuts_at(s.skip(dot + 1), 6)
}

/// The position at which a date ends and a time of day begins, the length where
/// there is none.
pub open spec fn divide(s: Seq<char>) -> int {
    if position(s, 'T') < s.len() {
        position(s, 'T')
    } else {
        position(s, ' ')
    }
}

/// Whether a text with a date and a time of day names no time, or one that can
/// be read.
pub open spec fn sound_time(s: Seq<char>) -> bool {
    let at = divide(s);
    let day = s.take(at);
    let time = s.skip(at + 1);
    at < s.len() && date(day) is Some ==> cuttable(time) && (names_time(
        time.take(position(time, '.')),
    ) ==> sound_date(day))
}

/// Whether `nodedb_types::NdbDateTime::parse` answers for a text, be it that the
/// text names no point in time.
pub open spec fn calm(s: Seq<char>) -> bool {
    let t = bare(s);
    if bytes(t) == 10 {
        sound_date(t)
    } else {
        sound_time(t)
    }
}

/// A date of the calendar can be counted, whatever its year.
pub proof fn calendar_dates_are_countable(year: int, month: int, day: int)
    requires
        0 <= year <= i32::MAX,
        1 <= month <= 12,
        1 <= day <= 31,
    ensures
        countable(year, month, day),
{
}

/// Only a text that begins with a date can be refused.
pub proof fn only_dates_are_refused(s: Seq<char>)
    requires
        date(bare(s)) is None,
        date(bare(s).take(divide(bare(s)))) is None,
    ensures
        calm(s),
{
}

fn width_of(c: char) -> (r: usize)
    ensures
        r == width(c),
        1 <= r <= 4,
{
    let n: u32 = c as u32;
    if n < 0x80 {
        1
    } else if n < 0x800 {
        2
    } else if n < 0x10000 {
        3
    } else {
        4
    }
}

proof fn lemma_bytes(s: Seq<char>, n: int)
    requires
        0 <= n <= s.len(),
    ensures
        bytes(s.take(n)) <= bytes(s),
        bytes(s) >= s.len(),
    decreases s.len(),
{
    if n < s.len() {
        assert(s.drop_last().take(n) =~= s.take(n));
        lemma_bytes(s.drop_last(), n);
    } else {
        assert(s.take(n) =~= s);
        if s.len() > 0 {
            lemma_bytes(s.drop_last(), s.len() - 1);
        }
    }
}

/// Whether a text takes ten bytes.
fn takes_ten(s: &[char]) -> (r: bool)
    ensures
        r == (bytes(s@) == 10),
{
    let mut n: usize = 0;
    let mut i: usize = 0;
    proof {
        assert(s@.take(0) =~= Seq::<char>::empty());
    }
    while i < s.len()
        invariant
            i <= s@.len(),
            n <= 10,
            n == bytes(s@.take(i as int)),
        decreases s@.len() - i,
    {
        proof {
            assert(s@.take(i as int + 1).drop_last() =~= s@.take(i as int));
            lemma_bytes(s@, i as int + 1);
        }
        n = n + width_of(s[i]);
        if n > 10 {
            return false;
        }
        i = i + 1;
    }
    proof {
        assert(s@.take(i as int) =~= s@);
    }
    n == 10
}

fn date_of(s: &[char]) -> (r: Option<(u64, u64, u64)>)
    ensures
        match r {
            Some((y, m, d)) => date(s@) == Some((y as int, m as int, d as int)) && y <= i32::MAX
                && m <= u32::MAX && d <= u32::MAX,
            None => date(s@) is None,
        },
{
    let i = position_of(s, '-');
    if i == s.len() {
        return None;
    }
    let rest = tail(s, i + 1);
    let j = position_of(rest, '-');
    if j == rest.len() {
        return None;
    }
    let day = tail(rest, j + 1);
    if position_of(day, '-') < day.len() {
        return None;
    }
    let y = number_of(head(s, i), 0x7fff_ffff);
    let m = number_of(head(rest, j), 0xffff_ffff);
    let d = number_of(day, 0xffff_ffff);
    match (y, m, d) {
        (Some(y), Some(m), Some(d)) => Some((y, m, d)),
        _ => None,
    }
}

fn is_countable(year: u64, month: u64, day: u64) -> (r: bool)
    requires
        year <= i32::MAX,
        month <= u32::MAX,
        day <= u32::MAX,
    ensures
        r == countable(year as int, month as int, day as int),
{
    let y: u64 = if month <= 2 {
        year + 399
    } else {
        year + 400
    };
    let m: u64 = if month <= 2 {
        month + 9
    } else {
        month - 3
    };
    let cycle: u64 = y % 400;
    proof {
        let whole = if month <= 2 {
            year - 1
        } else {
            year as int
        };
        assert(whole % 400 == cycle) by (nonlinear_arith)
            requires
                cycle == y % 400,
                y == whole + 400,
        ;
    }
    if 153 * m + 2 > 0xffff_ffff {
        return false;
    }
    let ahead: u64 = (153 * m + 2) / 5 + day;
    if ahead == 0 || ahead > 0xffff_ffff {
        return false;
    }
    cycle * 365 + cycle / 4 - cycle / 100 + ahead - 1 <= 0xffff_ffff
}

fn is_sound_date(s: &[char]) -> (r: bool)
    ensures
        r == sound_date(s@),
{
    match date_of(s) {
        Some((y, m, d)) => is_countable(y, m, d),
        None => true,
    }
}

fn has_time(s: &[char]) -> (r: bool)
    ensures
        r == names_time(s@),
{
    let i = position_of(s, ':');
    if i == s.len() {
        return false;
    }
    let rest = tail(s, i + 1);
    let j = position_of(rest, ':');
    number_of(head(s, i), 0xffff_ffff).is_some() && number_of(
        head(rest, j),
        0xffff_ffff,
    ).is_some()
}

fn is_cut_at(s: &[char], byte: usize) -> (r: bool)
    ensures
        r == cuts_at(s@, byte as int),
{
    let mut left: usize = byte;
    let mut i: usize = 0;
    proof {
        assert(s@.skip(0) =~= s@);
    }
    while i < s.len() && left > 0
        invariant
            i <= s@.len(),
            cuts_at(s@, byte as int) == cuts_at(s@.skip(i as int), left as int),
        decreases s@.len() - i,
    {
        let w = width_of(s[i]);
        if w > left {
            return false;
        }
        proof {
            assert(s@.skip(i as int).skip(1) =~= s@.skip(i as int + 1));
        }
        left = left - w;
        i = i + 1;
    }
    true
}

fn is_sound_time(s: &[char]) -> (r: bool)
    ensures
        r == sound_time(s@),
{
    let t = position_of(s, 'T');
    let at = if t < s.len() {
        t
    } else {
        position_of(s, ' ')
    };
    if at == s.len() {
        return true;
    }
    let day = head(s, at);
    let time = tail(s, at + 1);
    let dot = position_of(time, '.');
    match date_of(day) {
        None => true,
        Some((y, m, d)) => if has_time(head(time, dot)) {
            is_countable(y, m, d) && (dot == time.len() || is_cut_at(tail(time, dot + 1), 6))
        } else {
            true
        },
    }
}

/// Whether `nodedb_types::NdbDateTime::parse` answers for a text.
pub fn is_calm(s: &[char]) -> (r: bool)
    ensures
        r == calm(s@),
{
    let t = trim_mark(trim_mark(trim(s), 'Z'), 'z');
    if takes_ten(t) {
        is_sound_date(t)
    } else {
        is_sound_time(t)
    }
}

} // verus!
