//! Texts as lists of characters: cutting them up and reading numbers.
use vstd::prelude::*;
use vstd::slice::slice_subrange;

verus! {

/// Whether a character is white space.
pub open spec fn white(c: char) -> bool {
    let n = c as u32;
    9 <= n <= 13 || n == 0x20 || n == 0x85 || n == 0xa0 || n == 0x1680 || 0x2000 <= n <= 0x200a || n
        == 0x2028 || n == 0x2029 || n == 0x202f || n == 0x205f || n == 0x3000
}

/// Whether a character is white space.
pub fn is_white(c: char) -> (r: bool)
    ensures
        r == white(c),
{
    let n: u32 = c as u32;
    9 <= n && n <= 13 || n == 0x20 || n == 0x85 || n == 0xa0 || n == 0x1680 || 0x2000 <= n && n
        <= 0x200a || n == 0x2028 || n == 0x2029 || n == 0x202f || n == 0x205f || n == 0x3000
}

/// A text without the white space at its beginning.
pub open spec fn without_front(s: Seq<char>) -> Seq<char>
    decreases s.len(),
{
    if s.len() > 0 && white(s[0]) {
        without_front(s.skip(1))
    } else {
        s
    }
}

/// A text without the white space at its end.
pub open spec fn without_back(s: Seq<char>) -> Seq<char>
    decreases s.len(),
{
    if s.len() > 0 && white(s.last()) {
        without_back(s.drop_last())
    } else {
        s
    }
}

/// A text without the occurrences of a character at its end.
pub open spec fn without_mark(s: Seq<char>, c: char) -> Seq<char>
    decreases s.len(),
{
    if s.len() > 0 && s.last() == c {
        without_mark(s.drop_last(), c)
    } else {
        s
    }
}

/// A text without the white space around it.
pub open spec fn trimmed(s: Seq<char>) -> Seq<char> {
    without_back(without_front(s))
}

/// The position of a character in a text, the length where it does not occur.
pub open spec fn position(s: Seq<char>, c: char) -> int
    decreases s.len(),
{
    if s.len() == 0 || s[0] == c {
        0
    } else {
        1 + position(s.skip(1), c)
    }
}

/// Whether a text is made of decimal digits, at least one.
pub open spec fn digits(s: Seq<char>) -> bool {
    s.len() > 0 && forall|i: int| 0 <= i < s.len() ==> '0' <= #[trigger] s[i] <= '9'
}

/// The number that decimal digits stand for.
pub open spec fn amount(s: Seq<char>) -> int
    decreases s.len(),
{
    if s.len() == 0 {
        0
    } else {
        amount(s.drop_last()) * 10 + (s.last() as int - '0' as int)
    }
}

/// The number that a text holds, up to a greatest one. A plus sign may stand
/// before it.
pub open spec fn number(s: Seq<char>, most: int) -> Option<int> {
    let d = if s.len() > 0 && s[0] == '+' {
        s.skip(1)
    } else {
        s
    };
    if digits(d) && amount(d) <= most {
        Some(amount(d))
    } else {
        None
    }
}

proof fn lemma_position(s: Seq<char>, c: char, i: int)
    requires
        0 <= i <= s.len(),
        forall|j: int| 0 <= j < i ==> s[j] != c,
        i == s.len() || s[i] == c,
    ensures
        position(s, c) == i,
    decreases i,
{
    if i > 0 {
        assert(s[0] != c);
        let rest = s.skip(1);
        assert forall|j: int| 0 <= j < i - 1 implies rest[j] != c by {
            assert(s[j + 1] != c);
        }
        lemma_position(rest, c, i - 1);
    }
}

/// The position of a character in a text, the length where it does not occur.
pub fn position_of(s: &[char], c: char) -> (r: usize)
    ensures
        r == position(s@, c),
        r <= s@.len(),
{
    let mut i: usize = 0;
    while i < s.len()
        invariant
            i <= s@.len(),
            forall|j: int| 0 <= j < i ==> s@[j] != c,
        decreases s@.len() - i,
    {
        if s[i] == c {
            proof {
                lemma_position(s@, c, i as int);
            }
            return i;
        }
        i = i + 1;
    }
    proof {
        lemma_position(s@, c, i as int);
    }
    i
}

/// A text without the white space at its beginning.
pub fn trim_front(s: &[char]) -> (r: &[char])
    ensures
        r@ == without_front(s@),
{
    let mut i: usize = 0;
    proof {
        assert(s@.skip(0) =~= s@);
    }
    while i < s.len() && is_white(s[i])
        invariant
            i <= s@.len(),
            without_front(s@) == without_front(s@.skip(i as int)),
        decreases s@.len() - i,
    {
        proof {
            assert(s@.skip(i as int).skip(1) =~= s@.skip(i as int + 1));
        }
        i = i + 1;
    }
    proof {
        assert(s@.skip(i as int) =~= s@.subrange(i as int, s@.len() as int));
    }
    slice_subrange(s, i, s.len())
}

fn trim_back(s: &[char]) -> (r: &[char])
    ensures
        r@ == without_back(s@),
{
    let mut n: usize = s.len();
    proof {
        assert(s@.take(n as int) =~= s@);
    }
    while n > 0 && is_white(s[n - 1])
        invariant
            n <= s@.len(),
            without_back(s@) == without_back(s@.take(n as int)),
        decreases n,
    {
        proof {
            assert(s@.take(n as int).drop_last() =~= s@.take(n as int - 1));
        }
        n = n - 1;
    }
    proof {
        assert(s@.take(n as int) =~= s@.subrange(0, n as int));
    }
    slice_subrange(s, 0, n)
}

/// A text without the occurrences of a character at its end.
pub fn trim_mark(s: &[char], c: char) -> (r: &[char])
    ensures
        r@ == without_mark(s@, c),
{
    let mut n: usize = s.len();
    proof {
        assert(s@.take(n as int) =~= s@);
    }
    while n > 0 && s[n - 1] == c
        invariant
            n <= s@.len(),
            without_mark(s@, c) == without_mark(s@.take(n as int), c),
        decreases n,
    {
        proof {
            assert(s@.take(n as int).drop_last() =~= s@.take(n as int - 1));
        }
        n = n - 1;
    }
    proof {
        assert(s@.take(n as int) =~= s@.subrange(0, n as int));
    }
    slice_subrange(s, 0, n)
}

/// A text without the white space around it.
pub fn trim(s: &[char]) -> (r: &[char])
    ensures
        r@ == trimmed(s@),
{
    trim_back(trim_front(s))
}

/// The first characters of a text.
pub fn head(s: &[char], n: usize) -> (r: &[char])
    requires
        n <= s@.len(),
    ensures
        r@ == s@.take(n as int),
{
    proof {
        assert(s@.take(n as int) =~= s@.subrange(0, n as int));
    }
    slice_subrange(s, 0, n)
}

/// What is left of a text behind its first characters.
pub fn tail(s: &[char], n: usize) -> (r: &[char])
    requires
        n <= s@.len(),
    ensures
        r@ == s@.skip(n as int),
{
    proof {
        assert(s@.skip(n as int) =~= s@.subrange(n as int, s@.len() as int));
    }
    slice_subrange(s, n, s.len())
}

proof fn lemma_amount(s: Seq<char>, n: int)
    requires
        digits(s),
        0 <= n <= s.len(),
    ensures
        0 <= amount(s.take(n)) <= amount(s),
    decreases s.len(),
{
    let less = s.drop_last();
    assert('0' <= s[s.len() - 1] <= '9');
    if n < s.len() {
        assert(less.take(n) =~= s.take(n));
        if less.len() > 0 {
            assert forall|i: int| 0 <= i < less.len() implies '0' <= #[trigger] less[i] <= '9' by {
                assert('0' <= s[i] <= '9');
            }
            lemma_amount(less, n);
        } else {
            assert(s.take(n) =~= less);
            assert(amount(less) == 0);
        }
    } else {
        assert(s.take(n) =~= s);
        if less.len() > 0 {
            assert forall|i: int| 0 <= i < less.len() implies '0' <= #[trigger] less[i] <= '9' by {
                assert('0' <= s[i] <= '9');
            }
            lemma_amount(less, less.len() as int);
            assert(less.take(less.len() as int) =~= less);
        } else {
            assert(amount(less) == 0);
        }
    }
}

/// The number that a text holds, up to a greatest one.
pub fn number_of(s: &[char], most: u64) -> (r: Option<u64>)
    requires
        most <= u32::MAX,
    ensures
        match r {
            Some(n) => number(s@, most as int) == Some(n as int),
            None => number(s@, most as int) is None,
        },
{
    let d = if s.len() > 0 && s[0] == '+' {
        tail(s, 1)
    } else {
        s
    };
    if d.len() == 0 {
        return None;
    }
    let mut n: u64 = 0;
    let mut i: usize = 0;
    proof {
        assert(d@.take(0) =~= Seq::<char>::empty());
    }
    while i < d.len()
        invariant
            i <= d@.len(),
            d@.len() > 0,
            most <= u32::MAX,
            d@ == if s@.len() > 0 && s@[0] == '+' {
                s@.skip(1)
            } else {
                s@
            },
            0 <= n <= most,
            n == amount(d@.take(i as int)),
            forall|j: int| 0 <= j < i ==> '0' <= #[trigger] d@[j] <= '9',
        decreases d@.len() - i,
    {
        let c = d[i];
        if c < '0' || c > '9' {
            assert(!digits(d@));
            return None;
        }
        proof {
            assert(d@.take(i as int + 1).drop_last() =~= d@.take(i as int));
            assert(d@.take(i as int + 1).last() == c);
        }
        n = n * 10 + (c as u64 - '0' as u64);
        if n > most {
            proof {
                if digits(d@) {
                    lemma_amount(d@, i as int + 1);
                }
            }
            return None;
        }
        i = i + 1;
    }
    proof {
        assert(d@.take(i as int) =~= d@);
        assert(digits(d@));
    }
    Some(n)
}

} // verus!
