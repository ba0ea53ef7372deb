//! Integers as digit strings of a fixed width.
//!
//! Stored keys end in such numbers, so that the order of the keys is the order
//! of the numbers.
use vstd::arithmetic::div_mod::*;
use vstd::arithmetic::mul::*;
use vstd::arithmetic::power::*;
use vstd::prelude::*;

verus! {

/// The character of the digit `d`, below sixteen, in lower case.
pub open spec fn digit_byte(d: nat) -> u8 {
    if d < 10 {
        (48 + d) as u8
    } else {
        (87 + d) as u8
    }
}

/// The digit that a character stands for in `base`, if any.
pub open spec fn digit_of(b: u8, base: nat) -> Option<nat> {
    if 48 <= b <= 57 && b - 48 < base {
        Some((b - 48) as nat)
    } else if 97 <= b <= 102 && b - 87 < base {
        Some((b - 87) as nat)
    } else {
        None
    }
}

/// The last `width` digits of `n` in `base`.
pub open spec fn fixed(n: nat, base: nat, width: nat) -> Seq<u8>
    decreases width,
{
    if width == 0 {
        Seq::empty()
    } else {
        fixed(n / base, base, (width - 1) as nat).push(digit_byte(n % base))
    }
}

/// The number that a digit string stands for, if it holds digits alone.
pub open spec fn number(s: Seq<u8>, base: nat) -> Option<nat>
    decreases s.len(),
{
    if s.len() == 0 {
        Some(0nat)
    } else {
        match (number(s.drop_last(), base), digit_of(s.last(), base)) {
            (Some(v), Some(d)) => Some(v * base + d),
            _ => None,
        }
    }
}

/// Writes the last `width` digits of `n`.
pub fn fixed_digits(n: u64, base: u64, width: usize) -> (r: Vec<u8>)
    requires
        2 <= base <= 16,
    ensures
        r@ == fixed(n as nat, base as nat, width as nat),
    decreases width,
{
    if width == 0 {
        let r: Vec<u8> = Vec::new();
        proof {
            assert(r@ =~= Seq::empty());
        }
        r
    } else {
        let mut head = fixed_digits(n / base, base, width - 1);
        let d: u64 = n % base;
        let b: u8 = if d < 10 {
            48 + d as u8
        } else {
            87 + d as u8
        };
        head.push(b);
        head
    }
}

/// Reads a digit string. `None` stands for a character that is no digit, or
/// for a number that does not fit.
pub fn parse_digits(s: &[u8], base: u64) -> (r: Option<u64>)
    requires
        2 <= base <= 16,
    ensures
        match r {
            Some(v) => number(s@, base as nat) == Some(v as nat),
            None => number(s@, base as nat) is None || number(s@, base as nat)->0 > u64::MAX,
        },
{
    let mut v: u64 = 0;
    let mut i: usize = 0;
    proof {
        assert(s@.take(0) =~= Seq::empty());
    }
    while i < s.len()
        invariant
            i <= s@.len(),
            2 <= base <= 16,
            number(s@.take(i as int), base as nat) == Some(v as nat),
        decreases s@.len() - i,
    {
        let b: u8 = s[i];
        proof {
            let next = s@.take(i as int + 1);
            assert(next.drop_last() =~= s@.take(i as int));
            assert(next.last() == b);
            if number(s@.take(i as int + 1), base as nat) is None || number(
                s@.take(i as int + 1),
                base as nat,
            )->0 > u64::MAX {
                lemma_number_grows(s@, base as nat, i as int + 1);
            }
        }
        let d: u64 = if 48 <= b && b <= 57 {
            (b - 48) as u64
        } else if 97 <= b && b <= 102 {
            (b - 87) as u64
        } else {
            return None;
        };
        if d >= base {
            return None;
        }
        match v.checked_mul(base) {
            None => {
                proof {
                    assert(v * base + d > u64::MAX);
                }
                return None;
            },
            Some(shifted) => match shifted.checked_add(d) {
                None => {
                    return None;
                },
                Some(sum) => {
                    v = sum;
                },
            },
        }
        i = i + 1;
    }
    proof {
        assert(s@.take(s@.len() as int) =~= s@);
    }
    Some(v)
}

/// A prefix that is no number, or too large a one, is not mended by what
/// follows it.
proof fn lemma_number_grows(s: Seq<u8>, base: nat, i: int)
    requires
        0 <= i <= s.len(),
        base >= 2,
        number(s.take(i), base) is None || number(s.take(i), base)->0 > u64::MAX,
    ensures
        number(s, base) is None || number(s, base)->0 > u64::MAX,
    decreases s.len() - i,
{
    if i == s.len() {
        assert(s.take(i) =~= s);
    } else {
        let next = s.take(i + 1);
        assert(next.drop_last() =~= s.take(i));
        if number(next, base) is Some {
            let v = number(s.take(i), base)->0;
            let d = digit_of(next.last(), base)->0;
            assert(v * base + d >= v) by (nonlinear_arith)
                requires
                    base >= 2,
                    v >= 0,
                    d >= 0,
            ;
        }
        lemma_number_grows(s, base, i + 1);
    }
}

/// A digit string of full width has that many digits.
pub proof fn fixed_len(n: nat, base: nat, width: nat)
    requires
        base > 0,
    ensures
        fixed(n, base, width).len() == width,
    decreases width,
{
    if width > 0 {
        fixed_len(n / base, base, (width - 1) as nat);
    }
}

/// What is written in full width is read back.
pub proof fn fixed_round_trip(n: nat, base: nat, width: nat)
    requires
        2 <= base <= 16,
        n < pow(base as int, width),
    ensures
        number(fixed(n, base, width), base) == Some(n),
    decreases width,
{
    reveal(pow);
    if width > 0 {
        let w = (width - 1) as nat;
        let p = pow(base as int, w);
        assert(n < base * p);
        assert(n / base < p) by (nonlinear_arith)
            requires
                n < base * p,
                base >= 2,
        ;
        fixed_round_trip(n / base, base, w);
        let s = fixed(n, base, width);
        assert(s.drop_last() =~= fixed(n / base, base, w));
        assert(n % base < base) by (nonlinear_arith)
            requires
                base >= 2,
        ;
        assert(digit_of(digit_byte(n % base), base) == Some(n % base));
        lemma_fundamental_div_mod(n as int, base as int);
        assert((n / base) * base == base * (n / base)) by (nonlinear_arith);
    }
}

/// What is read is the number in full width: no other digits stand for it.
pub proof fn fixed_of_number(s: Seq<u8>, base: nat)
    requires
        2 <= base <= 16,
        number(s, base) is Some,
    ensures
        fixed(number(s, base)->0, base, s.len()) == s,
    decreases s.len(),
{
    let n = number(s, base)->0;
    if s.len() > 0 {
        let v = number(s.drop_last(), base)->0;
        let d = digit_of(s.last(), base)->0;
        fixed_of_number(s.drop_last(), base);
        assert(n == v * base + d && d < base);
        assert(n / base == v && n % base == d) by (nonlinear_arith)
            requires
                n == v * base + d,
                d < base,
                base >= 2,
        ;
        assert(digit_byte(d) == s.last());
        assert(s.drop_last().push(s.last()) =~= s);
    } else {
        assert(fixed(n, base, 0) =~= s);
    }
}

/// The order of byte strings in the store: the first difference decides, and a
/// string comes before its extensions.
pub open spec fn before(a: Seq<u8>, b: Seq<u8>) -> bool {
    exists|i: int| #[trigger] differs_at(a, b, i)
}

/// Whether `a` and `b` agree up to `i`, where `a` ends or holds less.
pub open spec fn differs_at(a: Seq<u8>, b: Seq<u8>, i: int) -> bool {
    &&& 0 <= i < b.len()
    &&& i <= a.len()
    &&& a.take(i) == b.take(i)
    &&& i == a.len() || a[i] < b[i]
}

/// Digit strings of one width are ordered as their numbers are.
pub proof fn fixed_keeps_order(n: nat, m: nat, base: nat, width: nat)
    requires
        2 <= base <= 16,
        n < m,
        m < pow(base as int, width),
    ensures
        before(fixed(n, base, width), fixed(m, base, width)),
    decreases width,
{
    reveal(pow);
    if width > 0 {
        let w = (width - 1) as nat;
        let p = pow(base as int, w);
        let a = fixed(n / base, base, w);
        let b = fixed(m / base, base, w);
        fixed_len(n / base, base, w);
        fixed_len(m / base, base, w);
        lemma_fundamental_div_mod(n as int, base as int);
        lemma_fundamental_div_mod(m as int, base as int);
        assert(m < base * p);
        assert(m / base < p) by (nonlinear_arith)
            requires
                m < base * p,
                base >= 2,
        ;
        assert(n / base <= m / base) by (nonlinear_arith)
            requires
                n < m,
                base >= 2,
        ;
        assert(n % base < base && m % base < base) by (nonlinear_arith)
            requires
                base >= 2,
        ;
        let x = digit_byte(n % base);
        let y = digit_byte(m % base);
        if n / base < m / base {
            fixed_keeps_order(n / base, m / base, base, w);
            let i = choose|i: int| #[trigger] differs_at(a, b, i);
            assert(a.push(x).take(i) =~= a.take(i));
            assert(b.push(y).take(i) =~= b.take(i));
            if i == a.len() {
                assert(false);
            }
            assert(differs_at(a.push(x), b.push(y), i));
        } else {
            assert(n % base < m % base);
            assert(a.push(x).take(w as int) =~= a);
            assert(b.push(y).take(w as int) =~= b);
            assert(differs_at(a.push(x), b.push(y), w as int));
        }
    } else {
        assert(pow(base as int, 0) == 1);
    }
}

/// The order of byte strings is the order of what follows a common prefix.
pub proof fn common_prefix_keeps_order(prefix: Seq<u8>, a: Seq<u8>, b: Seq<u8>)
    requires
        before(a, b),
    ensures
        before(prefix + a, prefix + b),
{
    let i = choose|i: int| #[trigger] differs_at(a, b, i);
    let k = prefix.len() + i;
    assert((prefix + a).take(k) =~= prefix + a.take(i));
    assert((prefix + b).take(k) =~= prefix + b.take(i));
    assert(differs_at(prefix + a, prefix + b, k));
}

/// Nothing lies between a key and the key with a zero byte appended: a scan
/// that resumes there misses no key and reads none twice.
pub proof fn successor_is_next(key: Seq<u8>, other: Seq<u8>)
    ensures
        before(key, key.push(0)),
        before(key, other) ==> other == key.push(0) || before(key.push(0), other),
{
    let next = key.push(0);
    assert(key.take(key.len() as int) =~= key);
    assert(next.take(key.len() as int) =~= key);
    assert(differs_at(key, next, key.len() as int));
    if before(key, other) {
        let i = choose|i: int| #[trigger] differs_at(key, other, i);
        if i == key.len() {
            assert(other.take(i) =~= key);
            if other[i] == 0 {
                if other.len() == i + 1 {
                    assert(other =~= next);
                } else {
                    assert(other.take(i + 1) =~= next);
                    assert(next.take(i + 1) =~= next);
                    assert(differs_at(next, other, i + 1));
                }
            } else {
                assert(next.take(i) =~= key);
                assert(differs_at(next, other, i));
            }
        } else {
            assert(next.take(i) =~= key.take(i));
            assert(differs_at(next, other, i));
        }
    }
}

/// Whether `a` comes before `b` in the order of bytes.
pub fn bytes_before(a: &[u8], b: &[u8]) -> (r: bool)
    ensures
        r == before(a@, b@),
{
    let mut i: usize = 0;
    while i < a.len() && i < b.len() && a[i] == b[i]
        invariant
            i <= a@.len(),
            i <= b@.len(),
            a@.take(i as int) == b@.take(i as int),
        decreases a@.len() - i,
    {
        proof {
            assert(a@.take(i as int + 1) =~= a@.take(i as int).push(a@[i as int]));
            assert(b@.take(i as int + 1) =~= b@.take(i as int).push(b@[i as int]));
        }
        i = i + 1;
    }
    let r: bool = i < b.len() && (i == a.len() || a[i] < b[i]);
    proof {
        if r {
            assert(differs_at(a@, b@, i as int));
        } else if before(a@, b@) {
            let k = choose|k: int| #[trigger] differs_at(a@, b@, k);
            if k < i {
                assert(a@.take(i as int)[k] == b@.take(i as int)[k]);
            } else if k > i {
                assert(a@.take(k)[i as int] == b@.take(k)[i as int]);
            }
        }
    }
    r
}

/// Of two byte strings, one comes first.
pub proof fn lemma_before_total(a: Seq<u8>, b: Seq<u8>)
    ensures
        a == b || before(a, b) || before(b, a),
{
    let n = if a.len() < b.len() {
        a.len()
    } else {
        b.len()
    };
    assert(a.take(0) =~= b.take(0));
    lemma_first_difference(a, b, 0, n as int);
}

proof fn lemma_first_difference(a: Seq<u8>, b: Seq<u8>, i: int, n: int)
    requires
        0 <= i <= n,
        n <= a.len(),
        n <= b.len(),
        n == a.len() || n == b.len(),
        a.take(i) == b.take(i),
    ensures
        a == b || before(a, b) || before(b, a),
    decreases n - i,
{
    if i == n {
        if a.len() == b.len() {
            assert(a.take(i) =~= a);
            assert(b.take(i) =~= b);
        } else if a.len() == n {
            assert(differs_at(a, b, i));
        } else {
            assert(differs_at(b, a, i));
        }
    } else if a[i] == b[i] {
        assert(a.take(i + 1) =~= a.take(i).push(a[i]));
        assert(b.take(i + 1) =~= b.take(i).push(b[i]));
        lemma_first_difference(a, b, i + 1, n);
    } else if a[i] < b[i] {
        assert(differs_at(a, b, i));
    } else {
        assert(differs_at(b, a, i));
    }
}

/// No byte string comes before itself.
pub proof fn lemma_not_before_itself(a: Seq<u8>)
    ensures
        !before(a, a),
{
    if before(a, a) {
        let i = choose|i: int| #[trigger] differs_at(a, a, i);
        assert(differs_at(a, a, i));
    }
}

/// The order of byte strings is transitive.
pub proof fn lemma_before_transitive(a: Seq<u8>, b: Seq<u8>, c: Seq<u8>)
    requires
        before(a, b),
        before(b, c),
    ensures
        before(a, c),
{
    let i = choose|i: int| #[trigger] differs_at(a, b, i);
    let j = choose|j: int| #[trigger] differs_at(b, c, j);
    let k = if i < j {
        i
    } else {
        j
    };
    assert(a.take(k) =~= c.take(k)) by {
        assert forall|m: int| 0 <= m < k implies a[m] == c[m] by {
            assert(a.take(i)[m] == b.take(i)[m]);
            assert(b.take(j)[m] == c.take(j)[m]);
        }
    }
    if i < j {
        assert(b.take(j)[i] == c.take(j)[i]);
    } else if j < i {
        assert(a.take(i)[j] == b.take(i)[j]);
    }
    assert(differs_at(a, c, k));
}

/// What lies between a byte string and an extension of it is an extension, too.
pub proof fn lemma_between_extensions(prefix: Seq<u8>, a: Seq<u8>, b: Seq<u8>)
    requires
        a == prefix || before(prefix, a),
        before(a, b),
        prefix.is_prefix_of(b),
    ensures
        prefix.is_prefix_of(a),
{
    if a != prefix {
        let i = choose|i: int| #[trigger] differs_at(prefix, a, i);
        let j = choose|j: int| #[trigger] differs_at(a, b, j);
        if i < prefix.len() {
            assert(b.subrange(0, prefix.len() as int)[i] == prefix[i]);
            if j < i {
                assert(prefix.take(i)[j] == a.take(i)[j]);
                assert(b.subrange(0, prefix.len() as int)[j] == prefix[j]);
            } else if j > i {
                assert(a.take(j)[i] == b.take(j)[i]);
            }
            assert(false);
        }
        assert(prefix.take(i) =~= prefix);
        assert(a.subrange(0, prefix.len() as int) =~= a.take(i));
    } else {
        assert(a.subrange(0, prefix.len() as int) =~= prefix);
    }
}

} // verus!
