//! The widths of numbers that declared column types name.
use crate::chars;
use crate::text;
use vstd::prelude::*;

verus! {

/// The width of an integer column.
#[derive(Debug, Clone, Copy, PartialEq, Eq, Structural)]
pub enum IntWidth {
    I16,
    I32,
    I64,
}

/// The width of a floating-point column.
#[derive(Debug, Clone, Copy, PartialEq, Eq, Structural)]
pub enum FloatWidth {
    F32,
    F64,
}

/// A character in lower case, where it is an ASCII letter.
pub open spec fn lower(c: char) -> char {
    if 'A' <= c <= 'Z' {
        (c as u8 + 32) as char
    } else {
        c
    }
}

/// A declared type without the white space around it, in lower case.
pub open spec fn normal(declared: Seq<char>) -> Seq<char> {
    chars::trimmed(declared).map_values(|c: char| lower(c))
}

/// Whether a declared type is a keyword, alone or before a parenthesis or white
/// space.
pub open spec fn names(s: Seq<char>, keyword: Seq<char>) -> bool {
    text::has_prefix(s, keyword) && (s.len() == keyword.len() || s[keyword.len() as int] == '('
        || chars::white(s[keyword.len() as int]))
}

/// The width of integers that a declared type names.
pub open spec fn int_width(declared: Seq<char>) -> Option<IntWidth> {
    let s = normal(declared);
    if names(s, "smallint"@) || names(s, "int2"@) {
        Some(IntWidth::I16)
    } else if names(s, "integer"@) || names(s, "int4"@) || names(s, "int"@) {
        Some(IntWidth::I32)
    } else if names(s, "bigint"@) || names(s, "int8"@) || names(s, "int64"@) {
        Some(IntWidth::I64)
    } else {
        None
    }
}

/// The precision in parentheses at the beginning of a text.
pub open spec fn precision(s: Seq<char>) -> Option<int> {
    let t = chars::without_front(s);
    let inner = t.skip(1);
    let end = chars::position(inner, ')');
    if t.len() > 0 && t[0] == '(' && end < inner.len() {
        chars::number(chars::trimmed(inner.take(end)), u32::MAX as int)
    } else {
        None
    }
}

/// The width of floating-point numbers that a declared type names. A precision of
/// up to 24 bits is a single, anything else a double.
pub open spec fn float_width(declared: Seq<char>) -> Option<FloatWidth> {
    let s = normal(declared);
    if names(s, "real"@) || names(s, "float4"@) || names(s, "float32"@) {
        Some(FloatWidth::F32)
    } else if names(s, "double"@) || names(s, "float8"@) || names(s, "float64"@) {
        Some(FloatWidth::F64)
    } else if names(s, "float"@) {
        match precision(s.skip(5)) {
            Some(p) => if 1 <= p <= 24 {
                Some(FloatWidth::F32)
            } else {
                Some(FloatWidth::F64)
            },
            None => Some(FloatWidth::F64),
        }
    } else {
        None
    }
}

fn normal_of(declared: &str) -> (r: Vec<char>)
    ensures
        r@ == normal(declared@),
{
    let all = text::chars_of(declared);
    let kept = chars::trim(all.as_slice());
    let mut out: Vec<char> = Vec::new();
    let mut i: usize = 0;
    while i < kept.len()
        invariant
            i <= kept@.len(),
            kept@ == chars::trimmed(declared@),
            out@.len() == i,
            forall|j: int| 0 <= j < i ==> #[trigger] out@[j] == lower(kept@[j]),
        decreases kept@.len() - i,
    {
        let c = kept[i];
        if 'A' <= c && c <= 'Z' {
            out.push((c as u8 + 32) as char);
        } else {
            out.push(c);
        }
        i = i + 1;
    }
    proof {
        assert(out@ =~= normal(declared@));
    }
    out
}

fn does_name(s: &[char], keyword: &str) -> (r: bool)
    ensures
        r == names(s@, keyword@),
{
    let key = text::chars_of(keyword);
    if s.len() < key.len() {
        return false;
    }
    let mut i: usize = 0;
    while i < key.len()
        invariant
            i <= key@.len() <= s@.len(),
            key@ == keyword@,
            forall|j: int| 0 <= j < i ==> s@[j] == #[trigger] key@[j],
        decreases key@.len() - i,
    {
        if s[i] != key[i] {
            proof {
                assert(s@.take(key@.len() as int)[i as int] != key@[i as int]);
            }
            return false;
        }
        i = i + 1;
    }
    proof {
        assert(s@.take(key@.len() as int) =~= key@);
    }
    s.len() == key.len() || s[key.len()] == '(' || chars::is_white(s[key.len()])
}

/// The width of integers that a declared type names.
pub fn int_width_of(declared: &str) -> (r: Option<IntWidth>)
    ensures
        r == int_width(declared@),
{
    let n = normal_of(declared);
    let s = n.as_slice();
    if does_name(s, "smallint") || does_name(s, "int2") {
        Some(IntWidth::I16)
    } else if does_name(s, "integer") || does_name(s, "int4") || does_name(s, "int") {
        Some(IntWidth::I32)
    } else if does_name(s, "bigint") || does_name(s, "int8") || does_name(s, "int64") {
        Some(IntWidth::I64)
    } else {
        None
    }
}

fn precision_of(s: &[char]) -> (r: Option<u64>)
    ensures
        match r {
            Some(p) => precision(s@) == Some(p as int),
            None => precision(s@) is None,
        },
{
    let t = chars::trim_front(s);
    if t.len() == 0 || t[0] != '(' {
        return None;
    }
    let inner = chars::tail(t, 1);
    let end = chars::position_of(inner, ')');
    if end == inner.len() {
        return None;
    }
    chars::number_of(chars::trim(chars::head(inner, end)), 0xffff_ffff)
}

/// The width of floating-point numbers that a declared type names.
pub fn float_width_of(declared: &str) -> (r: Option<FloatWidth>)
    ensures
        r == float_width(declared@),
{
    let n = normal_of(declared);
    let s = n.as_slice();
    if does_name(s, "real") || does_name(s, "float4") || does_name(s, "float32") {
        Some(FloatWidth::F32)
    } else if does_name(s, "double") || does_name(s, "float8") || does_name(s, "float64") {
        Some(FloatWidth::F64)
    } else if does_name(s, "float") {
        proof {
            reveal_strlit("float");
        }
        match precision_of(chars::tail(s, 5)) {
            Some(p) => if 1 <= p && p <= 24 {
                Some(FloatWidth::F32)
            } else {
                Some(FloatWidth::F64)
            },
            None => Some(FloatWidth::F64),
        }
    } else {
        None
    }
}

} // verus!
