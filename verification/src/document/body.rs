//! The layout of a stored document body.
//!
//! A body is one MessagePack item. The walk below goes over the items of a body
//! and looks at the keys of its maps.
use vstd::prelude::*;

verus! {

/// Where a walk over an item ends.
pub enum Walk {
    /// Right behind the item, at this position.
    At(int),
    /// Nowhere: the bytes are no item.
    Broken,
    /// At a key of a map that is no text.
    OddKey,
}

/// The number in `n` bytes from `i` on, the most significant byte first.
pub open spec fn number(b: Seq<u8>, i: int, n: nat) -> nat
    decreases n,
{
    if n == 0 {
        0
    } else {
        256 * number(b, i, (n - 1) as nat) + b[i + n - 1] as nat
    }
}

/// How many bytes behind a marker say how long its item is.
pub open spec fn length_bytes(m: u8) -> nat {
    if m == 0xc4 || m == 0xc7 || m == 0xd9 {
        1
    } else if m == 0xc5 || m == 0xc8 || m == 0xda || m == 0xdc || m == 0xde {
        2
    } else if m == 0xc6 || m == 0xc9 || m == 0xdb || m == 0xdd || m == 0xdf {
        4
    } else {
        0
    }
}

/// Whether a marker starts a text.
pub open spec fn starts_text(m: u8) -> bool {
    0xa0 <= m <= 0xbf || m == 0xd9 || m == 0xda || m == 0xdb
}

/// How many bytes follow the marker, and its length bytes, of an item that holds
/// no other item, where `n` is the number that its length bytes say.
pub open spec fn contents(m: u8, n: nat) -> Option<nat> {
    if m <= 0x7f || m >= 0xe0 || m == 0xc0 || m == 0xc2 || m == 0xc3 {
        Some(0)
    } else if 0xa0 <= m <= 0xbf {
        Some((m - 0xa0) as nat)
    } else if m == 0xcc || m == 0xd0 {
        Some(1)
    } else if m == 0xcd || m == 0xd1 || m == 0xd4 {
        Some(2)
    } else if m == 0xd5 {
        Some(3)
    } else if m == 0xca || m == 0xce || m == 0xd2 {
        Some(4)
    } else if m == 0xd6 {
        Some(5)
    } else if m == 0xcb || m == 0xcf || m == 0xd3 {
        Some(8)
    } else if m == 0xd7 {
        Some(9)
    } else if m == 0xd8 {
        Some(17)
    } else if 0xc4 <= m <= 0xc6 || 0xd9 <= m <= 0xdb {
        Some(n)
    } else if 0xc7 <= m <= 0xc9 {
        Some(n + 1)
    } else {
        None
    }
}

/// The walk over the item at `i`.
pub open spec fn walk(b: Seq<u8>, i: int) -> Walk
    decreases b.len() - i, 0nat,
{
    if i < 0 || i >= b.len() || i + 1 + length_bytes(b[i]) > b.len() {
        Walk::Broken
    } else {
        let m = b[i];
        let n = number(b, i + 1, length_bytes(m));
        let j = i + 1 + length_bytes(m);
        match contents(m, n) {
            Some(size) => if j + size <= b.len() {
                Walk::At(j + size)
            } else {
                Walk::Broken
            },
            None => if 0x80 <= m <= 0x8f {
                walk_items(b, j, 2 * (m - 0x80) as nat, true)
            } else if 0x90 <= m <= 0x9f {
                walk_items(b, j, (m - 0x90) as nat, false)
            } else if m == 0xde || m == 0xdf {
                walk_items(b, j, 2 * n, true)
            } else if m == 0xdc || m == 0xdd {
                walk_items(b, j, n, false)
            } else {
                Walk::Broken
            },
        }
    }
}

/// The walk over `n` items from `i` on, which are the keys and values of a map,
/// in turn, or the elements of an array.
pub open spec fn walk_items(b: Seq<u8>, i: int, n: nat, keyed: bool) -> Walk
    decreases b.len() - i, n,
{
    if n == 0 {
        Walk::At(i)
    } else if keyed && n % 2 == 0 && 0 <= i < b.len() && !starts_text(b[i]) {
        Walk::OddKey
    } else {
        match walk(b, i) {
            Walk::At(j) => if i < j <= b.len() {
                walk_items(b, j, (n - 1) as nat, keyed)
            } else {
                Walk::Broken
            },
            stop => stop,
        }
    }
}

/// Whether every key of a map in a body is a text.
pub open spec fn text_keyed(body: Seq<u8>) -> bool {
    walk(body, 0) !is OddKey
}

} // verus!
