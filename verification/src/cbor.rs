//! Reading CBOR data items (RFC 8949) of definite length.
//!
//! An item starts with a head: a byte whose high three bits are the major
//! type and whose low five bits are the additional information, followed by
//! 0, 1, 2, 4 or 8 argument bytes (additional information below 24, or 24 to
//! 27). Indefinite lengths (31) and the reserved values are not read.

use vstd::prelude::*;
use crate::ecdsa::be_nat;

verus! {

/// CBOR major type of unsigned integers.
pub const MAJOR_UINT: u8 = 0;

/// CBOR major type of maps.
pub const MAJOR_MAP: u8 = 5;

/// The CBOR simple value `null`.
pub const CBOR_NULL: u8 = 0xf6;

/// The number of argument bytes that follow a head byte whose additional
/// information is `info` (24 to 27).
pub open spec fn argument_width(info: u8) -> int {
    if info == 24 {
        1
    } else if info == 25 {
        2
    } else if info == 26 {
        4
    } else {
        8
    }
}

/// The head at `pos`: its major type, its argument, and the position after
/// it.
#[verifier::opaque]
pub open spec fn head_at(s: Seq<u8>, pos: int) -> Option<(u8, nat, int)> {
    if 0 <= pos < s.len() {
        let b = s[pos];
        let major = (b / 32) as u8;
        let info = (b % 32) as u8;
        if info < 24 {
            Some((major, info as nat, pos + 1))
        } else if info <= 27 {
            let stop = pos + 1 + argument_width(info);
            if stop <= s.len() {
                Some((major, be_nat(s.subrange(pos + 1, stop)), stop))
            } else {
                None
            }
        } else {
            None
        }
    } else {
        None
    }
}

/// The unsigned integer at `pos` and the position after it.
pub open spec fn uint_at(s: Seq<u8>, pos: int) -> Option<(nat, int)> {
    match head_at(s, pos) {
        Some((m, n, p)) => if m == MAJOR_UINT {
            Some((n, p))
        } else {
            None
        },
        None => None,
    }
}

/// The contents of the byte string (`major` 2) or text string (`major` 3)
/// at `pos`, and the position after it.
pub open spec fn string_at(s: Seq<u8>, pos: int, major: u8) -> Option<(Seq<u8>, int)> {
    match head_at(s, pos) {
        Some((m, n, p)) => if m == major && p + n <= s.len() {
            Some((s.subrange(p, p + n), p + n))
        } else {
            None
        },
        None => None,
    }
}

/// The number of entries of the array (`major` 4) or map (`major` 5) at
/// `pos`, and the position of its first entry.
pub open spec fn container_at(s: Seq<u8>, pos: int, major: u8) -> Option<(nat, int)> {
    match head_at(s, pos) {
        Some((m, n, p)) => if m == major {
            Some((n, p))
        } else {
            None
        },
        None => None,
    }
}

/// Reads the head at `pos`.
pub fn read_head(s: &[u8], pos: usize) -> (r: Option<(u8, u64, usize)>)
    ensures
        match head_at(s@, pos as int) {
            Some((m, n, p)) => r matches Some((m2, n2, p2)) && m2 == m && n2 == n && p2 == p,
            None => r is None,
        },
        r matches Some((_m, _n, p)) ==> pos < p <= s@.len(),
{
    reveal(head_at);
    if pos >= s.len() {
        return None;
    }
    let b: u8 = s[pos];
    let major: u8 = b / 32;
    let info: u8 = b % 32;
    if info < 24 {
        return Some((major, info as u64, pos + 1));
    }
    if info > 27 {
        return None;
    }
    let width: usize = if info == 24 {
        1
    } else if info == 25 {
        2
    } else if info == 26 {
        4
    } else {
        8
    };
    assert(width == argument_width(info));
    if width > s.len() - (pos + 1) {
        return None;
    }
    let start: usize = pos + 1;
    let mut n: u64 = 0;
    let mut i: usize = 0;
    while i < width
        invariant
            0 <= i <= width <= 8,
            start == pos + 1,
            start + width <= s.len(),
            n == be_nat(s@.subrange(start as int, start + i)),
            i <= 1 ==> n < 0x100,
            i <= 2 ==> n < 0x1_0000,
            i <= 3 ==> n < 0x100_0000,
            i <= 4 ==> n < 0x1_0000_0000,
            i <= 5 ==> n < 0x100_0000_0000,
            i <= 6 ==> n < 0x1_0000_0000_0000,
            i <= 7 ==> n < 0x100_0000_0000_0000,
        decreases width - i,
    {
        let byte: u8 = s[start + i];
        proof {
            let sub = s@.subrange(start as int, start + i + 1);
            assert(sub.drop_last() =~= s@.subrange(start as int, start + i));
            assert(sub.last() == byte);
        }
        n = n * 256 + byte as u64;
        i = i + 1;
    }
    Some((major, n, start + width))
}

/// Reads the unsigned integer at `pos`.
pub fn read_uint(s: &[u8], pos: usize) -> (r: Option<(u64, usize)>)
    ensures
        match uint_at(s@, pos as int) {
            Some((n, p)) => r matches Some((n2, p2)) && n2 == n && p2 == p,
            None => r is None,
        },
        r matches Some((_n, p)) ==> pos < p <= s@.len(),
{
    match read_head(s, pos) {
        Some((m, n, p)) => if m == MAJOR_UINT {
            Some((n, p))
        } else {
            None
        },
        None => None,
    }
}

/// Reads the string of major type `major` at `pos`: the start and end of
/// its contents.
pub fn read_string(s: &[u8], pos: usize, major: u8) -> (r: Option<(usize, usize)>)
    ensures
        match string_at(s@, pos as int, major) {
            Some((c, p)) => r matches Some((a, b)) && s@.subrange(a as int, b as int) == c && b == p
                && a <= b,
            None => r is None,
        },
        r matches Some((a, b)) ==> pos < a <= b <= s@.len(),
{
    match read_head(s, pos) {
        Some((m, n, p)) => if m == major && n <= (s.len() - p) as u64 {
            Some((p, p + n as usize))
        } else {
            None
        },
        None => None,
    }
}

/// Reads the head of the array or map of major type `major` at `pos`.
pub fn read_container(s: &[u8], pos: usize, major: u8) -> (r: Option<(u64, usize)>)
    ensures
        match container_at(s@, pos as int, major) {
            Some((n, p)) => r matches Some((n2, p2)) && n2 == n && p2 == p,
            None => r is None,
        },
        r matches Some((_n, p)) ==> pos < p <= s@.len(),
{
    match read_head(s, pos) {
        Some((m, n, p)) => if m == major {
            Some((n, p))
        } else {
            None
        },
        None => None,
    }
}

/// The deepest nesting of arrays, maps and tags that [`item_end`] reads.
pub const MAX_NESTING: u64 = 128;

/// The position after the well-formed data item at `pos`, whose arrays,
/// maps and tags nest at most `depth` deep.
pub open spec fn item_end(s: Seq<u8>, pos: int, depth: nat) -> Option<int>
    decreases depth, 0nat,
{
    match head_at(s, pos) {
        None => None,
        Some((m, n, p)) => if m == 0 || m == 1 || m == 7 {
            Some(p)
        } else if m == 2 || m == 3 {
            if p + n <= s.len() {
                Some(p + n)
            } else {
                None
            }
        } else if depth == 0 {
            None
        } else if m == 4 {
            items_end(s, p, n, (depth - 1) as nat)
        } else if m == 5 {
            items_end(s, p, 2 * n, (depth - 1) as nat)
        } else {
            item_end(s, p, (depth - 1) as nat)
        },
    }
}

/// The position after `n` well-formed data items from `pos` on.
pub open spec fn items_end(s: Seq<u8>, pos: int, n: nat, depth: nat) -> Option<int>
    decreases depth, n,
{
    if n == 0 {
        Some(pos)
    } else {
        match item_end(s, pos, depth) {
            None => None,
            Some(p) => items_end(s, p, (n - 1) as nat, depth),
        }
    }
}

proof fn lemma_item_end_bounds(s: Seq<u8>, pos: int, depth: nat)
    ensures
        item_end(s, pos, depth) matches Some(q) ==> pos < q <= s.len(),
    decreases depth, 0nat,
{
    reveal(head_at);
    if let Some((m, n, p)) = head_at(s, pos) {
        if m == 4 && depth > 0 {
            lemma_items_end_bounds(s, p, n, (depth - 1) as nat);
        } else if m == 5 && depth > 0 {
            lemma_items_end_bounds(s, p, 2 * n, (depth - 1) as nat);
        } else if m == 6 && depth > 0 {
            lemma_item_end_bounds(s, p, (depth - 1) as nat);
        }
    }
}

proof fn lemma_items_end_bounds(s: Seq<u8>, pos: int, n: nat, depth: nat)
    ensures
        items_end(s, pos, n, depth) matches Some(q) ==> pos + n <= q && (n > 0 ==> q <= s.len()),
    decreases depth, n,
{
    if n > 0 {
        lemma_item_end_bounds(s, pos, depth);
        if let Some(p) = item_end(s, pos, depth) {
            lemma_items_end_bounds(s, p, (n - 1) as nat, depth);
        }
    }
}

/// Skips the well-formed data item at `pos`.
pub fn skip_item(s: &[u8], pos: usize, depth: u64) -> (r: Option<usize>)
    ensures
        match item_end(s@, pos as int, depth as nat) {
            Some(q) => r matches Some(q2) && q2 == q && pos < q <= s@.len(),
            None => r is None,
        },
    decreases depth, 0nat,
{
    proof {
        lemma_item_end_bounds(s@, pos as int, depth as nat);
    }
    let (m, n, p) = match read_head(s, pos) {
        Some(x) => x,
        None => return None,
    };
    if m == 0 || m == 1 || m == 7 {
        Some(p)
    } else if m == 2 || m == 3 {
        if n <= (s.len() - p) as u64 {
            Some(p + n as usize)
        } else {
            None
        }
    } else if depth == 0 {
        None
    } else if m == 4 {
        skip_items(s, p, n, depth - 1)
    } else if m == 5 {
        if n > ((s.len() - p) / 2) as u64 {
            proof {
                lemma_items_end_bounds(s@, p as int, 2 * n as nat, (depth - 1) as nat);
            }
            return None;
        }
        skip_items(s, p, 2 * n, depth - 1)
    } else {
        skip_item(s, p, depth - 1)
    }
}

/// Skips `n` well-formed data items from `pos` on.
pub fn skip_items(s: &[u8], pos: usize, n: u64, depth: u64) -> (r: Option<usize>)
    ensures
        match items_end(s@, pos as int, n as nat, depth as nat) {
            Some(q) => r matches Some(q2) && q2 == q && (n > 0 ==> q <= s@.len()),
            None => r is None,
        },
    decreases depth, n,
{
    proof {
        lemma_items_end_bounds(s@, pos as int, n as nat, depth as nat);
    }
    let mut cur: usize = pos;
    let mut i: u64 = 0;
    while i < n
        invariant
            0 <= i <= n,
            pos <= cur,
            i > 0 ==> cur <= s@.len(),
            items_end(s@, pos as int, n as nat, depth as nat) == items_end(s@, cur as int, (n - i) as nat, depth as nat),
        decreases n - i,
    {
        cur = match skip_item(s, cur, depth) {
            Some(q) => q,
            None => return None,
        };
        i = i + 1;
    }
    Some(cur)
}

} // verus!
