//! Byte-string primitives shared by the URL, request and response code.
//!
//! HTTP is a byte protocol, so the library holds text as `Vec<u8>` and states
//! every contract over `Seq<u8>`. The functions here search, trim, compare and
//! lowercase; each has a spec function that says what it computes.

use vstd::prelude::*;
use vstd::slice::slice_subrange;

verus! {

/// Carriage return.
pub const CR: u8 = 13;

/// Line feed.
pub const LF: u8 = 10;

/// Space.
pub const SP: u8 = 32;

/// `:`
pub const COLON: u8 = 58;

/// `;`
pub const SEMICOLON: u8 = 59;

/// `/`
pub const SLASH: u8 = 47;

/// `?`
pub const QUESTION: u8 = 63;

/// `#`
pub const HASH: u8 = 35;

/// `@`
pub const AT: u8 = 64;

/// `+`
pub const PLUS: u8 = 43;

/// `-`
pub const MINUS: u8 = 45;

/// `=`
pub const EQUALS: u8 = 61;

/// `&`
pub const AMPERSAND: u8 = 38;

/// Index of the first `b` in `s` at or after `from`, or `s.len()` if there is none.
pub open spec fn find_from(s: Seq<u8>, b: u8, from: int) -> int
    decreases s.len() - from,
{
    if from < 0 || from >= s.len() {
        s.len() as int
    } else if s[from] == b {
        from
    } else {
        find_from(s, b, from + 1)
    }
}

/// Index of the first `b` in `s`, or `s.len()` if there is none.
pub open spec fn find(s: Seq<u8>, b: u8) -> int {
    find_from(s, b, 0)
}

/// `find_from` returns the least matching index at or after `from`.
pub proof fn lemma_find_from(s: Seq<u8>, b: u8, from: int)
    requires
        0 <= from <= s.len(),
    ensures
        from <= find_from(s, b, from) <= s.len(),
        find_from(s, b, from) < s.len() ==> s[find_from(s, b, from)] == b,
        forall|j: int| from <= j < find_from(s, b, from) ==> s[j] != b,
    decreases s.len() - from,
{
    if from < s.len() && s[from] != b {
        lemma_find_from(s, b, from + 1);
    }
}

/// An index with nothing matching before it, and a match (or the end) at it, is what
/// `find_from` returns.
pub proof fn lemma_find_from_is(s: Seq<u8>, b: u8, from: int, i: int)
    requires
        0 <= from <= i <= s.len(),
        forall|j: int| from <= j < i ==> s[j] != b,
        i < s.len() ==> s[i] == b,
    ensures
        find_from(s, b, from) == i,
    decreases i - from,
{
    if from < i {
        lemma_find_from_is(s, b, from + 1, i);
    }
}

/// Searching a concatenation: the first match lies in the left part if there is one
/// there, else in the right part.
pub proof fn lemma_find_concat(a: Seq<u8>, c: Seq<u8>, b: u8)
    ensures
        find(a + c, b) == if find(a, b) < a.len() {
            find(a, b)
        } else {
            a.len() + find(c, b)
        },
{
    lemma_find_from(a, b, 0);
    lemma_find_from(c, b, 0);
    let s = a + c;
    if find(a, b) < a.len() {
        lemma_find_from_is(s, b, 0, find(a, b));
    } else {
        let i = a.len() + find(c, b);
        assert forall|j: int| 0 <= j < i implies s[j] != b by {
            if j >= a.len() {
                assert(s[j] == c[j - a.len()]);
            }
        }
        if i < s.len() {
            assert(s[i] == c[i - a.len()]);
        }
        lemma_find_from_is(s, b, 0, i);
    }
}

/// Whether `b` occurs in `s`.
pub open spec fn contains_byte(s: Seq<u8>, b: u8) -> bool {
    find(s, b) < s.len()
}

/// Finds the first `b` in `s` at or after `from`.
pub fn find_byte(s: &[u8], b: u8, from: usize) -> (r: usize)
    requires
        from <= s.len(),
    ensures
        r == find_from(s@, b, from as int),
        from <= r <= s.len(),
{
    let mut i: usize = from;
    while i < s.len()
        invariant
            from <= i <= s.len(),
            find_from(s@, b, from as int) == find_from(s@, b, i as int),
        decreases s.len() - i,
    {
        if s[i] == b {
            return i;
        }
        i += 1;
    }
    i
}

/// Whether two byte strings hold the same bytes.
pub fn bytes_eq(a: &[u8], b: &[u8]) -> (r: bool)
    ensures
        r == (a@ == b@),
{
    if a.len() != b.len() {
        return false;
    }
    let mut i: usize = 0;
    while i < a.len()
        invariant
            0 <= i <= a.len(),
            a.len() == b.len(),
            forall|j: int| 0 <= j < i ==> a@[j] == b@[j],
        decreases a.len() - i,
    {
        if a[i] != b[i] {
            return false;
        }
        i += 1;
    }
    assert(a@ =~= b@);
    true
}

/// Whether `a` sorts before `b` from the index `from` on, given that they agree
/// before it: byte by byte, and a string before any that it begins.
pub open spec fn sorts_before_from(a: Seq<u8>, b: Seq<u8>, from: int) -> bool
    decreases a.len() - from,
{
    if from < 0 || from >= b.len() {
        false
    } else if from >= a.len() {
        true
    } else if a[from] != b[from] {
        a[from] < b[from]
    } else {
        sorts_before_from(a, b, from + 1)
    }
}

/// Whether `a` sorts before `b`, as byte strings sort: byte by byte, and a string
/// before any that it begins.
pub open spec fn sorts_before(a: Seq<u8>, b: Seq<u8>) -> bool {
    sorts_before_from(a, b, 0)
}

/// Whether `a` sorts before `b`.
pub fn is_sorted_before(a: &[u8], b: &[u8]) -> (r: bool)
    ensures
        r == sorts_before(a@, b@),
{
    let mut i: usize = 0;
    while i < a.len() && i < b.len()
        invariant
            0 <= i <= a.len(),
            i <= b.len(),
            sorts_before(a@, b@) == sorts_before_from(a@, b@, i as int),
        decreases a.len() - i,
    {
        if a[i] != b[i] {
            return a[i] < b[i];
        }
        i += 1;
    }
    i < b.len()
}

/// Whether `s` begins with `prefix`.
pub open spec fn has_prefix(s: Seq<u8>, prefix: Seq<u8>) -> bool {
    prefix.len() <= s.len() && s.subrange(0, prefix.len() as int) == prefix
}

/// Whether `s` begins with `prefix`.
pub fn starts_with(s: &[u8], prefix: &[u8]) -> (r: bool)
    ensures
        r == has_prefix(s@, prefix@),
{
    if prefix.len() > s.len() {
        return false;
    }
    bytes_eq(slice_subrange(s, 0, prefix.len()), prefix)
}

/// A copy of `s[from..to]`.
pub fn copy_range(s: &[u8], from: usize, to: usize) -> (r: Vec<u8>)
    requires
        from <= to <= s.len(),
    ensures
        r@ == s@.subrange(from as int, to as int),
{
    let mut v: Vec<u8> = Vec::new();
    v.extend_from_slice(slice_subrange(s, from, to));
    v
}

/// A copy of `s`.
pub fn copy_bytes(s: &[u8]) -> (r: Vec<u8>)
    ensures
        r@ == s@,
{
    let mut v: Vec<u8> = Vec::new();
    v.extend_from_slice(s);
    v
}

/// The ASCII lower-case form of one byte.
pub open spec fn lower(b: u8) -> u8 {
    if 0x41 <= b <= 0x5a {
        (b + 32) as u8
    } else {
        b
    }
}

/// The ASCII lower-case form of a byte string: `A`–`Z` become `a`–`z`, every other
/// byte stays.
pub open spec fn lowercase(s: Seq<u8>) -> Seq<u8> {
    Seq::new(s.len(), |i: int| lower(s[i]))
}

/// The ASCII lower-case form of one byte.
pub fn lower_byte(b: u8) -> (r: u8)
    ensures
        r == lower(b),
{
    if 0x41 <= b && b <= 0x5a {
        b + 32
    } else {
        b
    }
}

/// The ASCII lower-case form of `s`.
pub fn to_lowercase(s: &[u8]) -> (r: Vec<u8>)
    ensures
        r@ == lowercase(s@),
{
    let mut v: Vec<u8> = Vec::new();
    let mut i: usize = 0;
    while i < s.len()
        invariant
            0 <= i <= s.len(),
            v@.len() == i,
            forall|j: int| 0 <= j < i ==> v@[j] == lower(s@[j]),
        decreases s.len() - i,
    {
        v.push(lower_byte(s[i]));
        i += 1;
    }
    assert(v@ =~= lowercase(s@));
    v
}

/// White space: tab, line feed, vertical tab, form feed, carriage return, space.
pub open spec fn is_space(b: u8) -> bool {
    (9 <= b <= 13) || b == 32
}

/// White space: tab, line feed, vertical tab, form feed, carriage return, space.
pub fn is_space_byte(b: u8) -> (r: bool)
    ensures
        r == is_space(b),
{
    (9 <= b && b <= 13) || b == 32
}

/// Index of the first byte at or after `from` that is not white space, or `s.len()`.
pub open spec fn skip_spaces(s: Seq<u8>, from: int) -> int
    decreases s.len() - from,
{
    if from < 0 || from >= s.len() {
        s.len() as int
    } else if !is_space(s[from]) {
        from
    } else {
        skip_spaces(s, from + 1)
    }
}

/// The end of `s[lo..hi]` once trailing white space is dropped.
pub open spec fn drop_spaces(s: Seq<u8>, lo: int, hi: int) -> int
    decreases hi - lo,
{
    if hi <= lo || hi > s.len() {
        lo
    } else if !is_space(s[hi - 1]) {
        hi
    } else {
        drop_spaces(s, lo, hi - 1)
    }
}

/// `s` without leading and trailing white space.
pub open spec fn trim(s: Seq<u8>) -> Seq<u8> {
    let lo = skip_spaces(s, 0);
    let hi = drop_spaces(s, lo, s.len() as int);
    s.subrange(lo, hi)
}

/// `s` without leading and trailing white space.
pub fn trim_bytes(s: &[u8]) -> (r: &[u8])
    ensures
        r@ == trim(s@),
{
    let mut lo: usize = 0;
    while lo < s.len() && is_space_byte(s[lo])
        invariant
            0 <= lo <= s.len(),
            skip_spaces(s@, 0) == skip_spaces(s@, lo as int),
        decreases s.len() - lo,
    {
        lo += 1;
    }
    let mut hi: usize = s.len();
    while hi > lo && is_space_byte(s[hi - 1])
        invariant
            lo <= hi <= s.len(),
            drop_spaces(s@, lo as int, s.len() as int) == drop_spaces(s@, lo as int, hi as int),
        decreases hi - lo,
    {
        hi -= 1;
    }
    slice_subrange(s, lo, hi)
}

} // verus!
