//! Scanning primitives over character sequences: classes of characters,
//! runs, searches and literal prefixes.
use vstd::prelude::*;
use crate::text::{is_space, space};

verus! {

/// The character classes that the catalog's patterns are built from.
#[derive(Clone, Copy, Debug)]
pub enum CharClass {
    /// White space.
    Space,
    /// An ASCII digit.
    Digit,
    /// A character of a course code: ASCII letters and digits, `-`, an en dash,
    /// `/` and white space.
    Code,
    /// A character of one token of a course code: a code character that is no
    /// white space.
    Token,
    /// A character of the code in a joint listing: ASCII letters and digits,
    /// `,` and white space.
    JointCode,
    /// An ASCII letter or digit.
    Alnum,
}

pub open spec fn is_ascii_alnum(c: char) -> bool {
    ('a' <= c && c <= 'z') || ('A' <= c && c <= 'Z') || ('0' <= c && c <= '9')
}

pub open spec fn in_class(c: char, cls: CharClass) -> bool {
    match cls {
        CharClass::Space => is_space(c),
        CharClass::Digit => '0' <= c && c <= '9',
        CharClass::Code => is_ascii_alnum(c) || c == '-' || c == '\u{2013}' || c == '/'
            || is_space(c),
        CharClass::Token => is_ascii_alnum(c) || c == '-' || c == '\u{2013}' || c == '/',
        CharClass::JointCode => is_ascii_alnum(c) || c == ',' || is_space(c),
        CharClass::Alnum => is_ascii_alnum(c),
    }
}

/// Tests whether `c` belongs to `cls`.
pub fn class_has(c: char, cls: CharClass) -> (r: bool)
    ensures
        r == in_class(c, cls),
{
    let alnum = ('a' <= c && c <= 'z') || ('A' <= c && c <= 'Z') || ('0' <= c && c <= '9');
    match cls {
        CharClass::Space => space(c),
        CharClass::Digit => '0' <= c && c <= '9',
        CharClass::Code => alnum || c == '-' || c == '\u{2013}' || c == '/' || space(c),
        CharClass::Token => alnum || c == '-' || c == '\u{2013}' || c == '/',
        CharClass::JointCode => alnum || c == ',' || space(c),
        CharClass::Alnum => alnum,
    }
}

/// The first index at or after `i` whose character is in `cls` exactly when
/// `want` holds (`s.len()` if there is none).
pub open spec fn scan(s: Seq<char>, i: int, cls: CharClass, want: bool) -> int
    decreases s.len() - i,
{
    if i < 0 || i >= s.len() {
        s.len() as int
    } else if in_class(s[i], cls) == want {
        i
    } else {
        scan(s, i + 1, cls, want)
    }
}

/// The first index at or after `i` that holds `c` (`s.len()` if there is none).
pub open spec fn find_char(s: Seq<char>, i: int, c: char) -> int
    decreases s.len() - i,
{
    if i < 0 || i >= s.len() {
        s.len() as int
    } else if s[i] == c {
        i
    } else {
        find_char(s, i + 1, c)
    }
}

pub proof fn lemma_scan_bounds(s: Seq<char>, i: int, cls: CharClass, want: bool)
    requires
        0 <= i <= s.len(),
    ensures
        i <= scan(s, i, cls, want) <= s.len(),
        scan(s, i, cls, want) < s.len() ==> in_class(s[scan(s, i, cls, want)], cls) == want,
        forall|k: int| i <= k < scan(s, i, cls, want) ==> in_class(#[trigger] s[k], cls) != want,
    decreases s.len() - i,
{
    if i < s.len() && in_class(s[i], cls) != want {
        lemma_scan_bounds(s, i + 1, cls, want);
    }
}

pub proof fn lemma_find_char_bounds(s: Seq<char>, i: int, c: char)
    requires
        0 <= i <= s.len(),
    ensures
        i <= find_char(s, i, c) <= s.len(),
        find_char(s, i, c) < s.len() ==> s[find_char(s, i, c)] == c,
        forall|k: int| i <= k < find_char(s, i, c) ==> #[trigger] s[k] != c,
    decreases s.len() - i,
{
    if i < s.len() && s[i] != c {
        lemma_find_char_bounds(s, i + 1, c);
    }
}

/// Finds the first index at or after `i` whose character is in `cls` exactly
/// when `want` holds.
pub fn scan_from(s: &[char], i: usize, cls: CharClass, want: bool) -> (r: usize)
    requires
        i <= s.len(),
    ensures
        r == scan(s@, i as int, cls, want),
{
    let mut k = i;
    while k < s.len() && class_has(s[k], cls) != want
        invariant
            i <= k <= s.len(),
            scan(s@, k as int, cls, want) == scan(s@, i as int, cls, want),
        decreases s.len() - k,
    {
        k += 1;
    }
    k
}

/// Finds the first index at or after `i` that holds `c`.
pub fn find_char_from(s: &[char], i: usize, c: char) -> (r: usize)
    requires
        i <= s.len(),
    ensures
        r == find_char(s@, i as int, c),
{
    let mut k = i;
    while k < s.len() && s[k] != c
        invariant
            i <= k <= s.len(),
            find_char(s@, k as int, c) == find_char(s@, i as int, c),
        decreases s.len() - k,
    {
        k += 1;
    }
    k
}

/// Whether `s` holds `p` starting at index `i`.
pub open spec fn holds_at(s: Seq<char>, i: int, p: Seq<char>) -> bool {
    0 <= i && i + p.len() <= s.len() && s.subrange(i, i + p.len()) == p
}

/// Tests whether `s` holds `p` starting at index `i`.
pub fn holds_at_exec(s: &[char], i: usize, p: &[char]) -> (r: bool)
    ensures
        r == holds_at(s@, i as int, p@),
{
    if i > s.len() || p.len() > s.len() - i {
        return false;
    }
    let mut k: usize = 0;
    while k < p.len()
        invariant
            k <= p.len(),
            i + p.len() <= s.len(),
            forall|m: int| 0 <= m < k ==> s@[i + m] == p@[m],
        decreases p.len() - k,
    {
        if s[i + k] != p[k] {
            assert(s@.subrange(i as int, i + p.len())[k as int] != p@[k as int]);
            return false;
        }
        k += 1;
    }
    assert(s@.subrange(i as int, i + p.len()) =~= p@);
    true
}

/// Whether `p` occurs in `s` at some index.
pub open spec fn occurs_in(s: Seq<char>, p: Seq<char>) -> bool {
    exists|i: int| holds_at(s, i, p)
}

/// Tests whether `p` occurs in `s`.
pub fn occurs_in_exec(s: &[char], p: &[char]) -> (r: bool)
    ensures
        r == occurs_in(s@, p@),
{
    let mut i: usize = 0;
    while i < s.len()
        invariant
            i <= s.len(),
            forall|m: int| 0 <= m < i ==> !holds_at(s@, m, p@),
        decreases s.len() - i,
    {
        if holds_at_exec(s, i, p) {
            return true;
        }
        i += 1;
    }
    if holds_at_exec(s, s.len(), p) {
        return true;
    }
    assert forall|m: int| !holds_at(s@, m, p@) by {
        if m > s.len() {
            assert(m + p@.len() > s.len());
        }
    }
    false
}

} // verus!
