//! Percent-encoding of a search query for a URL.
use vstd::prelude::*;
use crate::text::{chars_of, string_of, trim_chars, trimmed};

verus! {

/// Whether `c` is written as `%` and two hex digits: white space ` `, `%`,
/// and the ASCII punctuation `!"#$&'()*+,-./:;<=>?@[\]^_` and backquote.
pub open spec fn is_escaped(c: char) -> bool {
    c == ' ' || ('!' <= c && c <= '/') || (':' <= c && c <= '@') || ('[' <= c && c <= '`')
}

/// The upper-case hex digit of `n`, for `n < 16`.
pub open spec fn hex_digit(n: u32) -> char {
    if n < 10 {
        (('0' as u32) + n) as char
    } else {
        (('A' as u32) + n - 10) as char
    }
}

/// What `c` becomes in an encoded query.
pub open spec fn escape_char(c: char) -> Seq<char> {
    if is_escaped(c) {
        seq!['%', hex_digit((c as u32) / 16), hex_digit((c as u32) % 16)]
    } else {
        seq![c]
    }
}

/// `s` with each character encoded.
pub open spec fn escaped(s: Seq<char>) -> Seq<char>
    decreases s.len(),
{
    if s.len() == 0 {
        Seq::empty()
    } else {
        escaped(s.drop_last()) + escape_char(s.last())
    }
}

fn hex_digit_exec(n: u8) -> (r: char)
    requires
        n < 16,
    ensures
        r == hex_digit(n as u32),
{
    if n < 10 {
        (48u8 + n) as char
    } else {
        (55u8 + n) as char
    }
}

/// Encodes a query for a URL: white space ` `, `%` and the ASCII punctuation
/// become `%` and the two upper-case hex digits of their code; other
/// characters stay. White space left at either end (tabs, line breaks) is
/// removed.
pub fn encode_string(s: &str) -> (r: String)
    ensures
        r@ == trimmed(escaped(s@)),
{
    let t = chars_of(s);
    let mut out: Vec<char> = Vec::new();
    let mut i: usize = 0;
    while i < t.len()
        invariant
            i <= t.len(),
            t@ == s@,
            out@ == escaped(t@.take(i as int)),
        decreases t.len() - i,
    {
        let c = t[i];
        assert(t@.take(i + 1).drop_last() =~= t@.take(i as int));
        if c == ' ' || ('!' <= c && c <= '/') || (':' <= c && c <= '@') || ('[' <= c && c <= '`') {
            let code = c as u8;
            out.push('%');
            out.push(hex_digit_exec(code / 16));
            out.push(hex_digit_exec(code % 16));
        } else {
            out.push(c);
        }
        assert(out@ =~= escaped(t@.take(i + 1)));
        i += 1;
    }
    assert(t@.take(t.len() as int) =~= t@);
    let trimmed_out = trim_chars(&out);
    string_of(&trimmed_out)
}

} // verus!
