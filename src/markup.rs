//! Turning scraped HTML fragments into plain text: character references are
//! decoded, non-breaking spaces become spaces, and `<...>` tags are removed.
use vstd::prelude::*;
use crate::text::{chars_of, string_of, trim_chars, trimmed};

verus! {

/// What `html_escape::decode_html_entities` makes of a text.
pub uninterp spec fn entities_decoded(s: Seq<char>) -> Seq<char>;

/// Relies on html_escape::decode_html_entities: named and numeric character
/// references are decoded, and a text without `&` comes back unchanged.
#[verifier::external_body]
fn decode_entities(s: &str) -> (r: String)
    ensures
        r@ == entities_decoded(s@),
        !s@.contains('&') ==> r@ == s@,
{
    html_escape::decode_html_entities(s).into_owned()
}

/// The text kept from `s` by the tag scanner and whether it ends inside a tag.
/// A `<` opens a tag and a `>` closes one; neither is kept, nor anything
/// between them. An unmatched `<` drops the rest of the text.
pub open spec fn tag_scan(s: Seq<char>) -> (Seq<char>, bool)
    decreases s.len(),
{
    if s.len() == 0 {
        (Seq::empty(), false)
    } else {
        let (kept, in_tag) = tag_scan(s.drop_last());
        let c = s.last();
        if c == '<' {
            (kept, true)
        } else if c == '>' {
            (kept, false)
        } else if in_tag {
            (kept, true)
        } else {
            (kept.push(c), false)
        }
    }
}

/// `s` with every tag removed.
pub open spec fn without_tags(s: Seq<char>) -> Seq<char> {
    tag_scan(s).0
}

/// `s` with each non-breaking space replaced by an ordinary space.
pub open spec fn nbsp_as_space(s: Seq<char>) -> Seq<char> {
    s.map_values(|c: char| if c == '\u{a0}' { ' ' } else { c })
}

/// The plain text of an HTML fragment.
pub open spec fn plain_text(s: Seq<char>) -> Seq<char> {
    plain_text_of_decoded(entities_decoded(s))
}

pub proof fn lemma_tag_scan_has_no_brackets(s: Seq<char>)
    ensures
        !tag_scan(s).0.contains('<'),
        !tag_scan(s).0.contains('>'),
    decreases s.len(),
{
    if s.len() > 0 {
        lemma_tag_scan_has_no_brackets(s.drop_last());
        let (kept, in_tag) = tag_scan(s.drop_last());
        let c = s.last();
        if c != '<' && c != '>' && !in_tag {
            assert forall|k: int| 0 <= k < kept.push(c).len() implies kept.push(c)[k] != '<'
                && kept.push(c)[k] != '>' by {
                if k < kept.len() {
                    assert(kept[k] == kept.push(c)[k]);
                }
            }
        }
    }
}

pub proof fn lemma_trimmed_is_slice(s: Seq<char>)
    ensures
        forall|k: int| 0 <= k < trimmed(s).len() ==> s.contains(#[trigger] trimmed(s)[k]),
{
    crate::text::lemma_skip_space_bounds(s, 0);
    crate::text::lemma_space_run_start_bounds(s, s.len() as int);
    let a = crate::text::skip_space(s, 0);
    if a < s.len() {
        assert forall|k: int| 0 <= k < trimmed(s).len() implies s.contains(#[trigger] trimmed(s)[k]) by {
            assert(s[a + k] == trimmed(s)[k]);
        }
    }
}

/// Removes every `<...>` tag from the text.
pub fn remove_tags(text: &str) -> (r: String)
    ensures
        r@ == without_tags(text@),
        !r@.contains('<'),
        !r@.contains('>'),
{
    let v = chars_of(text);
    let kept = strip_tags(&v);
    string_of(&kept)
}

/// Removes every `<...>` tag from a sequence of characters.
pub fn strip_tags(s: &[char]) -> (r: Vec<char>)
    ensures
        r@ == without_tags(s@),
        !r@.contains('<'),
        !r@.contains('>'),
{
    let mut kept: Vec<char> = Vec::new();
    let mut in_tag = false;
    let mut i: usize = 0;
    while i < s.len()
        invariant
            i <= s.len(),
            (kept@, in_tag) == tag_scan(s@.take(i as int)),
        decreases s.len() - i,
    {
        let c = s[i];
        assert(s@.take(i as int + 1).drop_last() =~= s@.take(i as int));
        if c == '<' {
            in_tag = true;
        } else if c == '>' {
            in_tag = false;
        } else if !in_tag {
            kept.push(c);
        }
        i += 1;
    }
    assert(s@.take(s.len() as int) =~= s@);
    proof {
        lemma_tag_scan_has_no_brackets(s@);
    }
    kept
}

/// The plain text of a fragment whose character references are already
/// decoded: non-breaking spaces become spaces, then white space at the ends,
/// tags, and white space at the ends again are removed.
pub open spec fn plain_text_of_decoded(d: Seq<char>) -> Seq<char> {
    trimmed(without_tags(trimmed(nbsp_as_space(d))))
}

/// Turns a decoded fragment into plain text. The result never holds `<` or
/// `>`.
pub fn strip_decoded(decoded: &str) -> (r: String)
    ensures
        r@ == plain_text_of_decoded(decoded@),
        !r@.contains('<'),
        !r@.contains('>'),
{
    let mut v = chars_of(decoded);
    let mut i: usize = 0;
    while i < v.len()
        invariant
            i <= v.len(),
            v.len() == decoded@.len(),
            forall|k: int| 0 <= k < i ==> v@[k] == nbsp_as_space(decoded@)[k],
            forall|k: int| i <= k < v.len() ==> v@[k] == decoded@[k],
        decreases v.len() - i,
    {
        if v[i] == '\u{a0}' {
            v.set(i, ' ');
        }
        i += 1;
    }
    assert(v@ =~= nbsp_as_space(decoded@));
    let t = trim_chars(&v);
    let stripped = strip_tags(&t);
    let out = trim_chars(&stripped);
    proof {
        lemma_trimmed_is_slice(stripped@);
    }
    string_of(&out)
}

/// Decodes character references, turns non-breaking spaces into spaces,
/// strips tags and trims white space. The result never holds `<` or `>`.
pub fn decode_and_strip(s: &str) -> (r: String)
    ensures
        r@ == plain_text(s@),
        !r@.contains('<'),
        !r@.contains('>'),
{
    let decoded = decode_entities(s);
    strip_decoded(decoded.as_str())
}

} // verus!
