//! Discovering the departments of the catalog from its front page.
use vstd::prelude::*;
use crate::scan::{holds_at, holds_at_exec, lemma_scan_bounds, scan, scan_from, CharClass};
use crate::text::{chars_of, slice_range, string_of};

verus! {

/// A department of the catalog: its code, upper case, and its page.
pub struct Department {
    pub code: String,
    pub url: String,
}

/// The path segment that precedes a department code in a link.
pub open spec fn courses_path() -> Seq<char> {
    seq!['c', 'o', 'u', 'r', 's', 'e', 's', '/']
}

fn courses_path_chars() -> (r: Vec<char>)
    ensures
        r@ == courses_path(),
{
    let r = vec!['c', 'o', 'u', 'r', 's', 'e', 's', '/'];
    assert(r@ =~= courses_path());
    r
}

/// The extension that follows a department code in a link.
pub open spec fn html_suffix() -> Seq<char> {
    seq!['.', 'h', 't', 'm', 'l']
}

fn html_suffix_chars() -> (r: Vec<char>)
    ensures
        r@ == html_suffix(),
{
    let r = vec!['.', 'h', 't', 'm', 'l'];
    assert(r@ =~= html_suffix());
    r
}

/// Where the department pages of the catalog live.
pub open spec fn catalog_base() -> Seq<char> {
    seq!['h', 't', 't', 'p', 's', ':', '/', '/', 'c', 'a', 't', 'a', 'l', 'o', 'g', '.', 'u', 'c', 's', 'd', '.', 'e', 'd', 'u', '/', 'c', 'o', 'u', 'r', 's', 'e', 's', '/']
}

fn catalog_base_chars() -> (r: Vec<char>)
    ensures
        r@ == catalog_base(),
{
    let r = vec!['h', 't', 't', 'p', 's', ':', '/', '/', 'c', 'a', 't', 'a', 'l', 'o', 'g', '.', 'u', 'c', 's', 'd', '.', 'e', 'd', 'u', '/', 'c', 'o', 'u', 'r', 's', 'e', 's', '/'];
    assert(r@ =~= catalog_base());
    r
}

/// The raw code of the department link that starts at index `i`, if one
/// does, and the index where the link ends.
pub open spec fn link_at(t: Seq<char>, i: int) -> Option<(Seq<char>, int)> {
    let s = i + courses_path().len();
    let k = scan(t, s, CharClass::Alnum, false);
    if holds_at(t, i, courses_path()) && s < k && holds_at(t, k, html_suffix()) {
        Some((t.subrange(s, k), k + html_suffix().len()))
    } else {
        None
    }
}

/// The raw codes of the department links found scanning from index `i`,
/// left to right and without overlap.
pub open spec fn links_from(t: Seq<char>, i: int) -> Seq<Seq<char>>
    decreases t.len() - i,
{
    if i < 0 || i >= t.len() {
        Seq::empty()
    } else {
        match link_at(t, i) {
            Some((code, end)) => if i < end <= t.len() {
                seq![code] + links_from(t, end)
            } else {
                links_from(t, i + 1)
            },
            None => links_from(t, i + 1),
        }
    }
}

/// `c` in upper case, for an ASCII letter; else `c` itself.
pub open spec fn ascii_upper(c: char) -> char {
    if 'a' <= c && c <= 'z' {
        ((c as u8) - 32) as u8 as char
    } else {
        c
    }
}

pub open spec fn upper_code(raw: Seq<char>) -> Seq<char> {
    raw.map_values(|c: char| ascii_upper(c))
}

/// The page of the department with code `code`.
pub open spec fn department_url(code: Seq<char>) -> Seq<char> {
    catalog_base() + code + html_suffix()
}

/// The departments linked from an index page, in document order: each code
/// upper case, with its page.
pub open spec fn departments_of(t: Seq<char>) -> Seq<(Seq<char>, Seq<char>)> {
    links_from(t, 0).map_values(
        |raw: Seq<char>| (upper_code(raw), department_url(upper_code(raw))),
    )
}

/// The code and page of each department.
pub open spec fn departments_view(v: Seq<Department>) -> Seq<(Seq<char>, Seq<char>)> {
    v.map_values(|d: Department| (d.code@, d.url@))
}

fn ascii_upper_exec(c: char) -> (r: char)
    ensures
        r == ascii_upper(c),
{
    if 'a' <= c && c <= 'z' {
        ((c as u8) - 32) as char
    } else {
        c
    }
}

fn link_at_exec(t: &[char], i: usize, path: &Vec<char>, suffix: &Vec<char>) -> (r: Option<(Vec<char>, usize)>)
    requires
        path@ == courses_path(),
        suffix@ == html_suffix(),
    ensures
        match r {
            Some((code, end)) => link_at(t@, i as int) == Some((code@, end as int)),
            None => link_at(t@, i as int) is None,
        },
{
    let n = t.len();
    if !holds_at_exec(t, i, path) {
        return None;
    }
    assert(i + path@.len() <= n);
    let s = i + path.len();
    let k = scan_from(t, s, CharClass::Alnum, false);
    proof {
        lemma_scan_bounds(t@, s as int, CharClass::Alnum, false);
    }
    if s < k && holds_at_exec(t, k, suffix) {
        assert(k + suffix@.len() <= n);
        Some((slice_range(t, s, k), k + suffix.len()))
    } else {
        None
    }
}

/// The department with the given raw code.
fn department_of(raw: &Vec<char>, base: &Vec<char>, suffix: &Vec<char>) -> (r: Department)
    requires
        base@ == catalog_base(),
        suffix@ == html_suffix(),
    ensures
        (r.code@, r.url@) == (upper_code(raw@), department_url(upper_code(raw@))),
{
    let mut up: Vec<char> = Vec::new();
    let mut j: usize = 0;
    while j < raw.len()
        invariant
            j <= raw.len(),
            up@ == upper_code(raw@.take(j as int)),
        decreases raw.len() - j,
    {
        up.push(ascii_upper_exec(raw[j]));
        j += 1;
        assert(up@ =~= upper_code(raw@.take(j as int)));
    }
    assert(raw@.take(raw.len() as int) =~= raw@);
    let mut url = base.clone();
    let mut k: usize = 0;
    while k < up.len()
        invariant
            k <= up.len(),
            url@ == catalog_base() + up@.take(k as int),
        decreases up.len() - k,
    {
        url.push(up[k]);
        k += 1;
        assert(url@ =~= catalog_base() + up@.take(k as int));
    }
    let mut m: usize = 0;
    assert(up@.take(up.len() as int) =~= up@);
    while m < suffix.len()
        invariant
            m <= suffix.len(),
            url@ == catalog_base() + up@ + suffix@.take(m as int),
        decreases suffix.len() - m,
    {
        url.push(suffix[m]);
        m += 1;
        assert(url@ =~= catalog_base() + up@ + suffix@.take(m as int));
    }
    assert(suffix@.take(suffix.len() as int) =~= suffix@);
    Department { code: string_of(&up), url: string_of(&url) }
}

/// Lists the departments linked from the catalog's index page, in document
/// order, each code upper case. A page without such links yields an empty
/// vector.
pub fn list_departments(index_html: &str) -> (r: Vec<Department>)
    ensures
        departments_view(r@) == departments_of(index_html@),
        forall|k: int| 0 <= k < r@.len() ==> (#[trigger] r@[k]).code@.len() > 0,
{
    let t = chars_of(index_html);
    let path = courses_path_chars();
    let suffix = html_suffix_chars();
    let base = catalog_base_chars();
    let mut out: Vec<Department> = Vec::new();
    let ghost f = |raw: Seq<char>| (upper_code(raw), department_url(upper_code(raw)));
    let mut i: usize = 0;
    while i < t.len()
        invariant
            i <= t.len(),
            t@ == index_html@,
            path@ == courses_path(),
            suffix@ == html_suffix(),
            base@ == catalog_base(),
            f == (|raw: Seq<char>| (upper_code(raw), department_url(upper_code(raw)))),
            departments_view(out@) + links_from(t@, i as int).map_values(f) == departments_of(t@),
            forall|k: int| 0 <= k < out@.len() ==> (#[trigger] out@[k]).code@.len() > 0,
        decreases t.len() - i,
    {
        match link_at_exec(&t, i, &path, &suffix) {
            Some((raw, end)) => {
                if i < end && end <= t.len() {
                    let ghost before = out@;
                    let d = department_of(&raw, &base, &suffix);
                    assert(d.code@.len() == raw@.len());
                    out.push(d);
                    assert(departments_view(out@) =~= departments_view(before) + seq![f(raw@)]);
                    assert(links_from(t@, i as int) == seq![raw@] + links_from(t@, end as int));
                    assert(links_from(t@, i as int).map_values(f) =~= seq![f(raw@)] + links_from(
                        t@,
                        end as int,
                    ).map_values(f));
                    assert(departments_view(out@) + links_from(t@, end as int).map_values(f)
                        =~= departments_view(before) + links_from(t@, i as int).map_values(f));
                    i = end;
                } else {
                    i += 1;
                }
            },
            None => {
                i += 1;
            },
        }
    }
    assert(links_from(t@, i as int).map_values(f) =~= Seq::<(Seq<char>, Seq<char>)>::empty());
    assert(departments_view(out@) =~= departments_view(out@) + links_from(t@, i as int).map_values(f));
    out
}

} // verus!
