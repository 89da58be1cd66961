//! Finding the course blocks of a department page: a header paragraph on
//! one line, and the description paragraph on the next.
use vstd::prelude::*;
use crate::scan::{find_char, find_char_from, holds_at, holds_at_exec, lemma_find_char_bounds};
use crate::text::{chars_of, slice_range, string_of};

verus! {

/// The raw header and description of one course, as found on its page.
pub struct CourseBlock {
    pub header_html: String,
    pub description_html: String,
}

/// Opens the paragraph that holds a course header.
pub open spec fn name_open() -> Seq<char> {
    seq!['<', 'p', ' ', 'c', 'l', 'a', 's', 's', '=', '"', 'c', 'o', 'u', 'r', 's', 'e', '-', 'n', 'a', 'm', 'e', '"', '>']
}

fn name_open_chars() -> (r: Vec<char>)
    ensures
        r@ == name_open(),
{
    let r = vec!['<', 'p', ' ', 'c', 'l', 'a', 's', 's', '=', '"', 'c', 'o', 'u', 'r', 's', 'e', '-', 'n', 'a', 'm', 'e', '"', '>'];
    assert(r@ =~= name_open());
    r
}

/// Opens the paragraph that holds a course description.
pub open spec fn desc_open() -> Seq<char> {
    seq!['<', 'p', ' ', 'c', 'l', 'a', 's', 's', '=', '"', 'c', 'o', 'u', 'r', 's', 'e', '-', 'd', 'e', 's', 'c', 'r', 'i', 'p', 't', 'i', 'o', 'n', 's', '"', '>']
}

fn desc_open_chars() -> (r: Vec<char>)
    ensures
        r@ == desc_open(),
{
    let r = vec!['<', 'p', ' ', 'c', 'l', 'a', 's', 's', '=', '"', 'c', 'o', 'u', 'r', 's', 'e', '-', 'd', 'e', 's', 'c', 'r', 'i', 'p', 't', 'i', 'o', 'n', 's', '"', '>'];
    assert(r@ =~= desc_open());
    r
}

/// Closes a paragraph.
pub open spec fn para_close() -> Seq<char> {
    seq!['<', '/', 'p', '>']
}

fn para_close_chars() -> (r: Vec<char>)
    ensures
        r@ == para_close(),
{
    let r = vec!['<', '/', 'p', '>'];
    assert(r@ =~= para_close());
    r
}

/// The largest `q` with `lo < q <= j` where a closing paragraph tag starts,
/// or -1.
pub open spec fn last_close(t: Seq<char>, lo: int, j: int) -> int
    decreases j - lo,
{
    if j <= lo {
        -1
    } else if holds_at(t, j, para_close()) {
        j
    } else {
        last_close(t, lo, j - 1)
    }
}

/// The block that starts at index `i`, if one does: its header, its
/// description, and the index where it ends.
///
/// The header line must end right after its closing tag, and the next line
/// must open a description. The description runs up to the last closing
/// tag on its line. Neither part may be empty.
pub open spec fn block_at(t: Seq<char>, i: int) -> Option<(Seq<char>, Seq<char>, int)> {
    let hs = i + name_open().len();
    let e = find_char(t, hs, '\n');
    let ds = e + 1 + desc_open().len();
    let q = last_close(t, ds, find_char(t, ds, '\n') - para_close().len());
    if holds_at(t, i, name_open()) && e < t.len() && hs < e - para_close().len() && holds_at(
        t,
        e - para_close().len(),
        para_close(),
    ) && holds_at(t, e + 1, desc_open()) && q > ds {
        Some((t.subrange(hs, e - para_close().len()), t.subrange(ds, q), q + para_close().len()))
    } else {
        None
    }
}

/// The blocks found scanning from index `i`: left to right, each starting at
/// the first index where one does, and none overlapping another.
pub open spec fn blocks_from(t: Seq<char>, i: int) -> Seq<(Seq<char>, Seq<char>)>
    decreases t.len() - i,
{
    if i < 0 || i >= t.len() {
        Seq::empty()
    } else {
        match block_at(t, i) {
            Some((h, d, end)) => if i < end <= t.len() {
                seq![(h, d)] + blocks_from(t, end)
            } else {
                blocks_from(t, i + 1)
            },
            None => blocks_from(t, i + 1),
        }
    }
}

/// The blocks of a department page, in document order.
pub open spec fn blocks_of(t: Seq<char>) -> Seq<(Seq<char>, Seq<char>)> {
    blocks_from(t, 0)
}

/// The header and description of each block.
pub open spec fn blocks_view(v: Seq<CourseBlock>) -> Seq<(Seq<char>, Seq<char>)> {
    v.map_values(|b: CourseBlock| (b.header_html@, b.description_html@))
}

fn last_close_exec(t: &[char], lo: usize, j: usize, close: &Vec<char>) -> (r: Option<usize>)
    requires
        close@ == para_close(),
    ensures
        match r {
            Some(q) => q as int == last_close(t@, lo as int, j as int) && lo < q && holds_at(
                t@,
                q as int,
                para_close(),
            ),
            None => last_close(t@, lo as int, j as int) == -1,
        },
{
    let mut k = j;
    while k > lo && !holds_at_exec(t, k, close)
        invariant
            k <= j,
            close@ == para_close(),
            last_close(t@, lo as int, k as int) == last_close(t@, lo as int, j as int),
        decreases k,
    {
        k -= 1;
    }
    if k > lo {
        Some(k)
    } else {
        None
    }
}

/// The block that starts at index `i`, if one does.
fn block_at_exec(t: &[char], i: usize) -> (r: Option<(Vec<char>, Vec<char>, usize)>)
    ensures
        match r {
            Some((h, d, end)) => block_at(t@, i as int) == Some((h@, d@, end as int)),
            None => block_at(t@, i as int) is None,
        },
{
    let open = name_open_chars();
    if !holds_at_exec(t, i, &open) {
        return None;
    }
    let n = t.len();
    assert(i + open@.len() <= n);
    let hs = i + open.len();
    let e = find_char_from(t, hs, '\n');
    proof {
        lemma_find_char_bounds(t@, hs as int, '\n');
    }
    let close = para_close_chars();
    assert(close@.len() == 4);
    assert(e <= n);
    if e >= n || e - hs <= close.len() {
        return None;
    }
    if !holds_at_exec(t, e - close.len(), &close) {
        return None;
    }
    let dopen = desc_open_chars();
    if !holds_at_exec(t, e + 1, &dopen) {
        return None;
    }
    let ds = e + 1 + dopen.len();
    let e2 = find_char_from(t, ds, '\n');
    proof {
        lemma_find_char_bounds(t@, ds as int, '\n');
    }
    if e2 - ds <= close.len() {
        assert(last_close(t@, ds as int, e2 - para_close().len()) == -1);
        return None;
    }
    match last_close_exec(t, ds, e2 - close.len(), &close) {
        Some(q) => {
            let h = slice_range(t, hs, e - close.len());
            let d = slice_range(t, ds, q);
            Some((h, d, q + close.len()))
        },
        None => None,
    }
}

/// Finds the course blocks of a department page, in document order. A page
/// without any yields an empty vector.
pub fn extract_blocks(department_html: &str) -> (r: Vec<CourseBlock>)
    ensures
        blocks_view(r@) == blocks_of(department_html@),
{
    let t = chars_of(department_html);
    let mut out: Vec<CourseBlock> = Vec::new();
    let mut i: usize = 0;
    while i < t.len()
        invariant
            i <= t.len(),
            t@ == department_html@,
            blocks_view(out@) + blocks_from(t@, i as int) == blocks_of(t@),
        decreases t.len() - i,
    {
        match block_at_exec(&t, i) {
            Some((h, d, end)) => {
                if i < end && end <= t.len() {
                    let ghost before = out@;
                    out.push(CourseBlock { header_html: string_of(&h), description_html: string_of(&d) });
                    assert(blocks_view(out@) =~= blocks_view(before) + seq![(h@, d@)]);
                    assert(blocks_view(out@) + blocks_from(t@, end as int) =~= blocks_view(before)
                        + blocks_from(t@, i as int));
                    i = end;
                } else {
                    i += 1;
                }
            },
            None => {
                i += 1;
            },
        }
    }
    assert(blocks_from(t@, i as int) =~= Seq::<(Seq<char>, Seq<char>)>::empty());
    assert(blocks_view(out@) =~= blocks_view(out@) + blocks_from(t@, i as int));
    out
}


/// The two lines of one course on a department page.
pub open spec fn course_lines(h: Seq<char>, d: Seq<char>) -> Seq<char> {
    name_open() + h + para_close() + seq!['\n'] + desc_open() + d + para_close() + seq!['\n']
}

/// A page that holds the courses of `pairs`, one after the other.
pub open spec fn page_of(pairs: Seq<(Seq<char>, Seq<char>)>) -> Seq<char>
    decreases pairs.len(),
{
    if pairs.len() == 0 {
        Seq::empty()
    } else {
        course_lines(pairs[0].0, pairs[0].1) + page_of(pairs.drop_first())
    }
}

/// A header and a description that each fit on one line and are not empty.
pub open spec fn well_formed_pair(p: (Seq<char>, Seq<char>)) -> bool {
    p.0.len() > 0 && p.1.len() > 0 && !p.0.contains('\n') && !p.1.contains('\n')
}

proof fn lemma_find_char_is(t: Seq<char>, i: int, c: char, e: int)
    requires
        0 <= i <= e <= t.len(),
        e < t.len() ==> t[e] == c,
        forall|k: int| i <= k < e ==> t[k] != c,
    ensures
        find_char(t, i, c) == e,
    decreases e - i,
{
    if i < e {
        lemma_find_char_is(t, i + 1, c, e);
    }
}

proof fn lemma_literals()
    ensures
        name_open().len() == 23,
        desc_open().len() == 31,
        para_close().len() == 4,
        !name_open().contains('\n'),
        !desc_open().contains('\n'),
        !para_close().contains('\n'),
        name_open()[0] == '<',
{
    assert(!name_open().contains('\n'));
    assert(!desc_open().contains('\n'));
    assert(!para_close().contains('\n'));
}

/// `t` holds `part` from index `a`, when `whole` holds it from `b` and `t`
/// holds `whole` from `i`.
proof fn lemma_part_at(t: Seq<char>, i: int, whole: Seq<char>, b: int, part: Seq<char>)
    requires
        0 <= i,
        i + whole.len() <= t.len(),
        t.subrange(i, i + whole.len()) == whole,
        0 <= b,
        b + part.len() <= whole.len(),
        whole.subrange(b, b + part.len()) == part,
    ensures
        t.subrange(i + b, i + b + part.len()) == part,
        forall|k: int| 0 <= k < part.len() ==> t[i + b + k] == #[trigger] part[k],
{
    assert(t.subrange(i + b, i + b + part.len()) =~= whole.subrange(b, b + part.len()));
    assert forall|k: int| 0 <= k < part.len() implies t[i + b + k] == #[trigger] part[k] by {
        assert(t.subrange(i, i + whole.len())[b + k] == t[i + b + k]);
    }
}

/// A course's two lines at index `i` make a block that ends at the line
/// break after its description.
#[verifier::rlimit(60)]
proof fn lemma_block_at_course(t: Seq<char>, i: int, h: Seq<char>, d: Seq<char>)
    requires
        0 <= i,
        i + course_lines(h, d).len() <= t.len(),
        t.subrange(i, i + course_lines(h, d).len()) == course_lines(h, d),
        well_formed_pair((h, d)),
    ensures
        block_at(t, i) == Some((h, d, i + course_lines(h, d).len() - 1)),
{
    lemma_literals();
    let lines = course_lines(h, d);
    let hl: int = h.len() as int;
    let dl: int = d.len() as int;
    let hs = i + 23;
    let e = hs + hl + 4;
    let ds = e + 1 + 31;
    let q = ds + dl;
    let nl = seq!['\n'];
    assert(lines.subrange(0, 23) =~= name_open());
    assert(lines.subrange(23, 23 + hl) =~= h);
    assert(lines.subrange(23 + hl, 27 + hl) =~= para_close());
    assert(lines.subrange(27 + hl, 28 + hl) =~= nl);
    assert(lines.subrange(28 + hl, 59 + hl) =~= desc_open());
    assert(lines.subrange(59 + hl, 59 + hl + dl) =~= d);
    assert(lines.subrange(59 + hl + dl, 63 + hl + dl) =~= para_close());
    assert(lines.subrange(63 + hl + dl, 64 + hl + dl) =~= nl);
    lemma_part_at(t, i, lines, 0, name_open());
    lemma_part_at(t, i, lines, 23, h);
    lemma_part_at(t, i, lines, 23 + hl, para_close());
    lemma_part_at(t, i, lines, 27 + hl, nl);
    lemma_part_at(t, i, lines, 28 + hl, desc_open());
    lemma_part_at(t, i, lines, 59 + hl, d);
    lemma_part_at(t, i, lines, 59 + hl + dl, para_close());
    lemma_part_at(t, i, lines, 63 + hl + dl, nl);
    assert forall|k: int| hs <= k < e implies t[k] != '\n' by {
        if k < hs + hl {
            assert(t[i + 23 + (k - hs)] == h[k - hs]);
            assert(!h.contains('\n'));
        } else {
            assert(t[i + (23 + hl) + (k - hs - hl)] == para_close()[k - hs - hl]);
        }
    }
    assert(t[i + (27 + hl) + 0] == nl[0]);
    lemma_find_char_is(t, hs, '\n', e);
    assert forall|k: int| ds <= k < q + 4 implies t[k] != '\n' by {
        if k < q {
            assert(t[i + (59 + hl) + (k - ds)] == d[k - ds]);
            assert(!d.contains('\n'));
        } else {
            assert(t[i + (59 + hl + dl) + (k - q)] == para_close()[k - q]);
        }
    }
    assert(t[i + (63 + hl + dl) + 0] == nl[0]);
    lemma_find_char_is(t, ds, '\n', q + 4);
    assert(holds_at(t, i, name_open()));
    assert(holds_at(t, e - 4, para_close()));
    assert(holds_at(t, e + 1, desc_open()));
    assert(holds_at(t, q, para_close()));
    assert(last_close(t, ds, q) == q);
}

#[verifier::rlimit(100)]
proof fn lemma_blocks_from_page(t: Seq<char>, i: int, pairs: Seq<(Seq<char>, Seq<char>)>)
    requires
        0 <= i <= t.len(),
        t.subrange(i, t.len() as int) == page_of(pairs),
        forall|k: int| 0 <= k < pairs.len() ==> well_formed_pair(#[trigger] pairs[k]),
    ensures
        blocks_from(t, i) == pairs,
    decreases pairs.len(),
{
    if pairs.len() == 0 {
        assert(t.subrange(i, t.len() as int).len() == 0);
        assert(blocks_from(t, i) =~= pairs);
    } else {
        lemma_literals();
        let (h, d) = pairs[0];
        let lines = course_lines(h, d);
        let rest = pairs.drop_first();
        let n = lines.len() as int;
        assert(well_formed_pair(pairs[0]));
        assert(page_of(pairs) == lines + page_of(rest));
        assert(t.subrange(i, t.len() as int).len() == t.len() - i);
        assert(i + n <= t.len());
        assert(t.subrange(i, i + n) =~= t.subrange(i, t.len() as int).subrange(0, n));
        assert(page_of(pairs).subrange(0, n) =~= lines);
        lemma_block_at_course(t, i, h, d);
        let end = i + n - 1;
        assert(t[end] == lines[n - 1]);
        assert(!holds_at(t, end, name_open())) by {
            if holds_at(t, end, name_open()) {
                assert(t.subrange(end, end + 23)[0] == name_open()[0]);
            }
        }
        assert(block_at(t, end) is None);
        assert(t.subrange(i + n, t.len() as int) =~= t.subrange(i, t.len() as int).subrange(
            n,
            t.len() - i,
        ));
        assert(page_of(pairs).subrange(n, page_of(pairs).len() as int) =~= page_of(rest));
        assert forall|k: int| 0 <= k < rest.len() implies well_formed_pair(#[trigger] rest[k]) by {
            assert(rest[k] == pairs[k + 1]);
        }
        lemma_blocks_from_page(t, i + n, rest);
        assert(blocks_from(t, end) == blocks_from(t, i + n));
        assert(i < end <= t.len());
        assert(blocks_from(t, i) == seq![(h, d)] + blocks_from(t, end));
        assert(blocks_from(t, i) =~= seq![(h, d)] + rest);
        assert(pairs =~= seq![(h, d)] + rest);
    }
}

/// A page made of well-formed courses, one after the other, yields exactly
/// those courses as blocks, in the same order.
pub proof fn lemma_blocks_of_page(pairs: Seq<(Seq<char>, Seq<char>)>)
    requires
        forall|k: int| 0 <= k < pairs.len() ==> well_formed_pair(#[trigger] pairs[k]),
    ensures
        blocks_of(page_of(pairs)) == pairs,
{
    let t = page_of(pairs);
    assert(t.subrange(0, t.len() as int) =~= t);
    lemma_blocks_from_page(t, 0, pairs);
}

} // verus!
