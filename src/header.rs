//! Resolving a course header such as
//! `CSE 101. Design and Analysis of Algorithms (4)` into its code, name and
//! unit count, by an ordered list of rules where the first that matches wins.
use vstd::prelude::*;
use crate::scan::{
    find_char, find_char_from, holds_at, holds_at_exec, lemma_find_char_bounds,
    lemma_scan_bounds, occurs_in, occurs_in_exec, scan, scan_from, CharClass,
};
use crate::text::{
    chars_of, is_space, lemma_skip_space_bounds, lemma_space_run_start_bounds, skip_space,
    skip_space_from, slice_range, space, space_run_start, space_run_start_at, string_of,
};

verus! {

/// A course code, a course name and a unit count, as character sequences.
pub type Fields = (Seq<char>, Seq<char>, Seq<char>);

/// The rules that resolve a header, in the order in which they are tried.
#[derive(Clone, Copy, Debug)]
pub enum ParseRule {
    /// `(programs) CODE NUM. Title (units)`, for courses listed under several
    /// programs; the code joins the program list and the course's own code.
    JointListing,
    /// `TOKEN TOKEN. Title (units)`: a code of exactly two tokens.
    IrregularCode,
    /// `CODE. Title (units)`.
    General,
    /// `CODE. Title`, with no unit count.
    GeneralNoUnits,
}

/// The resolved parts of a course header.
pub struct HeaderFields {
    pub code: String,
    pub name: String,
    pub units: String,
}

/// Why a course header could not be resolved.
pub enum ParseError {
    /// No rule matched; holds the header as it was given.
    UnrecognizedHeader(String),
}

/// The lead-in of headers that are listed under several programs.
pub open spec fn joint_marker() -> Seq<char> {
    seq!['L', 'i', 'n', 'g', 'u', 'i', 's', 't', 'i', 'c', 's']
}

/// The lead-in of the department whose codes have two tokens.
pub open spec fn irregular_marker() -> Seq<char> {
    seq!['C', 'O', 'M', 'M']
}

/// The tag that, together with the lead-in, marks a two-token code.
pub open spec fn irregular_tag() -> Seq<char> {
    seq!['C', 'S', 'I']
}

/// The rules tried on `t`, in order.
pub open spec fn rules_for(t: Seq<char>) -> Seq<ParseRule> {
    if holds_at(t, 0, joint_marker()) {
        seq![ParseRule::JointListing]
    } else if holds_at(t, 0, irregular_marker()) && occurs_in(t, irregular_tag()) {
        seq![ParseRule::IrregularCode]
    } else {
        seq![ParseRule::General, ParseRule::GeneralNoUnits]
    }
}

/// The largest index `p` with `1 <= p <= j` that holds `(` right after white
/// space, or -1.
pub open spec fn open_paren_before(t: Seq<char>, j: int) -> int
    decreases j,
{
    if j < 1 {
        -1
    } else if j < t.len() && t[j] == '(' && is_space(t[j - 1]) {
        j
    } else {
        open_paren_before(t, j - 1)
    }
}

/// Splits off a trailing ` (units)` group: the text before it, without the
/// white space in between, and what the parentheses hold.
pub open spec fn split_units(t: Seq<char>) -> Option<(Seq<char>, Seq<char>)> {
    if t.len() >= 2 && t.last() == ')' {
        let p = open_paren_before(t, t.len() - 2);
        if p >= 1 {
            Some((t.subrange(0, space_run_start(t, p)), t.subrange(p + 1, t.len() - 1)))
        } else {
            None
        }
    } else {
        None
    }
}

/// Whether index `j` of `h` holds `.` or `:`.
pub open spec fn punct_at(h: Seq<char>, j: int) -> bool {
    0 <= j < h.len() && (h[j] == '.' || h[j] == ':')
}

/// A separator: `.`, `:` or white space.
pub open spec fn is_sep(c: char) -> bool {
    c == '.' || c == ':' || is_space(c)
}

/// Splits `h` at the separator at index `j` into a code (trailing white
/// space dropped) and a name (leading white space dropped). The code must
/// hold a digit and the name must not be empty.
pub open spec fn split_at(h: Seq<char>, j: int) -> Option<(Seq<char>, Seq<char>)> {
    if 0 <= j < h.len() && scan(h, 0, CharClass::Digit, true) < j && skip_space(h, j + 1) < h.len() {
        Some((h.subrange(0, space_run_start(h, j)), h.subrange(skip_space(h, j + 1), h.len() as int)))
    } else {
        None
    }
}

/// The `.` or `:` that ends the leading run of code characters, or -1.
pub open spec fn punct_split(h: Seq<char>) -> int {
    let k = scan(h, 0, CharClass::Code, false);
    if punct_at(h, k) {
        k
    } else {
        -1
    }
}

/// The first white space after the first digit, when the code characters
/// run up to it; else -1.
pub open spec fn space_split(h: Seq<char>) -> int {
    let d = scan(h, 0, CharClass::Digit, true);
    let j = scan(h, d, CharClass::Space, true);
    if j < scan(h, 0, CharClass::Code, false) {
        j
    } else {
        -1
    }
}

/// Splits a header without its unit count into code and name: at the `.` or
/// `:` that ends the code where that works, else at the white space that
/// follows the course number.
pub open spec fn split_code(h: Seq<char>) -> Option<(Seq<char>, Seq<char>)> {
    match split_at(h, punct_split(h)) {
        Some(x) => Some(x),
        None => split_at(h, space_split(h)),
    }
}

/// The end of a code of two tokens parted by white space, when a separator
/// follows it; else -1.
pub open spec fn irregular_code_end(h: Seq<char>) -> int {
    let a = scan(h, 0, CharClass::Token, false);
    let b = skip_space(h, a);
    let c = scan(h, b, CharClass::Token, false);
    if 0 < a && a < b && b < c && c < h.len() && is_sep(h[c]) {
        c
    } else {
        -1
    }
}

pub open spec fn general_rule(t: Seq<char>) -> Option<Fields> {
    match split_units(t) {
        Some((h, u)) => match split_code(h) {
            Some((c, n)) => Some((c, n, u)),
            None => None,
        },
        None => None,
    }
}

pub open spec fn general_no_units_rule(t: Seq<char>) -> Option<Fields> {
    match split_code(t) {
        Some((c, n)) => Some((c, n, Seq::empty())),
        None => None,
    }
}

pub open spec fn irregular_rule(t: Seq<char>) -> Option<Fields> {
    match split_units(t) {
        Some((h, u)) => {
            let e = irregular_code_end(h);
            if e >= 0 && skip_space(h, e + 1) < h.len() {
                Some((h.subrange(0, e), h.subrange(skip_space(h, e + 1), h.len() as int), u))
            } else {
                None
            }
        },
        None => None,
    }
}

/// `(programs) CODE. Title (units)`: the programs are what the first
/// parentheses hold; white space follows them.
pub open spec fn joint_rule(t: Seq<char>) -> Option<Fields> {
    let o = find_char(t, 0, '(');
    let c = find_char(t, o + 1, ')');
    if o + 1 < c && c + 1 < t.len() && is_space(t[c + 1]) {
        match split_units(t.subrange(skip_space(t, c + 1), t.len() as int)) {
            Some((h, u)) => {
                let k = scan(h, 0, CharClass::JointCode, false);
                let e = space_run_start(h, k);
                if punct_at(h, k) && e > 0 && skip_space(h, k + 1) < h.len() {
                    Some((
                        t.subrange(o + 1, c) + seq![' '] + h.subrange(0, e),
                        h.subrange(skip_space(h, k + 1), h.len() as int),
                        u,
                    ))
                } else {
                    None
                }
            },
            None => None,
        }
    } else {
        None
    }
}

pub open spec fn apply_rule(rule: ParseRule, t: Seq<char>) -> Option<Fields> {
    match rule {
        ParseRule::JointListing => joint_rule(t),
        ParseRule::IrregularCode => irregular_rule(t),
        ParseRule::General => general_rule(t),
        ParseRule::GeneralNoUnits => general_no_units_rule(t),
    }
}

/// The result of the first rule of `rules` that matches `t`.
pub open spec fn first_match(rules: Seq<ParseRule>, t: Seq<char>) -> Option<Fields>
    decreases rules.len(),
{
    if rules.len() == 0 {
        None
    } else {
        match apply_rule(rules[0], t) {
            Some(f) => Some(f),
            None => first_match(rules.drop_first(), t),
        }
    }
}

/// What a header resolves to, if anything.
pub open spec fn header_fields(t: Seq<char>) -> Option<Fields> {
    first_match(rules_for(t), t)
}


/// The view of an executable split.
pub open spec fn pair_view(o: Option<(Vec<char>, Vec<char>)>) -> Option<(Seq<char>, Seq<char>)> {
    match o {
        Some((a, b)) => Some((a@, b@)),
        None => None,
    }
}

/// The view of executable fields.
pub open spec fn fields_view(o: Option<(Vec<char>, Vec<char>, Vec<char>)>) -> Option<Fields> {
    match o {
        Some((a, b, c)) => Some((a@, b@, c@)),
        None => None,
    }
}

fn joint_marker_chars() -> (r: Vec<char>)
    ensures
        r@ == joint_marker(),
{
    let r = vec!['L', 'i', 'n', 'g', 'u', 'i', 's', 't', 'i', 'c', 's'];
    assert(r@ =~= joint_marker());
    r
}

fn irregular_marker_chars() -> (r: Vec<char>)
    ensures
        r@ == irregular_marker(),
{
    let r = vec!['C', 'O', 'M', 'M'];
    assert(r@ =~= irregular_marker());
    r
}

fn irregular_tag_chars() -> (r: Vec<char>)
    ensures
        r@ == irregular_tag(),
{
    let r = vec!['C', 'S', 'I'];
    assert(r@ =~= irregular_tag());
    r
}

/// The rules to try on `t`, in order.
pub fn rule_order(t: &[char]) -> (r: Vec<ParseRule>)
    ensures
        r@ == rules_for(t@),
{
    let r = if holds_at_exec(t, 0, &joint_marker_chars()) {
        vec![ParseRule::JointListing]
    } else if holds_at_exec(t, 0, &irregular_marker_chars()) && occurs_in_exec(
        t,
        &irregular_tag_chars(),
    ) {
        vec![ParseRule::IrregularCode]
    } else {
        vec![ParseRule::General, ParseRule::GeneralNoUnits]
    };
    assert(r@ =~= rules_for(t@));
    r
}

/// Finds the largest index `p` with `1 <= p <= j` that holds `(` right after
/// white space.
fn open_paren_before_exec(t: &[char], j: usize) -> (r: Option<usize>)
    requires
        j < t.len(),
    ensures
        match r {
            Some(p) => p as int == open_paren_before(t@, j as int) && 1 <= p <= j,
            None => open_paren_before(t@, j as int) == -1,
        },
{
    let mut k = j;
    while k >= 1 && !(t[k] == '(' && space(t[k - 1]))
        invariant
            k <= j < t.len(),
            open_paren_before(t@, k as int) == open_paren_before(t@, j as int),
        decreases k,
    {
        k -= 1;
    }
    if k >= 1 {
        Some(k)
    } else {
        None
    }
}

/// Splits off a trailing ` (units)` group.
pub fn split_units_exec(t: &[char]) -> (r: Option<(Vec<char>, Vec<char>)>)
    ensures
        pair_view(r) == split_units(t@),
{
    if t.len() < 2 || t[t.len() - 1] != ')' {
        return None;
    }
    match open_paren_before_exec(t, t.len() - 2) {
        Some(p) => {
            let e = space_run_start_at(t, p);
            proof {
                lemma_space_run_start_bounds(t@, p as int);
            }
            let head = slice_range(t, 0, e);
            let units = slice_range(t, p + 1, t.len() - 1);
            Some((head, units))
        },
        None => None,
    }
}

/// Splits `h` at the separator at index `j` into a code and a name.
fn split_at_exec(h: &[char], j: usize) -> (r: Option<(Vec<char>, Vec<char>)>)
    ensures
        pair_view(r) == split_at(h@, j as int),
{
    if j >= h.len() {
        return None;
    }
    let d = scan_from(h, 0, CharClass::Digit, true);
    let n = skip_space_from(h, j + 1);
    if d < j && n < h.len() {
        let e = space_run_start_at(h, j);
        proof {
            lemma_space_run_start_bounds(h@, j as int);
        }
        Some((slice_range(h, 0, e), slice_range(h, n, h.len())))
    } else {
        None
    }
}

/// Splits a header without its unit count into code and name.
pub fn split_code_exec(h: &[char]) -> (r: Option<(Vec<char>, Vec<char>)>)
    ensures
        pair_view(r) == split_code(h@),
{
    let k = scan_from(h, 0, CharClass::Code, false);
    if k < h.len() && (h[k] == '.' || h[k] == ':') {
        let first = split_at_exec(h, k);
        if first.is_some() {
            return first;
        }
    } else {
        assert(split_at(h@, punct_split(h@)) is None);
    }
    let d = scan_from(h, 0, CharClass::Digit, true);
    proof {
        lemma_scan_bounds(h@, 0, CharClass::Digit, true);
    }
    let j = scan_from(h, d, CharClass::Space, true);
    if j < k {
        split_at_exec(h, j)
    } else {
        None
    }
}

/// The end of a code of two tokens parted by white space, when a separator
/// follows it.
fn irregular_code_end_exec(h: &[char]) -> (r: Option<usize>)
    ensures
        match r {
            Some(e) => e as int == irregular_code_end(h@) && e < h.len(),
            None => irregular_code_end(h@) == -1,
        },
{
    let a = scan_from(h, 0, CharClass::Token, false);
    proof {
        lemma_scan_bounds(h@, 0, CharClass::Token, false);
    }
    let b = skip_space_from(h, a);
    proof {
        lemma_skip_space_bounds(h@, a as int);
    }
    let c = scan_from(h, b, CharClass::Token, false);
    if 0 < a && a < b && b < c && c < h.len() && (h[c] == '.' || h[c] == ':' || space(h[c])) {
        Some(c)
    } else {
        None
    }
}

fn general_rule_exec(t: &[char]) -> (r: Option<(Vec<char>, Vec<char>, Vec<char>)>)
    ensures
        fields_view(r) == general_rule(t@),
{
    match split_units_exec(t) {
        Some((h, u)) => match split_code_exec(&h) {
            Some((c, n)) => Some((c, n, u)),
            None => None,
        },
        None => None,
    }
}

fn general_no_units_rule_exec(t: &[char]) -> (r: Option<(Vec<char>, Vec<char>, Vec<char>)>)
    ensures
        fields_view(r) == general_no_units_rule(t@),
{
    match split_code_exec(t) {
        Some((c, n)) => {
            let u: Vec<char> = Vec::new();
            assert(u@ =~= Seq::<char>::empty());
            Some((c, n, u))
        },
        None => None,
    }
}

fn irregular_rule_exec(t: &[char]) -> (r: Option<(Vec<char>, Vec<char>, Vec<char>)>)
    ensures
        fields_view(r) == irregular_rule(t@),
{
    match split_units_exec(t) {
        Some((h, u)) => match irregular_code_end_exec(&h) {
            Some(e) => {
                let n = skip_space_from(&h, e + 1);
                if n < h.len() {
                    Some((slice_range(&h, 0, e), slice_range(&h, n, h.len()), u))
                } else {
                    None
                }
            },
            None => None,
        },
        None => None,
    }
}

fn joint_rule_exec(t: &[char]) -> (r: Option<(Vec<char>, Vec<char>, Vec<char>)>)
    ensures
        fields_view(r) == joint_rule(t@),
{
    let o = find_char_from(t, 0, '(');
    proof {
        lemma_find_char_bounds(t@, 0, '(');
    }
    if o >= t.len() {
        return None;
    }
    let c = find_char_from(t, o + 1, ')');
    proof {
        lemma_find_char_bounds(t@, o + 1, ')');
    }
    if !(o + 1 < c && c < t.len() - 1 && space(t[c + 1])) {
        return None;
    }
    let s = skip_space_from(t, c + 1);
    proof {
        lemma_skip_space_bounds(t@, c + 1);
    }
    let rest = slice_range(t, s, t.len());
    match split_units_exec(&rest) {
        Some((h, u)) => {
            let k = scan_from(&h, 0, CharClass::JointCode, false);
            proof {
                lemma_scan_bounds(h@, 0, CharClass::JointCode, false);
            }
            if !(k < h.len() && (h[k] == '.' || h[k] == ':')) {
                return None;
            }
            let e = space_run_start_at(&h, k);
            let n = skip_space_from(&h, k + 1);
            if e > 0 && n < h.len() {
                proof {
                    lemma_space_run_start_bounds(h@, k as int);
                }
                let mut code = slice_range(t, o + 1, c);
                code.push(' ');
                let mut own = slice_range(&h, 0, e);
                code.append(&mut own);
                assert(code@ =~= t@.subrange(o + 1, c as int) + seq![' '] + h@.subrange(0, e as int));
                Some((code, slice_range(&h, n, h.len()), u))
            } else {
                None
            }
        },
        None => None,
    }
}

/// Applies one rule to a header.
pub fn apply_rule_exec(rule: ParseRule, t: &[char]) -> (r: Option<(Vec<char>, Vec<char>, Vec<char>)>)
    ensures
        fields_view(r) == apply_rule(rule, t@),
{
    match rule {
        ParseRule::JointListing => joint_rule_exec(t),
        ParseRule::IrregularCode => irregular_rule_exec(t),
        ParseRule::General => general_rule_exec(t),
        ParseRule::GeneralNoUnits => general_no_units_rule_exec(t),
    }
}

/// Resolves a course header, already decoded and stripped of tags, into its
/// code, name and unit count. The rules of `rules_for` are tried in order
/// and the first that matches wins; when none does, the header is returned
/// inside `UnrecognizedHeader`.
pub fn parse_header(name_text: &str) -> (r: Result<HeaderFields, ParseError>)
    ensures
        match r {
            Ok(f) => header_fields(name_text@) == Some((f.code@, f.name@, f.units@)),
            Err(ParseError::UnrecognizedHeader(s)) => header_fields(name_text@) is None && s@
                == name_text@,
        },
{
    let t = chars_of(name_text);
    let rules = rule_order(&t);
    let mut i: usize = 0;
    assert(rules@.subrange(0, rules.len() as int) =~= rules@);
    while i < rules.len()
        invariant
            i <= rules.len(),
            t@ == name_text@,
            rules@ == rules_for(t@),
            first_match(rules@.subrange(i as int, rules.len() as int), t@) == header_fields(t@),
        decreases rules.len() - i,
    {
        let rule = rules[i];
        assert(rules@.subrange(i as int, rules.len() as int).drop_first() =~= rules@.subrange(
            i + 1,
            rules.len() as int,
        ));
        match apply_rule_exec(rule, &t) {
            Some((c, n, u)) => {
                return Ok(HeaderFields { code: string_of(&c), name: string_of(&n), units: string_of(&u) });
            },
            None => {},
        }
        i += 1;
    }
    assert(rules@.subrange(i as int, rules.len() as int) =~= Seq::<ParseRule>::empty());
    Err(ParseError::UnrecognizedHeader(string_of(&t)))
}

proof fn lemma_split_at_parts(h: Seq<char>, j: int)
    ensures
        split_at(h, j) matches Some((c, n)) ==> c.len() > 0 && n.len() > 0,
{
    if split_at(h, j) is Some {
        lemma_scan_bounds(h, 0, CharClass::Digit, true);
        lemma_space_run_start_bounds(h, j);
        lemma_skip_space_bounds(h, j + 1);
        let d = scan(h, 0, CharClass::Digit, true);
        assert(d < j);
        assert('0' <= h[d] && h[d] <= '9');
        if space_run_start(h, j) <= d {
            assert(is_space(h[d]));
        }
        assert(space_run_start(h, j) > 0);
    }
}

proof fn lemma_rule_parts(rule: ParseRule, t: Seq<char>)
    ensures
        apply_rule(rule, t) matches Some((code, name, _units)) ==> code.len() > 0 && name.len() > 0,
{
    match rule {
        ParseRule::General => {
            if let Some((h, u)) = split_units(t) {
                lemma_split_at_parts(h, punct_split(h));
                lemma_split_at_parts(h, space_split(h));
            }
        },
        ParseRule::GeneralNoUnits => {
            lemma_split_at_parts(t, punct_split(t));
            lemma_split_at_parts(t, space_split(t));
        },
        ParseRule::IrregularCode => {
            if let Some((h, u)) = split_units(t) {
                let e = irregular_code_end(h);
                if e >= 0 {
                    lemma_skip_space_bounds(h, e + 1);
                }
            }
        },
        ParseRule::JointListing => {
            let o = find_char(t, 0, '(');
            let c = find_char(t, o + 1, ')');
            if o + 1 < c && c + 1 < t.len() && is_space(t[c + 1]) {
                lemma_find_char_bounds(t, 0, '(');
                lemma_find_char_bounds(t, o + 1, ')');
                lemma_skip_space_bounds(t, c + 1);
                if let Some((h, u)) = split_units(t.subrange(skip_space(t, c + 1), t.len() as int)) {
                    let k = scan(h, 0, CharClass::JointCode, false);
                    if punct_at(h, k) {
                        lemma_skip_space_bounds(h, k + 1);
                    }
                }
            }
        },
    }
}

proof fn lemma_first_match_parts(rules: Seq<ParseRule>, t: Seq<char>)
    ensures
        first_match(rules, t) matches Some((code, name, _units)) ==> code.len() > 0 && name.len()
            > 0,
    decreases rules.len(),
{
    if rules.len() > 0 {
        lemma_rule_parts(rules[0], t);
        lemma_first_match_parts(rules.drop_first(), t);
    }
}

/// A resolved header always has a code and a name that are not empty.
pub proof fn lemma_resolved_parts_not_empty(t: Seq<char>)
    ensures
        header_fields(t) matches Some((code, name, _units)) ==> code.len() > 0 && name.len() > 0,
{
    lemma_first_match_parts(rules_for(t), t);
}

} // verus!
