//! The line classifier: tells what one line of a Makefile is. Variable
//! assignments, plain and target-scoped, are told from everything else
//! first, so that only the remaining lines are looked at as target
//! declarations.

use vstd::prelude::*;
use crate::makefile::ParseError;
use crate::pattern::{
    captures_iter, compile, group, groups_view, matches_view, pattern_of, regex_accepts,
    regex_captures,
};
use crate::target::{copy_text, text_of};
use crate::text::{
    chars_of, find_char, find_pair, first_index, first_pair, is_space, leading_spaces,
    space_chars,
    lemma_first_index_bounds, lemma_first_pair_bounds, lemma_first_pair_is, lemma_run_len_bounds,
    lemma_run_len_is, occurs_before, run_len, subvec, texts, trim, trim_start, trim_start_chars,
    trimmed,
};

verus! {

/// The pattern of a target declaration: a name, optional white space, a
/// colon. The name is the first capture group.
pub const TARGET_PATTERN: &'static str = r"^([A-Za-z0-9._/\-%]+)\s*:";

/// What one line of a Makefile is.
#[derive(Debug, Clone, PartialEq, Eq)]
pub enum LineKind {
    /// White space only.
    Blank,
    /// A comment.
    Comment,
    /// A plain variable assignment.
    Assignment,
    /// A target-scoped variable assignment.
    ScopedAssignment,
    /// The declaration of the target with this name.
    Declaration(String),
    /// Anything else.
    Other,
}

/// What a `LineKind` stands for.
pub ghost enum LineKindView {
    Blank,
    Comment,
    Assignment,
    ScopedAssignment,
    Declaration(Seq<char>),
    Other,
}

impl View for LineKind {
    type V = LineKindView;

    open spec fn view(&self) -> LineKindView {
        match self {
            LineKind::Blank => LineKindView::Blank,
            LineKind::Comment => LineKindView::Comment,
            LineKind::Assignment => LineKindView::Assignment,
            LineKind::ScopedAssignment => LineKindView::ScopedAssignment,
            LineKind::Declaration(name) => LineKindView::Declaration(name@),
            LineKind::Other => LineKindView::Other,
        }
    }
}

/// Characters of a variable name: ASCII letters, digits and the underscore.
pub open spec fn is_ident_char(c: char) -> bool {
    ||| '0' <= c <= '9'
    ||| 'A' <= c <= 'Z'
    ||| 'a' <= c <= 'z'
    ||| c == '_'
}

/// The predicate `is_ident_char`, as a value.
pub open spec fn ident_chars() -> spec_fn(char) -> bool {
    |c: char| is_ident_char(c)
}

/// The first place where `a` is directly followed by `=` has no colon
/// before it.
pub open spec fn operator_before_colon(s: Seq<char>, a: char) -> bool {
    match first_pair(s, a, '=') {
        Some(p) => !s.take(p).contains(':'),
        None => false,
    }
}

/// The first `=` is not the first character, follows none of `:`, `+`, `?`,
/// is not followed by another `=`, and has no colon before it.
pub open spec fn bare_equals(s: Seq<char>) -> bool {
    match first_index(s, '=') {
        Some(p) => {
            &&& p > 0
            &&& s[p - 1] != ':'
            &&& s[p - 1] != '+'
            &&& s[p - 1] != '?'
            &&& !(p + 1 < s.len() && s[p + 1] == '=')
            &&& !s.take(p).contains(':')
        },
        None => false,
    }
}

/// A plain variable assignment: one of `:=`, `?=`, `+=` or a bare `=`, with
/// no colon earlier on the line.
pub open spec fn is_assignment(s: Seq<char>) -> bool {
    ||| operator_before_colon(s, ':')
    ||| operator_before_colon(s, '?')
    ||| operator_before_colon(s, '+')
    ||| bare_equals(s)
}

/// `s` begins with `:=`, `?=`, `+=` or `=`.
pub open spec fn starts_with_operator(s: Seq<char>) -> bool {
    ||| s.len() >= 1 && s[0] == '='
    ||| s.len() >= 2 && s[1] == '=' && (s[0] == ':' || s[0] == '?' || s[0] == '+')
}

/// `s` begins with a variable name that is followed, after optional white
/// space, by an assignment operator.
pub open spec fn starts_with_binding(s: Seq<char>) -> bool {
    let k = run_len(s, ident_chars());
    k > 0 && starts_with_operator(trim_start(s.skip(k as int)))
}

/// A target-scoped variable assignment: what follows the first colon, once
/// its leading white space is dropped, begins with a variable binding. The
/// name may be in either case, so that `a: b = c` counts as one too.
pub open spec fn is_scoped_assignment(s: Seq<char>) -> bool {
    match first_index(s, ':') {
        Some(p) => starts_with_binding(trim_start(s.skip(p + 1))),
        None => false,
    }
}

/// The name that the first of the matches `ms` captured.
pub open spec fn first_name(ms: Seq<Seq<Option<Seq<char>>>>) -> Option<Seq<char>> {
    if ms.len() > 0 {
        group(ms[0], 1)
    } else {
        None
    }
}

/// What a line is, given the line without surrounding white space and the
/// matches of the declaration pattern in it. The assignment forms are tried
/// first: a target-scoped assignment also looks like a declaration.
pub open spec fn classification(line: Seq<char>, ms: Seq<Seq<Option<Seq<char>>>>) -> LineKindView {
    if line.len() == 0 {
        LineKindView::Blank
    } else if line[0] == '#' {
        LineKindView::Comment
    } else if is_assignment(line) {
        LineKindView::Assignment
    } else if is_scoped_assignment(line) {
        LineKindView::ScopedAssignment
    } else {
        match first_name(ms) {
            Some(name) => LineKindView::Declaration(name),
            None => LineKindView::Other,
        }
    }
}

/// What a line of a Makefile is.
pub open spec fn line_kind(line: Seq<char>) -> LineKindView {
    classification(trim(line), regex_captures(TARGET_PATTERN@, trim(line)))
}

/// What each of `lines` is.
pub open spec fn kinds_of(lines: Seq<Seq<char>>) -> Seq<LineKindView> {
    Seq::new(lines.len(), |i: int| line_kind(lines[i]))
}

/// The views of a sequence of line kinds, element by element.
pub open spec fn kinds_view(kinds: Seq<LineKind>) -> Seq<LineKindView> {
    Seq::new(kinds.len(), |i: int| kinds[i]@)
}

/// Whether `c` may stand in a variable name.
pub fn is_identifier_char(c: char) -> (r: bool)
    ensures
        r == is_ident_char(c),
{
    ('0' <= c && c <= '9') || ('A' <= c && c <= 'Z') || ('a' <= c && c <= 'z') || c == '_'
}

fn has_operator_before_colon(s: &Vec<char>, a: char) -> (r: bool)
    ensures
        r == operator_before_colon(s@, a),
{
    match find_pair(s, a, '=') {
        Some(p) => {
            proof {
                lemma_first_pair_bounds(s@, a, '=');
            }
            !occurs_before(s, ':', p)
        },
        None => false,
    }
}

fn has_bare_equals(s: &Vec<char>) -> (r: bool)
    ensures
        r == bare_equals(s@),
{
    match find_char(s, '=') {
        Some(p) => {
            proof {
                lemma_first_index_bounds(s@, '=');
            }
            if p == 0 {
                return false;
            }
            let before = s[p - 1];
            if before == ':' || before == '+' || before == '?' {
                return false;
            }
            if p + 1 < s.len() && s[p + 1] == '=' {
                return false;
            }
            !occurs_before(s, ':', p)
        },
        None => false,
    }
}

fn begins_with_operator(s: &Vec<char>) -> (r: bool)
    ensures
        r == starts_with_operator(s@),
{
    if s.len() >= 1 && s[0] == '=' {
        return true;
    }
    s.len() >= 2 && s[1] == '=' && (s[0] == ':' || s[0] == '?' || s[0] == '+')
}

fn begins_with_binding(s: &Vec<char>) -> (r: bool)
    ensures
        r == starts_with_binding(s@),
{
    let mut k: usize = 0;
    while k < s.len() && is_identifier_char(s[k])
        invariant
            k <= s.len(),
            forall|q: int| 0 <= q < k ==> is_ident_char(#[trigger] s@[q]),
        decreases s.len() - k,
    {
        k += 1;
    }
    proof {
        lemma_run_len_is(s@, ident_chars(), k as nat);
    }
    if k == 0 {
        return false;
    }
    let rest = subvec(s, k, s.len());
    let rest = trim_start_chars(&rest);
    begins_with_operator(&rest)
}

/// Whether `line` is a plain variable assignment.
pub fn is_variable_assignment(line: &str) -> (r: bool)
    ensures
        r == is_assignment(line@),
{
    let s = chars_of(line);
    has_operator_before_colon(&s, ':') || has_operator_before_colon(&s, '?')
        || has_operator_before_colon(&s, '+') || has_bare_equals(&s)
}

/// Whether `line` is a target-scoped variable assignment.
pub fn is_target_specific_variable(line: &str) -> (r: bool)
    ensures
        r == is_scoped_assignment(line@),
{
    let s = chars_of(line);
    match find_char(&s, ':') {
        Some(p) => {
            proof {
                lemma_first_index_bounds(s@, ':');
            }
            let after = subvec(&s, p + 1, s.len());
            let after = trim_start_chars(&after);
            begins_with_binding(&after)
        },
        None => false,
    }
}

/// The name that the first of the matches captured.
fn first_capture(ms: &Vec<Vec<Option<String>>>) -> (r: Option<String>)
    ensures
        text_of(r) == first_name(matches_view(ms@)),
{
    if ms.len() > 0 && ms[0].len() > 1 {
        assert(matches_view(ms@)[0] == groups_view(ms@[0]@));
        copy_text(&ms[0][1])
    } else {
        if ms.len() > 0 {
            assert(matches_view(ms@)[0] == groups_view(ms@[0]@));
        }
        None
    }
}

/// What a line is, given the line without surrounding white space and the
/// matches of the declaration pattern in it.
pub fn classify_line(line: &str, name_matches: &Vec<Vec<Option<String>>>) -> (r: LineKind)
    ensures
        r@ == classification(line@, matches_view(name_matches@)),
{
    let chars = chars_of(line);
    if chars.len() == 0 {
        LineKind::Blank
    } else if chars[0] == '#' {
        LineKind::Comment
    } else if is_variable_assignment(line) {
        LineKind::Assignment
    } else if is_target_specific_variable(line) {
        LineKind::ScopedAssignment
    } else {
        match first_capture(name_matches) {
            Some(name) => LineKind::Declaration(name),
            None => LineKind::Other,
        }
    }
}

/// What each of `lines` is, with the declaration pattern compiled as `re`.
pub(crate) fn classify_with(lines: &Vec<String>, re: &regex::Regex) -> (r: Vec<LineKind>)
    requires
        pattern_of(*re) == TARGET_PATTERN@,
    ensures
        kinds_view(r@) == kinds_of(texts(lines@)),
{
    let mut kinds: Vec<LineKind> = Vec::new();
    let mut i: usize = 0;
    while i < lines.len()
        invariant
            i <= lines.len(),
            pattern_of(*re) == TARGET_PATTERN@,
            kinds_view(kinds@) == kinds_of(texts(lines@)).take(i as int),
        decreases lines.len() - i,
    {
        let ghost before = kinds_view(kinds@);
        let line = trimmed(lines[i].as_str());
        let matches = captures_iter(re, line.as_str());
        let kind = classify_line(line.as_str(), &matches);
        assert(kind@ == line_kind(texts(lines@)[i as int]));
        kinds.push(kind);
        assert(kinds_view(kinds@) == before.push(kind@));
        i += 1;
    }
    assert(kinds_of(texts(lines@)).take(lines@.len() as int) == kinds_of(texts(lines@)));
    kinds
}

/// What each of `lines` is. It fails where the regular expression engine
/// refuses the declaration pattern.
pub fn classify_lines(lines: &Vec<String>) -> (r: Result<Vec<LineKind>, ParseError>)
    ensures
        match r {
            Ok(kinds) => regex_accepts(TARGET_PATTERN@) && kinds_view(kinds@) == kinds_of(
                texts(lines@),
            ),
            Err(e) => e == ParseError::InvalidPattern && !regex_accepts(TARGET_PATTERN@),
        },
{
    match compile(TARGET_PATTERN) {
        Ok(re) => Ok(classify_with(lines, &re)),
        Err(_) => Err(ParseError::InvalidPattern),
    }
}

/// A line without `=` is no assignment of either kind: whether it declares
/// a target is left to the declaration pattern.
pub proof fn lemma_no_equals_no_assignment(s: Seq<char>)
    requires
        !s.contains('='),
    ensures
        !is_assignment(s),
        !is_scoped_assignment(s),
{
    lemma_first_pair_bounds(s, ':', '=');
    lemma_first_pair_bounds(s, '?', '=');
    lemma_first_pair_bounds(s, '+', '=');
    lemma_first_index_bounds(s, '=');
    if first_pair(s, ':', '=') is Some {
        assert(s[first_pair(s, ':', '=').unwrap() + 1] == '=');
    }
    if first_pair(s, '?', '=') is Some {
        assert(s[first_pair(s, '?', '=').unwrap() + 1] == '=');
    }
    if first_pair(s, '+', '=') is Some {
        assert(s[first_pair(s, '+', '=').unwrap() + 1] == '=');
    }
    lemma_first_index_bounds(s, ':');
    if first_index(s, ':') is Some {
        let c = first_index(s, ':').unwrap();
        let a = s.skip(c + 1);
        lemma_run_len_bounds(a, space_chars());
        let after = trim_start(a);
        lemma_run_len_bounds(after, ident_chars());
        let k = run_len(after, ident_chars());
        let b = after.skip(k as int);
        lemma_run_len_bounds(b, space_chars());
        let rest = trim_start(b);
        let at = c + 1 + leading_spaces(a) + k + leading_spaces(b);
        if starts_with_operator(rest) {
            if rest[0] == '=' {
                assert(rest[0] == s[at]);
            } else {
                assert(rest[1] == s[at + 1]);
            }
        }
    }
}

/// A line whose first `=` belongs to an operator with no colon before it
/// is a plain assignment: the operator is `:=`, `?=` or `+=`, or it is a
/// bare `=` that no second `=` follows directly.
pub proof fn lemma_operator_makes_assignment(s: Seq<char>, p: int)
    requires
        first_index(s, '=') == Some(p),
        p > 0,
        !s.take(p - 1).contains(':'),
        s[p - 1] == ':' || s[p - 1] == '?' || s[p - 1] == '+' || !(p + 1 < s.len() && s[p + 1]
            == '='),
    ensures
        is_assignment(s),
{
    lemma_first_index_bounds(s, '=');
    let a = s[p - 1];
    if a == ':' || a == '?' || a == '+' {
        lemma_first_pair_is(s, a, '=', p - 1);
    } else {
        if s.take(p).contains(':') {
            let i = choose|i: int| 0 <= i < s.take(p).len() && s.take(p)[i] == ':';
            if i < p - 1 {
                assert(s.take(p - 1)[i] == ':');
            }
        }
    }
}

/// A line whose first colon stands before the operator of its first `=` is
/// no plain assignment.
pub proof fn lemma_colon_first_is_no_assignment(s: Seq<char>, c: int, p: int)
    requires
        first_index(s, ':') == Some(c),
        first_index(s, '=') == Some(p),
        c + 1 < p,
    ensures
        !is_assignment(s),
{
    lemma_first_index_bounds(s, '=');
    lemma_first_index_bounds(s, ':');
    lemma_first_pair_bounds(s, ':', '=');
    lemma_first_pair_bounds(s, '?', '=');
    lemma_first_pair_bounds(s, '+', '=');
    assert forall|q: int| c < q <= s.len() implies s.take(q).contains(':') by {
        assert(s.take(q)[c] == ':');
    }
    assert(s.take(p).contains(':'));
}

/// A line is a target-scoped assignment where its first colon is followed
/// by optional white space, a variable name, optional white space and an
/// assignment operator.
pub proof fn lemma_binding_after_colon(s: Seq<char>, c: int, a: int, b: int, e: int)
    requires
        first_index(s, ':') == Some(c),
        c < a < b <= e <= s.len(),
        forall|i: int| c < i < a ==> is_space(#[trigger] s[i]),
        forall|i: int| a <= i < b ==> is_ident_char(#[trigger] s[i]),
        forall|i: int| b <= i < e ==> is_space(#[trigger] s[i]),
        starts_with_operator(s.skip(e)),
    ensures
        is_scoped_assignment(s),
{
    lemma_first_index_bounds(s, ':');
    let x = s.skip(c + 1);
    assert(s.skip(e)[0] == s[e]);
    assert forall|i: int| 0 <= i < a - c - 1 implies is_space(#[trigger] x[i]) by {
        assert(x[i] == s[c + 1 + i]);
    }
    assert(x[a - c - 1] == s[a]);
    lemma_run_len_is(x, space_chars(), (a - c - 1) as nat);
    let after = trim_start(x);
    assert(after == s.skip(a));
    assert forall|i: int| 0 <= i < b - a implies is_ident_char(#[trigger] after[i]) by {
        assert(after[i] == s[a + i]);
    }
    if b < s.len() {
        assert(after[b - a] == s[b]);
        if b < e {
            assert(is_space(s[b]));
        }
    }
    lemma_run_len_is(after, ident_chars(), (b - a) as nat);
    let y = after.skip(b - a);
    assert(y == s.skip(b));
    assert forall|i: int| 0 <= i < e - b implies is_space(#[trigger] y[i]) by {
        assert(y[i] == s[b + i]);
    }
    assert(y[e - b] == s[e]);
    lemma_run_len_is(y, space_chars(), (e - b) as nat);
    assert(trim_start(y) == s.skip(e));
}

} // verus!
