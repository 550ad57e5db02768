//! How targets are shown: the name column of a listing, a numbered snippet
//! of the Makefile around a target, and the lines to preview for it.

use vstd::prelude::*;
use vstd::string::StringExecFns;
use crate::describe::{is_blank, is_comment};
use crate::makefile::content_lines;
use crate::vars::continues_recipe;
use crate::target::{targets_view, Target, TargetView};
use crate::text::{
    chars_of, find_char, join, join_strings, lemma_first_index_bounds, lines_of,
    texts, trim_chars,
};

verus! {

/// The decimal digit for `d`, which is below 10.
pub open spec fn digit(d: int) -> char {
    (48 + d) as char
}

/// `n` in decimal digits.
pub open spec fn decimal(n: nat) -> Seq<char>
    decreases n,
{
    if n < 10 {
        seq![digit(n as int)]
    } else {
        decimal(n / 10).push(digit((n % 10) as int))
    }
}

/// `n` spaces; none where `n` is not positive.
pub open spec fn spaces(n: int) -> Seq<char> {
    Seq::new(
        if n > 0 {
            n as nat
        } else {
            0
        },
        |i: int| ' ',
    )
}

/// `s` with spaces before it, up to `width` characters in all.
pub open spec fn pad_left(s: Seq<char>, width: int) -> Seq<char> {
    spaces(width - s.len()) + s
}

/// `s` with spaces behind it, up to `width` characters in all.
pub open spec fn pad_right(s: Seq<char>, width: int) -> Seq<char> {
    s + spaces(width - s.len())
}

/// The length of `s` in bytes, as a machine word.
pub open spec fn byte_len(s: Seq<char>) -> usize {
    vstd::utf8::encode_utf8(s).len() as usize
}

/// The greatest length in bytes among the names of `ts`.
pub open spec fn widest_name(ts: Seq<TargetView>) -> nat
    decreases ts.len(),
{
    if ts.len() == 0 {
        0
    } else {
        let rest = widest_name(ts.drop_last());
        let here = byte_len(ts.last().name) as nat;
        if here > rest {
            here
        } else {
            rest
        }
    }
}

/// The width of the name column of a listing of `ts`: that of the widest
/// name, and 20 where there is no target.
pub open spec fn column_width(ts: Seq<TargetView>) -> nat {
    if ts.len() == 0 {
        20
    } else {
        widest_name(ts)
    }
}

/// One row of a snippet: `>` where the line is the marked one and a space
/// where it is not, the number of the line at a width of four, a bar, and
/// the line.
pub open spec fn snippet_row(number: nat, marked: bool, line: Seq<char>) -> Seq<char> {
    seq![if marked {
        '>'
    } else {
        ' '
    }, ' '] + pad_left(decimal(number), 4) + seq![' ', '|', ' '] + line
}

/// The rows for the lines from `from` up to, not including, `to`.
pub open spec fn snippet_rows(lines: Seq<Seq<char>>, marked: nat, from: int, to: int) -> Seq<
    Seq<char>,
>
    decreases to - from,
{
    if from >= to {
        Seq::empty()
    } else {
        snippet_rows(lines, marked, from, to - 1).push(
            snippet_row(to as nat, to == marked, lines[to - 1]),
        )
    }
}

/// Where the snippet around line `line` begins, with `context` lines of
/// context: the index of its first line.
pub open spec fn snippet_start(line: nat, context: nat) -> int {
    if line > context + 1 {
        line - context - 1
    } else {
        0
    }
}

/// Where the snippet around line `line` ends: the index behind its last
/// line.
pub open spec fn snippet_end(count: nat, line: nat, context: nat) -> int {
    if line + context < count {
        (line + context) as int
    } else {
        count as int
    }
}

/// The snippet of `lines` around line `line`, which is counted from 1.
pub open spec fn snippet(lines: Seq<Seq<char>>, line: nat, context: nat) -> Seq<char> {
    join(
        snippet_rows(
            lines,
            line,
            snippet_start(line, context),
            snippet_end(lines.len(), line, context),
        ),
        seq!['\n'],
    )
}

/// A line at which the preview of a recipe stops: it is not indented, and
/// it is a comment or holds a colon.
pub open spec fn ends_preview(line: Seq<char>) -> bool {
    !continues_recipe(line) && (is_comment(line) || line.contains(':'))
}

/// The index of the first line from `from` on at which the preview stops,
/// or the number of lines where there is none.
pub open spec fn preview_stop(lines: Seq<Seq<char>>, from: int) -> int
    decreases lines.len() - from,
{
    if from < 0 || from >= lines.len() || ends_preview(lines[from]) {
        from
    } else {
        preview_stop(lines, from + 1)
    }
}

/// `to` moved back over blank lines, but not behind `from`.
pub open spec fn without_blank_tail(lines: Seq<Seq<char>>, from: int, to: int) -> int
    decreases to - from,
{
    if to > from && 0 < to <= lines.len() && is_blank(lines[to - 1]) {
        without_blank_tail(lines, from, to - 1)
    } else {
        to
    }
}

/// The lines to preview for the target declared on line `line`, counted
/// from 1: from the declaration up to the next line at which the preview
/// stops, without the blank lines at the end.
pub open spec fn preview_lines(lines: Seq<Seq<char>>, line: nat) -> (int, int) {
    let first: int = if line > 0 {
        line - 1
    } else {
        0
    };
    if first >= lines.len() {
        (lines.len() as int, lines.len() as int)
    } else {
        (first, without_blank_tail(lines, first + 1, preview_stop(lines, first + 1)))
    }
}

/// The decimal digit for `d`.
fn digit_char(d: usize) -> (r: char)
    requires
        d < 10,
    ensures
        r == digit(d as int),
{
    if d == 0 {
        '0'
    } else if d == 1 {
        '1'
    } else if d == 2 {
        '2'
    } else if d == 3 {
        '3'
    } else if d == 4 {
        '4'
    } else if d == 5 {
        '5'
    } else if d == 6 {
        '6'
    } else if d == 7 {
        '7'
    } else if d == 8 {
        '8'
    } else {
        '9'
    }
}

/// `n` in decimal digits.
pub fn decimal_string(n: usize) -> (r: String)
    ensures
        r@ == decimal(n as nat),
    decreases n,
{
    if n < 10 {
        let mut r = String::new();
        r.push(digit_char(n));
        assert(r@ =~= seq![digit(n as int)]);
        r
    } else {
        let mut r = decimal_string(n / 10);
        r.push(digit_char(n % 10));
        r
    }
}

/// Appends spaces to `s` until it has `width` characters.
fn fill(s: &mut String, have: usize, width: usize)
    ensures
        final(s)@ == old(s)@ + spaces(width - have),
{
    let mut i: usize = have;
    assert(s@ =~= old(s)@ + spaces(0));
    while i < width
        invariant
            have <= i,
            i == have || i <= width,
            s@ == old(s)@ + spaces(i - have),
        decreases width - i,
    {
        s.push(' ');
        assert(s@ =~= old(s)@ + spaces(i + 1 - have));
        i += 1;
    }
    assert(spaces(i - have) =~= spaces(width - have));
}

/// `name` with spaces behind it, up to `width` characters in all.
pub fn pad_name(name: &str, width: usize) -> (r: String)
    ensures
        r@ == pad_right(name@, width as int),
{
    let have = name.unicode_len();
    let mut r = name.to_owned();
    fill(&mut r, have, width);
    r
}

/// The width of the name column of a listing of `targets`.
pub fn name_column_width(targets: &Vec<Target>) -> (r: usize)
    ensures
        r == column_width(targets_view(targets@)),
{
    if targets.len() == 0 {
        return 20;
    }
    let ghost all = targets_view(targets@);
    let mut width: usize = 0;
    let mut i: usize = 0;
    assert(all.take(0).len() == 0);
    while i < targets.len()
        invariant
            i <= targets.len(),
            all == targets_view(targets@),
            width == widest_name(all.take(i as int)),
        decreases targets.len() - i,
    {
        assert(all.take(i + 1).drop_last() == all.take(i as int));
        assert(all.take(i + 1).last().name == targets@[i as int].name@);
        let here = targets[i].name.as_str().len();
        if here > width {
            width = here;
        }
        i += 1;
    }
    assert(all.take(targets@.len() as int) == all);
    width
}

/// The names of `targets`, each filled up to the width of the name column.
pub fn name_column(targets: &Vec<Target>) -> (r: Vec<String>)
    ensures
        r@.len() == targets@.len(),
        forall|i: int|
            0 <= i < r@.len() ==> (#[trigger] r@[i])@ == pad_right(
                targets@[i]@.name,
                column_width(targets_view(targets@)) as int,
            ),
{
    let width = name_column_width(targets);
    let mut r: Vec<String> = Vec::new();
    let mut i: usize = 0;
    while i < targets.len()
        invariant
            i <= targets.len(),
            r@.len() == i,
            width == column_width(targets_view(targets@)),
            forall|q: int|
                0 <= q < i ==> (#[trigger] r@[q])@ == pad_right(targets@[q]@.name, width as int),
        decreases targets.len() - i,
    {
        r.push(pad_name(targets[i].name.as_str(), width));
        i += 1;
    }
    r
}

/// One row of a snippet.
fn row(number: usize, marked: bool, line: &str) -> (r: String)
    ensures
        r@ == snippet_row(number as nat, marked, line@),
{
    let mut r = String::new();
    r.push(if marked {
        '>'
    } else {
        ' '
    });
    r.push(' ');
    let ghost head = r@;
    let digits = decimal_string(number);
    let have = digits.as_str().unicode_len();
    fill(&mut r, have, 4);
    r.append(digits.as_str());
    assert(r@ == head + pad_left(decimal(number as nat), 4));
    r.push(' ');
    r.push('|');
    r.push(' ');
    r.append(line);
    assert(r@ =~= snippet_row(number as nat, marked, line@));
    r
}

/// A numbered snippet of the Makefile `content` around the declaration of
/// `target`, with `context_lines` lines before and after it.
pub fn get_target_snippet(content: &str, target: &Target, context_lines: usize) -> (r: String)
    ensures
        r@ == snippet(lines_of(content@), target@.line, context_lines as nat),
{
    let lines = content_lines(content);
    let ghost all = texts(lines@);
    let line = target.line;
    let start: usize = if context_lines < line && line - context_lines > 1 {
        line - context_lines - 1
    } else {
        0
    };
    let end: usize = if context_lines < lines.len() && line < lines.len() - context_lines {
        line + context_lines
    } else {
        lines.len()
    };
    let mut rows: Vec<String> = Vec::new();
    let mut i: usize = start;
    assert(texts(rows@) == snippet_rows(all, line as nat, start as int, i as int));
    while i < end
        invariant
            start <= i,
            i == start || i <= end,
            end <= lines.len(),
            all == texts(lines@),
            texts(rows@) == snippet_rows(all, line as nat, start as int, i as int),
        decreases end - i,
    {
        let ghost before = texts(rows@);
        let r = row(i + 1, i + 1 == line, lines[i].as_str());
        assert(r@ == snippet_row((i + 1) as nat, i + 1 == line, all[i as int]));
        rows.push(r);
        assert(texts(rows@) == before.push(r@));
        i += 1;
    }
    proof {
        reveal_strlit("\n");
        assert("\n"@ =~= seq!['\n']);
        assert(all == lines_of(content@));
        assert(start as int == snippet_start(line as nat, context_lines as nat));
        assert(end as int == snippet_end(all.len(), line as nat, context_lines as nat));
        if end < start {
            assert(snippet_rows(all, line as nat, start as int, end as int) == Seq::<
                Seq<char>,
            >::empty());
        }
    }
    join_strings(&rows, "\n")
}

/// Whether the preview of a recipe stops at `line`.
fn line_ends_preview(line: &str) -> (r: bool)
    ensures
        r == ends_preview(line@),
{
    let chars = chars_of(line);
    if chars.len() == 0 || chars[0] == '\t' || chars[0] == ' ' {
        return false;
    }
    let t = trim_chars(&chars);
    if t.len() > 0 && t[0] == '#' {
        return true;
    }
    proof {
        lemma_first_index_bounds(chars@, ':');
    }
    find_char(&chars, ':').is_some()
}

/// Whether `line` holds white space only.
fn line_is_blank(line: &str) -> (r: bool)
    ensures
        r == is_blank(line@),
{
    let chars = chars_of(line);
    trim_chars(&chars).len() == 0
}

/// The lines to preview for the target declared on line `line`, counted
/// from 1: the index of the first of them and the index behind the last.
pub fn preview_range(lines: &Vec<String>, line: usize) -> (r: (usize, usize))
    ensures
        (r.0 as int, r.1 as int) == preview_lines(texts(lines@), line as nat),
        r.0 <= r.1 <= lines@.len(),
{
    let ghost all = texts(lines@);
    let first: usize = if line > 0 {
        line - 1
    } else {
        0
    };
    if first >= lines.len() {
        return (lines.len(), lines.len());
    }
    let mut end: usize = first + 1;
    while end < lines.len() && !line_ends_preview(lines[end].as_str())
        invariant
            first < end <= lines.len(),
            all == texts(lines@),
            preview_stop(all, first + 1) == preview_stop(all, end as int),
        decreases lines.len() - end,
    {
        end += 1;
    }
    let ghost stop = end;
    while end > first + 1 && line_is_blank(lines[end - 1].as_str())
        invariant
            first < end <= lines.len(),
            all == texts(lines@),
            without_blank_tail(all, first + 1, stop as int) == without_blank_tail(
                all,
                first + 1,
                end as int,
            ),
        decreases end,
    {
        end -= 1;
    }
    (first, end)
}

} // verus!
