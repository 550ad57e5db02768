//! What the comments around a declaration say about it: its description,
//! and the text in which variable hints are looked for.

use vstd::prelude::*;
use vstd::string::StringExecFns;
use crate::target::text_of;
use crate::text::{
    chars_of, find_pair, first_pair, join, join_strings, string_of, strip_leading,
    strip_leading_chars, subvec, texts, trim, trim_chars,
};

verus! {

/// What follows the first `##` on `line`, where it has that marker.
pub open spec fn inline_text(line: Seq<char>) -> Option<Seq<char>> {
    match first_pair(line, '#', '#') {
        Some(p) => Some(line.skip(p + 2)),
        None => None,
    }
}

/// A comment line: its first character that is not white space is `#`.
pub open spec fn is_comment(line: Seq<char>) -> bool {
    trim(line).len() > 0 && trim(line)[0] == '#'
}

/// A blank line: it holds white space only.
pub open spec fn is_blank(line: Seq<char>) -> bool {
    trim(line).len() == 0
}

/// What a comment line says: the line without surrounding white space, its
/// leading `#` characters and the white space after them.
pub open spec fn comment_text(line: Seq<char>) -> Seq<char> {
    trim(strip_leading(trim(line), '#'))
}

/// Line `i` belongs to a comment block that reaches down to the line below
/// it: it is a comment, or a blank line directly under a comment.
pub open spec fn in_block(lines: Seq<Seq<char>>, i: int) -> bool {
    ||| is_comment(lines[i])
    ||| is_blank(lines[i]) && i > 0 && is_comment(lines[i - 1])
}

/// The comments of the block directly above line `i` that say anything, in
/// the order in which they stand in the file.
pub open spec fn comments_above(lines: Seq<Seq<char>>, i: int) -> Seq<Seq<char>>
    decreases i,
{
    if i <= 0 || i > lines.len() || !in_block(lines, i - 1) {
        Seq::empty()
    } else if is_comment(lines[i - 1]) && comment_text(lines[i - 1]).len() > 0 {
        comments_above(lines, i - 1).push(comment_text(lines[i - 1]))
    } else {
        comments_above(lines, i - 1)
    }
}

/// The description of the declaration on line `i`: the text after an inline
/// `##` marker where that text is not blank, else the comments above the
/// line joined by single spaces, else nothing.
pub open spec fn description_at(lines: Seq<Seq<char>>, i: int) -> Option<Seq<char>> {
    let above = comments_above(lines, i);
    match inline_text(lines[i]) {
        Some(t) if trim(t).len() > 0 => Some(trim(t)),
        _ => if above.len() > 0 {
            Some(join(above, seq![' ']))
        } else {
            None
        },
    }
}

/// The comments of the block directly above line `i`, nearest first, each
/// followed by a space.
pub open spec fn doc_above(lines: Seq<Seq<char>>, i: int) -> Seq<char>
    decreases i,
{
    if i <= 0 || i > lines.len() || !in_block(lines, i - 1) {
        Seq::empty()
    } else if is_comment(lines[i - 1]) {
        comment_text(lines[i - 1]) + seq![' '] + doc_above(lines, i - 1)
    } else {
        doc_above(lines, i - 1)
    }
}

/// All comment text that documents the declaration on line `i`: what
/// follows an inline `##` marker, then the comments above the line.
pub open spec fn doc_text(lines: Seq<Seq<char>>, i: int) -> Seq<char> {
    let inline = match inline_text(lines[i]) {
        Some(t) => t + seq![' '],
        None => Seq::empty(),
    };
    inline + doc_above(lines, i)
}

/// An inline marker with text behind it decides the description, whatever
/// stands above the line.
pub proof fn lemma_inline_marker_wins(lines: Seq<Seq<char>>, i: int, text: Seq<char>)
    requires
        inline_text(lines[i]) == Some(text),
        trim(text).len() > 0,
    ensures
        description_at(lines, i) == Some(trim(text)),
{
}

/// What one line above a declaration is: a comment, blank, or neither; and
/// for a comment, what it says.
struct Above {
    comment: bool,
    blank: bool,
    text: Vec<char>,
}

fn look_at(line: &str) -> (r: Above)
    ensures
        r.comment == is_comment(line@),
        r.blank == is_blank(line@),
        r.comment ==> r.text@ == comment_text(line@),
{
    let chars = chars_of(line);
    let t = trim_chars(&chars);
    if t.len() == 0 {
        Above { comment: false, blank: true, text: t }
    } else if t[0] == '#' {
        let body = strip_leading_chars(&t, '#');
        Above { comment: true, blank: false, text: trim_chars(&body) }
    } else {
        Above { comment: false, blank: false, text: t }
    }
}

/// Whether the comment block above a declaration reaches up to line `i`.
fn block_holds(lines: &Vec<String>, i: usize, here: &Above) -> (r: bool)
    requires
        i < lines.len(),
        here.comment == is_comment(lines@[i as int]@),
        here.blank == is_blank(lines@[i as int]@),
    ensures
        r == in_block(texts(lines@), i as int),
{
    if here.comment {
        true
    } else if here.blank && i > 0 {
        look_at(lines[i - 1].as_str()).comment
    } else {
        false
    }
}

/// The description of the declaration on line `target_line`.
pub fn extract_description(lines: &Vec<String>, target_line: usize) -> (r: Option<String>)
    requires
        target_line < lines.len(),
    ensures
        text_of(r) == description_at(texts(lines@), target_line as int),
{
    let ghost all = texts(lines@);
    let target = chars_of(lines[target_line].as_str());
    match find_pair(&target, '#', '#') {
        Some(p) => {
            let rest = subvec(&target, p + 2, target.len());
            let text = trim_chars(&rest);
            if text.len() > 0 {
                return Some(string_of(&text));
            }
        },
        None => {},
    }
    let mut comments: Vec<String> = Vec::new();
    let mut i: usize = target_line;
    let mut open = true;
    assert(comments_above(all, i as int) + texts(comments@) == comments_above(all, i as int));
    while open && i > 0
        invariant
            i <= target_line < lines.len(),
            all == texts(lines@),
            comments_above(all, target_line as int) == comments_above(all, i as int) + texts(
                comments@,
            ),
            !open ==> comments_above(all, i as int).len() == 0,
        decreases i + (if open { 1int } else { 0int }),
    {
        let here = look_at(lines[i - 1].as_str());
        if block_holds(lines, i - 1, &here) {
            let ghost before = texts(comments@);
            if here.comment && here.text.len() > 0 {
                comments.insert(0, string_of(&here.text));
                assert(texts(comments@) == seq![here.text@] + before);
                assert(comments_above(all, i as int) == comments_above(all, i - 1).push(
                    here.text@,
                ));
                assert(comments_above(all, i - 1).push(here.text@) + before == comments_above(
                    all,
                    i - 1,
                ) + (seq![here.text@] + before));
            }
            i -= 1;
        } else {
            open = false;
        }
    }
    assert(comments_above(all, target_line as int) == texts(comments@));
    if comments.len() == 0 {
        None
    } else {
        proof {
            reveal_strlit(" ");
            assert(" "@ =~= seq![' ']);
        }
        Some(join_strings(&comments, " "))
    }
}

/// All comment text that documents the declaration on line `target_line`.
pub fn documentation(lines: &Vec<String>, target_line: usize) -> (r: String)
    requires
        target_line < lines.len(),
    ensures
        r@ == doc_text(texts(lines@), target_line as int),
{
    let ghost all = texts(lines@);
    let target = chars_of(lines[target_line].as_str());
    let mut text = String::new();
    match find_pair(&target, '#', '#') {
        Some(p) => {
            let rest = subvec(&target, p + 2, target.len());
            text.append(string_of(&rest).as_str());
            text.push(' ');
        },
        None => {},
    }
    let mut i: usize = target_line;
    let mut open = true;
    while open && i > 0
        invariant
            i <= target_line < lines.len(),
            all == texts(lines@),
            doc_text(all, target_line as int) == text@ + doc_above(all, i as int),
            !open ==> doc_above(all, i as int).len() == 0,
        decreases i + (if open { 1int } else { 0int }),
    {
        let here = look_at(lines[i - 1].as_str());
        if block_holds(lines, i - 1, &here) {
            let ghost before = text@;
            if here.comment {
                text.append(string_of(&here.text).as_str());
                text.push(' ');
                assert(before + (here.text@ + seq![' '] + doc_above(all, i - 1)) == text@
                    + doc_above(all, i - 1));
            }
            i -= 1;
        } else {
            open = false;
        }
    }
    assert(text@ + doc_above(all, i as int) == text@);
    text
}

} // verus!
