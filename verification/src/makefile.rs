//! The target extractor: goes through a Makefile line by line and lists
//! the targets it declares, each with its description and the variables
//! its recipe asks for.

use vstd::prelude::*;
use crate::classify::{
    classify_with, kinds_of, kinds_view, line_kind, LineKindView, TARGET_PATTERN,
};
use crate::describe::{description_at, doc_text, extract_description};
use crate::pattern::{compile, pattern_of, regex_accepts, regex_captures};
use crate::scan::{admitted, declared, decls_view, lemma_listed, listed, select_declarations};
use crate::target::{targets_view, Target, TargetView};
use crate::text::{chars_of, lines_of, rows, split_lines, string_of, texts};
use crate::vars::{
    is_required_vars_at, lemma_required_vars_unique, recipe_end, recipe_refs, required_vars_at,
    sorted_by_name, HINT_PATTERN, RECIPE_PATTERN,
};

verus! {

/// Which targets extraction lists.
#[derive(Debug, Clone, Copy, PartialEq, Eq)]
pub struct ParseOptions {
    /// List private targets, whose names begin with `_`.
    pub include_private: bool,
    /// List pattern rules, whose names hold `%`.
    pub include_patterns: bool,
}

impl Default for ParseOptions {
    fn default() -> (r: ParseOptions)
        ensures
            !r.include_private,
            !r.include_patterns,
    {
        ParseOptions { include_private: false, include_patterns: false }
    }
}

/// Why extraction gave no list.
#[derive(Debug, Clone, Copy, PartialEq, Eq)]
pub enum ParseError {
    /// The regular expression engine refused one of the patterns.
    InvalidPattern,
    /// There was no Makefile to read.
    NoMakefile,
}

/// The regular expression engine accepts the three patterns.
pub open spec fn patterns_accepted() -> bool {
    &&& regex_accepts(TARGET_PATTERN@)
    &&& regex_accepts(HINT_PATTERN@)
    &&& regex_accepts(RECIPE_PATTERN@)
}

/// The declarations that are listed among the first `n` of `lines`: for
/// each, the index of its line and the name.
pub open spec fn declarations(lines: Seq<Seq<char>>, options: ParseOptions, n: int) -> Seq<
    (int, Seq<char>),
> {
    listed(kinds_of(lines), options, n)
}

/// `t` is the target that line `i` of `lines` declares under `name`.
pub open spec fn is_target_at(
    t: TargetView,
    lines: Seq<Seq<char>>,
    file: Seq<char>,
    i: int,
    name: Seq<char>,
) -> bool {
    &&& t.name == name
    &&& t.description == description_at(lines, i)
    &&& t.file == file
    &&& t.line == i + 1
    &&& is_required_vars_at(t.required_vars, lines, i)
}

/// `ts` lists the targets of the first `n` of `lines`, in the order of
/// their lines.
pub open spec fn lists_targets(
    ts: Seq<TargetView>,
    lines: Seq<Seq<char>>,
    file: Seq<char>,
    options: ParseOptions,
    n: int,
) -> bool {
    let found = declarations(lines, options, n);
    &&& ts.len() == found.len()
    &&& forall|k: int|
        0 <= k < ts.len() ==> is_target_at(
            #[trigger] ts[k],
            lines,
            file,
            found[k].0,
            found[k].1,
        )
}

/// `ts` is what extraction gives for the Makefile `content`.
pub open spec fn is_extraction(
    ts: Seq<TargetView>,
    content: Seq<char>,
    file: Seq<char>,
    options: ParseOptions,
) -> bool {
    lists_targets(ts, lines_of(content), file, options, lines_of(content).len() as int)
}

/// The lines of `content`, as strings.
pub fn content_lines(content: &str) -> (r: Vec<String>)
    ensures
        texts(r@) == lines_of(content@),
{
    let chars = chars_of(content);
    let split = split_lines(&chars);
    let mut lines: Vec<String> = Vec::new();
    let mut i: usize = 0;
    while i < split.len()
        invariant
            i <= split.len(),
            texts(lines@) == rows(split@).take(i as int),
        decreases split.len() - i,
    {
        let ghost before = texts(lines@);
        lines.push(string_of(&split[i]));
        assert(texts(lines@) == before.push(split@[i as int]@));
        i += 1;
    }
    assert(rows(split@).take(split.len() as int) == rows(split@));
    lines
}

/// The targets that the Makefile `content`, read from `file`, declares.
///
/// Blank lines, comments and variable assignments declare nothing. Of the
/// declarations, pattern rules and private targets are listed only where
/// `options` asks for them, and a name is listed once, for the first line
/// that declares it. The list is in the order of the lines. It fails only
/// where the regular expression engine refuses a pattern.
pub fn parse_makefile_content(content: &str, file: &str, options: &ParseOptions) -> (r: Result<
    Vec<Target>,
    ParseError,
>)
    ensures
        match r {
            Ok(targets) => patterns_accepted() && is_extraction(
                targets_view(targets@),
                content@,
                file@,
                *options,
            ),
            Err(e) => e == ParseError::InvalidPattern && !patterns_accepted(),
        },
{
    let target_re = match compile(TARGET_PATTERN) {
        Ok(re) => re,
        Err(_) => {
            return Err(ParseError::InvalidPattern);
        },
    };
    let hint_re = match compile(HINT_PATTERN) {
        Ok(re) => re,
        Err(_) => {
            return Err(ParseError::InvalidPattern);
        },
    };
    let ref_re = match compile(RECIPE_PATTERN) {
        Ok(re) => re,
        Err(_) => {
            return Err(ParseError::InvalidPattern);
        },
    };
    let lines = content_lines(content);
    let kinds = classify_with(&lines, &target_re);
    let found = select_declarations(&kinds, options);
    let ghost all = texts(lines@);
    let ghost wanted = declarations(all, *options, all.len() as int);
    proof {
        assert(kinds_view(kinds@).len() == kinds_of(all).len());
        lemma_declarations(all, *options, all.len() as int);
    }
    let mut targets: Vec<Target> = Vec::new();
    let mut k: usize = 0;
    while k < found.len()
        invariant
            k <= found.len(),
            all == texts(lines@),
            wanted == decls_view(found@),
            forall|q: int| 0 <= q < wanted.len() ==> 0 <= (#[trigger] wanted[q]).0 < lines@.len(),
            pattern_of(hint_re) == HINT_PATTERN@,
            pattern_of(ref_re) == RECIPE_PATTERN@,
            targets@.len() == k,
            forall|q: int|
                0 <= q < k ==> is_target_at(
                    #[trigger] targets_view(targets@)[q],
                    all,
                    file@,
                    wanted[q].0,
                    wanted[q].1,
                ),
        decreases found.len() - k,
    {
        let ghost before = targets_view(targets@);
        let i = found[k].0;
        assert(wanted[k as int] == (i as int, found@[k as int].1@));
        let target = Target::with_required_vars(
            found[k].1.clone(),
            extract_description(&lines, i),
            file.to_owned(),
            i + 1,
            required_vars_at(&lines, i, &hint_re, &ref_re),
        );
        let ghost item = target@;
        targets.push(target);
        proof {
            let after = targets_view(targets@);
            assert(after == before.push(item));
            assert forall|q: int| 0 <= q < k + 1 implies is_target_at(
                #[trigger] after[q],
                all,
                file@,
                wanted[q].0,
                wanted[q].1,
            ) by {
                if q < k {
                    assert(after[q] == before[q]);
                }
            }
        }
        k += 1;
    }
    Ok(targets)
}

/// What the scan of the first `n` lines lists: declarations in the order
/// of their lines, no name twice, each an admitted declaration that is the
/// first of its name, and none of the admitted names left out.
pub proof fn lemma_declarations(lines: Seq<Seq<char>>, options: ParseOptions, n: int)
    requires
        0 <= n <= lines.len(),
    ensures
        forall|k: int, l: int|
            0 <= k < l < declarations(lines, options, n).len() ==> (#[trigger] declarations(
                lines,
                options,
                n,
            )[k]).0 < (#[trigger] declarations(lines, options, n)[l]).0,
        forall|k: int, l: int|
            0 <= k < l < declarations(lines, options, n).len() ==> (#[trigger] declarations(
                lines,
                options,
                n,
            )[k]).1 != (#[trigger] declarations(lines, options, n)[l]).1,
        forall|k: int|
            0 <= k < declarations(lines, options, n).len() ==> {
                let d = #[trigger] declarations(lines, options, n)[k];
                &&& 0 <= d.0 < n
                &&& line_kind(lines[d.0]) == LineKindView::Declaration(d.1)
                &&& admitted(d.1, options)
                &&& forall|j: int|
                    0 <= j < d.0 ==> #[trigger] line_kind(lines[j]) != LineKindView::Declaration(
                        d.1,
                    )
            },
        forall|i: int, name: Seq<char>|
            0 <= i < n && #[trigger] line_kind(lines[i]) == LineKindView::Declaration(name)
                && admitted(name, options) ==> #[trigger] declared(
                declarations(lines, options, n),
                name,
            ),
{
    let kinds = kinds_of(lines);
    let found = listed(kinds, options, n);
    lemma_listed(kinds, options, n);
    assert forall|k: int| 0 <= k < found.len() implies {
        let d = #[trigger] found[k];
        &&& 0 <= d.0 < n
        &&& line_kind(lines[d.0]) == LineKindView::Declaration(d.1)
        &&& admitted(d.1, options)
        &&& forall|j: int|
            0 <= j < d.0 ==> #[trigger] line_kind(lines[j]) != LineKindView::Declaration(d.1)
    } by {
        let d = found[k];
        assert(kinds[d.0] == line_kind(lines[d.0]));
        assert forall|j: int| 0 <= j < d.0 implies #[trigger] line_kind(lines[j])
            != LineKindView::Declaration(d.1) by {
            assert(kinds[j] == line_kind(lines[j]));
        }
    }
    assert forall|i: int, name: Seq<char>|
        0 <= i < n && #[trigger] line_kind(lines[i]) == LineKindView::Declaration(name)
            && admitted(name, options) implies #[trigger] declared(found, name) by {
        assert(kinds[i] == line_kind(lines[i]));
    }
}

/// Extraction is a function of the text, the file name and the options:
/// two lists that are extractions of the same input are the same list.
pub proof fn lemma_extraction_unique(
    a: Seq<TargetView>,
    b: Seq<TargetView>,
    content: Seq<char>,
    file: Seq<char>,
    options: ParseOptions,
)
    requires
        is_extraction(a, content, file, options),
        is_extraction(b, content, file, options),
    ensures
        a == b,
{
    let lines = lines_of(content);
    let found = declarations(lines, options, lines.len() as int);
    assert forall|k: int| 0 <= k < a.len() implies a[k] == b[k] by {
        assert(is_target_at(a[k], lines, file, found[k].0, found[k].1));
        assert(is_target_at(b[k], lines, file, found[k].0, found[k].1));
        lemma_required_vars_unique(
            a[k].required_vars,
            b[k].required_vars,
            regex_captures(HINT_PATTERN@, doc_text(lines, found[k].0)),
            recipe_refs(lines, found[k].0 + 1, recipe_end(lines, found[k].0 + 1)),
        );
    }
    assert(a =~= b);
}

/// An extraction lists its targets in the order of their lines and lists
/// no name twice.
pub proof fn lemma_targets_in_order(
    ts: Seq<TargetView>,
    content: Seq<char>,
    file: Seq<char>,
    options: ParseOptions,
)
    requires
        is_extraction(ts, content, file, options),
    ensures
        forall|k: int, l: int|
            0 <= k < l < ts.len() ==> (#[trigger] ts[k]).line < (#[trigger] ts[l]).line,
        forall|k: int, l: int|
            0 <= k < l < ts.len() ==> (#[trigger] ts[k]).name != (#[trigger] ts[l]).name,
{
    let lines = lines_of(content);
    let found = declarations(lines, options, lines.len() as int);
    lemma_declarations(lines, options, lines.len() as int);
    assert forall|k: int, l: int| 0 <= k < l < ts.len() implies (#[trigger] ts[k]).line < (
    #[trigger] ts[l]).line && ts[k].name != ts[l].name by {
        assert(is_target_at(ts[k], lines, file, found[k].0, found[k].1));
        assert(is_target_at(ts[l], lines, file, found[l].0, found[l].1));
        assert(found[k].0 < found[l].0);
        assert(found[k].1 != found[l].1);
    }
}

/// Of several declarations of one name the first is the one listed: a
/// listed target stands on a line that declares its name, no earlier line
/// declares that name, and its description is the one derived at that
/// line.
pub proof fn lemma_first_declaration_wins(
    ts: Seq<TargetView>,
    content: Seq<char>,
    file: Seq<char>,
    options: ParseOptions,
    k: int,
)
    requires
        is_extraction(ts, content, file, options),
        0 <= k < ts.len(),
    ensures
        1 <= ts[k].line <= lines_of(content).len(),
        line_kind(lines_of(content)[ts[k].line - 1]) == LineKindView::Declaration(ts[k].name),
        admitted(ts[k].name, options),
        forall|j: int|
            0 <= j < ts[k].line - 1 ==> #[trigger] line_kind(lines_of(content)[j])
                != LineKindView::Declaration(ts[k].name),
        ts[k].description == description_at(lines_of(content), ts[k].line - 1),
{
    let lines = lines_of(content);
    let found = declarations(lines, options, lines.len() as int);
    lemma_declarations(lines, options, lines.len() as int);
    assert(is_target_at(ts[k], lines, file, found[k].0, found[k].1));
    let d = found[k];
    assert(0 <= d.0 < lines.len());
}

/// Every admitted name that some line declares is listed by an extraction.
pub proof fn lemma_every_name_listed(
    ts: Seq<TargetView>,
    content: Seq<char>,
    file: Seq<char>,
    options: ParseOptions,
    i: int,
    name: Seq<char>,
)
    requires
        is_extraction(ts, content, file, options),
        0 <= i < lines_of(content).len(),
        line_kind(lines_of(content)[i]) == LineKindView::Declaration(name),
        admitted(name, options),
    ensures
        exists|k: int| 0 <= k < ts.len() && (#[trigger] ts[k]).name == name,
{
    let lines = lines_of(content);
    let found = declarations(lines, options, lines.len() as int);
    lemma_declarations(lines, options, lines.len() as int);
    assert(declared(found, name));
    let k = choose|k: int| 0 <= k < found.len() && (#[trigger] found[k]).1 == name;
    assert(is_target_at(ts[k], lines, file, found[k].0, found[k].1));
}

/// The variables of a listed target are sorted by name, so that no name
/// occurs twice among them.
pub proof fn lemma_required_vars_sorted(
    ts: Seq<TargetView>,
    content: Seq<char>,
    file: Seq<char>,
    options: ParseOptions,
    k: int,
)
    requires
        is_extraction(ts, content, file, options),
        0 <= k < ts.len(),
    ensures
        sorted_by_name(ts[k].required_vars),
        forall|i: int, j: int|
            0 <= i < j < ts[k].required_vars.len() ==> (#[trigger] ts[k].required_vars[i]).name != (
            #[trigger] ts[k].required_vars[j]).name,
{
    let lines = lines_of(content);
    let found = declarations(lines, options, lines.len() as int);
    assert(is_target_at(ts[k], lines, file, found[k].0, found[k].1));
    let vars = ts[k].required_vars;
    assert forall|i: int, j: int| 0 <= i < j < vars.len() implies (#[trigger] vars[i]).name != (
    #[trigger] vars[j]).name by {
        crate::order::lemma_lex_irreflexive(vars[i].name);
    }
}

} // verus!
