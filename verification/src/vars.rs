//! The variables a target asks for: those that its comments document with
//! a hint, merged with those that its recipe refers to.

use vstd::prelude::*;
use crate::describe::{doc_text, documentation};
use crate::makefile::ParseError;
use crate::order::{
    lemma_lex_total, lemma_lex_transitive, lemma_sorted_agree, lex_lt, precedes,
};
use crate::pattern::{
    captures_iter, compile, group, groups_view, matches_view, pattern_of, regex_accepts,
    regex_captures,
};
use crate::target::{copy_text, text_of, vars_view, RequiredVar, RequiredVarView};
use crate::text::{chars_of, same_chars, same_text, texts};

verus! {

/// The pattern of a documented variable: an upper-case name, `=`, and a
/// value that runs up to white space, a comma or a closing parenthesis.
pub const HINT_PATTERN: &'static str = r"\b([A-Z][A-Z0-9_]*)=([^\s,\)]+)";

/// The pattern of a variable reference in a recipe: `$(NAME)` or `${NAME}`.
pub const RECIPE_PATTERN: &'static str = r"\$[\(\{]([A-Z][A-Z0-9_]*)[\)\}]";

/// Some match in `ms` has `name` as its first group.
pub open spec fn names(ms: Seq<Seq<Option<Seq<char>>>>, name: Seq<char>) -> bool
    decreases ms.len(),
{
    ms.len() > 0 && (group(ms.last(), 1) == Some(name) || names(ms.drop_last(), name))
}

/// The second group of the last match in `ms` that has `name` as its first
/// group; nothing where there is no such match.
pub open spec fn last_hint(ms: Seq<Seq<Option<Seq<char>>>>, name: Seq<char>) -> Option<Seq<char>>
    decreases ms.len(),
{
    if ms.len() == 0 {
        None
    } else if group(ms.last(), 1) == Some(name) {
        group(ms.last(), 2)
    } else {
        last_hint(ms.drop_last(), name)
    }
}

/// The variables that Make defines itself; a recipe that refers to one of
/// them asks its caller for nothing.
pub open spec fn is_builtin(name: Seq<char>) -> bool {
    ||| name == "CC"@
    ||| name == "CXX"@
    ||| name == "CFLAGS"@
    ||| name == "CXXFLAGS"@
    ||| name == "LDFLAGS"@
    ||| name == "LDLIBS"@
    ||| name == "AR"@
    ||| name == "AS"@
    ||| name == "CPP"@
    ||| name == "FC"@
    ||| name == "M2C"@
    ||| name == "PC"@
    ||| name == "CO"@
    ||| name == "GET"@
    ||| name == "LEX"@
    ||| name == "YACC"@
    ||| name == "LINT"@
    ||| name == "MAKEFLAGS"@
    ||| name == "MAKECMDGOALS"@
    ||| name == "CURDIR"@
    ||| name == "SHELL"@
    ||| name == "MAKE"@
    ||| name == "MAKELEVEL"@
    ||| name == "@"@
    ||| name == "<"@
    ||| name == "^"@
    ||| name == "?"@
    ||| name == "*"@
    ||| name == "%"@
    ||| name == "+"@
    ||| name == "|"@
}

/// `name` is asked for: a comment documents it, or the recipe refers to it
/// and Make does not define it itself.
pub open spec fn wanted(
    hints: Seq<Seq<Option<Seq<char>>>>,
    refs: Seq<Seq<Option<Seq<char>>>>,
    name: Seq<char>,
) -> bool {
    names(hints, name) || (names(refs, name) && !is_builtin(name))
}

/// The names in `vars` ascend strictly.
pub open spec fn sorted_by_name(vars: Seq<RequiredVarView>) -> bool {
    forall|i: int, j: int|
        0 <= i < j < vars.len() ==> lex_lt((#[trigger] vars[i]).name, (#[trigger] vars[j]).name)
}

/// `vars` holds a variable called `name`.
pub open spec fn lists(vars: Seq<RequiredVarView>, name: Seq<char>) -> bool {
    exists|i: int| 0 <= i < vars.len() && (#[trigger] vars[i]).name == name
}

/// `vars` is the list of required variables that the matches `hints`, found
/// in a target's comments, and `refs`, found in its recipe, give: sorted by
/// name, one entry for every name that is asked for, each with the hint
/// that the comments document last, and without a hint where they document
/// none.
pub open spec fn is_required_vars(
    vars: Seq<RequiredVarView>,
    hints: Seq<Seq<Option<Seq<char>>>>,
    refs: Seq<Seq<Option<Seq<char>>>>,
) -> bool {
    &&& sorted_by_name(vars)
    &&& forall|i: int|
        0 <= i < vars.len() ==> wanted(hints, refs, (#[trigger] vars[i]).name) && vars[i].hint
            == last_hint(hints, vars[i].name)
    &&& forall|name: Seq<char>| #[trigger] wanted(hints, refs, name) ==> lists(vars, name)
}

/// A line that may belong to a recipe: it is empty, or begins with a tab
/// or a space.
pub open spec fn continues_recipe(line: Seq<char>) -> bool {
    line.len() == 0 || line[0] == '\t' || line[0] == ' '
}

/// The index of the first line from `from` on that does not continue a
/// recipe, or the number of lines where there is none.
pub open spec fn recipe_end(lines: Seq<Seq<char>>, from: int) -> int
    decreases lines.len() - from,
{
    if from < 0 || from >= lines.len() || !continues_recipe(lines[from]) {
        from
    } else {
        recipe_end(lines, from + 1)
    }
}

/// The matches of the reference pattern in the lines from `from` up to, not
/// including, `to`.
pub open spec fn recipe_refs(lines: Seq<Seq<char>>, from: int, to: int) -> Seq<
    Seq<Option<Seq<char>>>,
>
    decreases to - from,
{
    if from >= to {
        Seq::empty()
    } else {
        recipe_refs(lines, from, to - 1) + regex_captures(RECIPE_PATTERN@, lines[to - 1])
    }
}

/// `vars` is the list of variables that the target declared on line `i`
/// asks for: the hints come from the comments that document it, the
/// references from the recipe lines that follow it.
pub open spec fn is_required_vars_at(
    vars: Seq<RequiredVarView>,
    lines: Seq<Seq<char>>,
    i: int,
) -> bool {
    is_required_vars(
        vars,
        regex_captures(HINT_PATTERN@, doc_text(lines, i)),
        recipe_refs(lines, i + 1, recipe_end(lines, i + 1)),
    )
}

/// Whether Make defines the variable `name` itself.
pub fn is_builtin_name(name: &str) -> (r: bool)
    ensures
        r == is_builtin(name@),
{
    same_text(name, "CC") || same_text(name, "CXX") || same_text(name, "CFLAGS") || same_text(
        name,
        "CXXFLAGS",
    ) || same_text(name, "LDFLAGS") || same_text(name, "LDLIBS") || same_text(name, "AR")
        || same_text(name, "AS") || same_text(name, "CPP") || same_text(name, "FC") || same_text(
        name,
        "M2C",
    ) || same_text(name, "PC") || same_text(name, "CO") || same_text(name, "GET") || same_text(
        name,
        "LEX",
    ) || same_text(name, "YACC") || same_text(name, "LINT") || same_text(name, "MAKEFLAGS")
        || same_text(name, "MAKECMDGOALS") || same_text(name, "CURDIR") || same_text(
        name,
        "SHELL",
    ) || same_text(name, "MAKE") || same_text(name, "MAKELEVEL") || same_text(name, "@")
        || same_text(name, "<") || same_text(name, "^") || same_text(name, "?") || same_text(
        name,
        "*",
    ) || same_text(name, "%") || same_text(name, "+") || same_text(name, "|")
}

/// Puts a variable called `name` into the sorted list `vars`. Where the
/// list holds none of that name, it gets one with `hint`; where it holds
/// one, that entry's hint becomes `hint` if `replace` is set, and stays as
/// it is otherwise. Every other entry stays.
pub fn place(vars: &mut Vec<RequiredVar>, name: &str, hint: &Option<String>, replace: bool)
    requires
        sorted_by_name(vars_view(old(vars)@)),
    ensures
        sorted_by_name(vars_view(final(vars)@)),
        lists(vars_view(final(vars)@), name@),
        forall|i: int|
            0 <= i < final(vars)@.len() ==> {
                let v = #[trigger] vars_view(final(vars)@)[i];
                if v.name == name@ {
                    if lists(vars_view(old(vars)@), name@) && !replace {
                        vars_view(old(vars)@).contains(v)
                    } else {
                        v.hint == text_of(*hint)
                    }
                } else {
                    vars_view(old(vars)@).contains(v)
                }
            },
        forall|j: int|
            0 <= j < old(vars)@.len() && (#[trigger] vars_view(old(vars)@)[j]).name != name@
                ==> vars_view(final(vars)@).contains(vars_view(old(vars)@)[j]),
{
    let ghost before = vars_view(vars@);
    let key = chars_of(name);
    let mut idx: usize = 0;
    let mut found = false;
    while idx < vars.len()
        invariant_except_break
            !found,
        invariant
            idx <= vars.len(),
            key@ == name@,
            before == vars_view(vars@),
            forall|i: int| 0 <= i < idx ==> lex_lt((#[trigger] before[i]).name, name@),
        ensures
            idx <= vars.len(),
            key@ == name@,
            before == vars_view(vars@),
            forall|i: int| 0 <= i < idx ==> lex_lt((#[trigger] before[i]).name, name@),
            found ==> idx < vars.len() && before[idx as int].name == name@,
            !found && idx < vars.len() ==> lex_lt(name@, before[idx as int].name),
        decreases vars.len() - idx,
    {
        let here = chars_of(vars[idx].name.as_str());
        assert(here@ == before[idx as int].name);
        if same_chars(&here, &key) {
            found = true;
            break;
        }
        if !precedes(&here, &key) {
            proof {
                lemma_lex_total(here@, key@);
            }
            break;
        }
        idx += 1;
    }
    if found {
        if replace {
            let entry = RequiredVar { name: vars[idx].name.clone(), hint: copy_text(hint) };
            vars.set(idx, entry);
            let ghost after = vars_view(vars@);
            assert(after == before.update(idx as int, after[idx as int]));
            assert forall|j: int|
                0 <= j < before.len() && (#[trigger] before[j]).name != name@ implies after.contains(
                before[j],
            ) by {
                assert(after[j] == before[j]);
            }
            assert forall|i: int| 0 <= i < after.len() && (#[trigger] after[i]).name
                != name@ implies before.contains(after[i]) by {
                assert(after[i] == before[i]);
            }
            assert forall|i: int| 0 <= i < after.len() && (#[trigger] after[i]).name
                == name@ implies after[i].hint == text_of(*hint) by {
                if i != idx {
                    assert(after[i] == before[i]);
                    lemma_lex_total(name@, name@);
                    if i < idx {
                        assert(lex_lt(before[i].name, before[idx as int].name));
                    } else {
                        assert(lex_lt(before[idx as int].name, before[i].name));
                    }
                }
            }
            assert(sorted_by_name(after)) by {
                assert forall|i: int, j: int| 0 <= i < j < after.len() implies lex_lt(
                    (#[trigger] after[i]).name,
                    (#[trigger] after[j]).name,
                ) by {
                    assert(after[i].name == before[i].name);
                    assert(after[j].name == before[j].name);
                }
            }
            assert(after[idx as int].name == name@);
        } else {
            assert(before[idx as int].name == name@);
            assert forall|i: int| 0 <= i < before.len() implies before.contains(
                #[trigger] before[i],
            ) by {}
        }
    } else {
        let entry = RequiredVar { name: name.to_owned(), hint: copy_text(hint) };
        let ghost item = entry@;
        vars.insert(idx, entry);
        let ghost after = vars_view(vars@);
        assert(after == before.insert(idx as int, item));
        assert(after[idx as int] == item);
        assert forall|j: int| 0 <= j < before.len() implies after.contains(
            #[trigger] before[j],
        ) by {
            if j < idx {
                assert(after[j] == before[j]);
            } else {
                assert(after[j + 1] == before[j]);
            }
        }
        assert forall|j: int| idx <= j < before.len() implies lex_lt(
            name@,
            (#[trigger] before[j]).name,
        ) by {
            if j > idx {
                assert(lex_lt(before[idx as int].name, before[j].name));
                lemma_lex_transitive(name@, before[idx as int].name, before[j].name);
            }
        }
        assert(!lists(before, name@)) by {
            if lists(before, name@) {
                let k = choose|k: int| 0 <= k < before.len() && (#[trigger] before[k]).name
                    == name@;
                lemma_lex_total(name@, name@);
            }
        }
        assert forall|i: int| 0 <= i < after.len() && (#[trigger] after[i]).name
            != name@ implies before.contains(after[i]) by {
            if i < idx {
                assert(after[i] == before[i]);
            } else {
                assert(after[i] == before[i - 1]);
            }
        }
        assert forall|i: int| 0 <= i < after.len() && (#[trigger] after[i]).name
            == name@ implies after[i].hint == text_of(*hint) by {
            lemma_lex_total(name@, name@);
            if i < idx {
                assert(after[i] == before[i]);
            } else if i > idx {
                assert(after[i] == before[i - 1]);
            }
        }
        assert(sorted_by_name(after)) by {
            assert forall|i: int, j: int| 0 <= i < j < after.len() implies lex_lt(
                (#[trigger] after[i]).name,
                (#[trigger] after[j]).name,
            ) by {
                let bi = if i < idx {
                    i
                } else {
                    i - 1
                };
                let bj = if j < idx {
                    j
                } else {
                    j - 1
                };
                if i != idx {
                    assert(after[i] == before[bi]);
                }
                if j != idx {
                    assert(after[j] == before[bj]);
                }
                if i != idx && j != idx {
                    assert(lex_lt(before[bi].name, before[bj].name));
                }
            }
        }
    }
}

/// A name that no match has as its first group has no hint.
pub proof fn lemma_unnamed_has_no_hint(ms: Seq<Seq<Option<Seq<char>>>>, name: Seq<char>)
    requires
        !names(ms, name),
    ensures
        last_hint(ms, name) is None,
    decreases ms.len(),
{
    if ms.len() > 0 {
        lemma_unnamed_has_no_hint(ms.drop_last(), name);
    }
}

/// What one more match adds to `names` and `last_hint`.
pub proof fn lemma_names_step(ms: Seq<Seq<Option<Seq<char>>>>, k: int, name: Seq<char>)
    requires
        0 <= k < ms.len(),
    ensures
        names(ms.take(k + 1), name) == (group(ms[k], 1) == Some(name) || names(ms.take(k), name)),
        last_hint(ms.take(k + 1), name) == if group(ms[k], 1) == Some(name) {
            group(ms[k], 2)
        } else {
            last_hint(ms.take(k), name)
        },
{
    assert(ms.take(k + 1).drop_last() == ms.take(k));
    assert(ms.take(k + 1).last() == ms[k]);
}

/// The list of required variables that the matches `hints`, found in a
/// target's comments, and `refs`, found in its recipe, give.
pub fn merge_required_vars(hints: &Vec<Vec<Option<String>>>, refs: &Vec<Vec<Option<String>>>) -> (r:
    Vec<RequiredVar>)
    ensures
        is_required_vars(vars_view(r@), matches_view(hints@), matches_view(refs@)),
{
    let ghost hs = matches_view(hints@);
    let ghost rs = matches_view(refs@);
    let ghost none = Seq::<Seq<Option<Seq<char>>>>::empty();
    let mut vars: Vec<RequiredVar> = Vec::new();
    let mut k: usize = 0;
    while k < hints.len()
        invariant
            k <= hints.len(),
            hs == matches_view(hints@),
            none.len() == 0,
            is_required_vars(vars_view(vars@), hs.take(k as int), none),
        decreases hints.len() - k,
    {
        let ghost before = vars_view(vars@);
        let m = &hints[k];
        assert(hs[k as int] == groups_view(m@));
        let mut placed = false;
        if m.len() > 1 {
            match &m[1] {
                Some(name) => {
                    let hint = if m.len() > 2 {
                        copy_text(&m[2])
                    } else {
                        None
                    };
                    assert(group(hs[k as int], 1) == Some(name@));
                    assert(group(hs[k as int], 2) == text_of(hint));
                    place(&mut vars, name.as_str(), &hint, true);
                    placed = true;
                },
                None => {},
            }
        }
        proof {
            let after = vars_view(vars@);
            let g1 = group(hs[k as int], 1);
            assert(placed <==> g1 is Some);
            assert forall|i: int| 0 <= i < after.len() implies wanted(
                hs.take(k + 1),
                none,
                (#[trigger] after[i]).name,
            ) && after[i].hint == last_hint(hs.take(k + 1), after[i].name) by {
                lemma_names_step(hs, k as int, after[i].name);
                if !(placed && g1 == Some(after[i].name)) {
                    assert(before.contains(after[i]));
                    let j = choose|j: int| 0 <= j < before.len() && before[j] == after[i];
                    assert(wanted(hs.take(k as int), none, before[j].name));
                }
            }
            assert forall|name: Seq<char>| #[trigger]
                wanted(hs.take(k + 1), none, name) implies lists(after, name) by {
                lemma_names_step(hs, k as int, name);
                if g1 != Some(name) {
                    assert(wanted(hs.take(k as int), none, name));
                    let j = choose|j: int| 0 <= j < before.len() && (#[trigger] before[j]).name
                        == name;
                    if placed {
                        assert(after.contains(before[j]));
                        let i = choose|i: int| 0 <= i < after.len() && after[i] == before[j];
                        assert(after[i].name == name);
                    }
                }
            }
        }
        k += 1;
    }
    assert(hs.take(hints.len() as int) == hs);
    assert(rs.take(0) == none);
    let mut k: usize = 0;
    while k < refs.len()
        invariant
            k <= refs.len(),
            hs == matches_view(hints@),
            rs == matches_view(refs@),
            is_required_vars(vars_view(vars@), hs, rs.take(k as int)),
        decreases refs.len() - k,
    {
        let ghost before = vars_view(vars@);
        let m = &refs[k];
        assert(rs[k as int] == groups_view(m@));
        let mut placed = false;
        if m.len() > 1 {
            match &m[1] {
                Some(name) => {
                    assert(group(rs[k as int], 1) == Some(name@));
                    if !is_builtin_name(name.as_str()) {
                        place(&mut vars, name.as_str(), &None, false);
                        placed = true;
                    }
                },
                None => {},
            }
        }
        proof {
            let after = vars_view(vars@);
            let g1 = group(rs[k as int], 1);
            assert(placed <==> (g1 is Some && !is_builtin(g1.unwrap())));
            assert forall|i: int| 0 <= i < after.len() implies wanted(
                hs,
                rs.take(k + 1),
                (#[trigger] after[i]).name,
            ) && after[i].hint == last_hint(hs, after[i].name) by {
                lemma_names_step(rs, k as int, after[i].name);
                if placed && g1 == Some(after[i].name) {
                    if lists(before, after[i].name) {
                        assert(before.contains(after[i]));
                        let j = choose|j: int| 0 <= j < before.len() && before[j] == after[i];
                        assert(wanted(hs, rs.take(k as int), before[j].name));
                    } else {
                        if names(hs, after[i].name) {
                            assert(wanted(hs, rs.take(k as int), after[i].name));
                        }
                        lemma_unnamed_has_no_hint(hs, after[i].name);
                    }
                } else {
                    assert(before.contains(after[i]));
                    let j = choose|j: int| 0 <= j < before.len() && before[j] == after[i];
                    assert(wanted(hs, rs.take(k as int), before[j].name));
                }
            }
            assert forall|name: Seq<char>| #[trigger]
                wanted(hs, rs.take(k + 1), name) implies lists(after, name) by {
                lemma_names_step(rs, k as int, name);
                if !(placed && g1 == Some(name)) {
                    assert(wanted(hs, rs.take(k as int), name));
                    let j = choose|j: int| 0 <= j < before.len() && (#[trigger] before[j]).name
                        == name;
                    if placed {
                        assert(after.contains(before[j]));
                        let i = choose|i: int| 0 <= i < after.len() && after[i] == before[j];
                        assert(after[i].name == name);
                    }
                }
            }
        }
        k += 1;
    }
    assert(rs.take(refs.len() as int) == rs);
    vars
}

/// Whether `line` may belong to a recipe.
fn line_continues_recipe(line: &str) -> (r: bool)
    ensures
        r == continues_recipe(line@),
{
    let chars = chars_of(line);
    chars.len() == 0 || chars[0] == '\t' || chars[0] == ' '
}

/// The matches of the reference pattern in the recipe that begins on line
/// `from`.
fn recipe_matches(lines: &Vec<String>, from: usize, re: &regex::Regex) -> (r: Vec<
    Vec<Option<String>>,
>)
    requires
        from <= lines.len(),
        pattern_of(*re) == RECIPE_PATTERN@,
    ensures
        matches_view(r@) == recipe_refs(
            texts(lines@),
            from as int,
            recipe_end(texts(lines@), from as int),
        ),
{
    let ghost all = texts(lines@);
    let mut out: Vec<Vec<Option<String>>> = Vec::new();
    let mut j: usize = from;
    assert(matches_view(out@) == recipe_refs(all, from as int, j as int));
    while j < lines.len() && line_continues_recipe(lines[j].as_str())
        invariant
            from <= j <= lines.len(),
            all == texts(lines@),
            pattern_of(*re) == RECIPE_PATTERN@,
            recipe_end(all, from as int) == recipe_end(all, j as int),
            matches_view(out@) == recipe_refs(all, from as int, j as int),
        decreases lines.len() - j,
    {
        let ghost before = matches_view(out@);
        let mut found = captures_iter(re, lines[j].as_str());
        let ghost added = matches_view(found@);
        out.append(&mut found);
        assert(matches_view(out@) == before + added);
        j += 1;
    }
    out
}

/// The variables that the target declared on line `i` asks for.
pub(crate) fn required_vars_at(
    lines: &Vec<String>,
    i: usize,
    hint_re: &regex::Regex,
    ref_re: &regex::Regex,
) -> (r: Vec<RequiredVar>)
    requires
        i < lines.len(),
        pattern_of(*hint_re) == HINT_PATTERN@,
        pattern_of(*ref_re) == RECIPE_PATTERN@,
    ensures
        is_required_vars_at(vars_view(r@), texts(lines@), i as int),
{
    let doc = documentation(lines, i);
    let hints = captures_iter(hint_re, doc.as_str());
    let refs = recipe_matches(lines, i + 1, ref_re);
    merge_required_vars(&hints, &refs)
}

/// The variables that the target declared on line `target_line` asks for.
/// It fails where the regular expression engine refuses a pattern.
pub fn extract_required_vars(lines: &Vec<String>, target_line: usize) -> (r: Result<
    Vec<RequiredVar>,
    ParseError,
>)
    requires
        target_line < lines.len(),
    ensures
        match r {
            Ok(vars) => regex_accepts(HINT_PATTERN@) && regex_accepts(RECIPE_PATTERN@)
                && is_required_vars_at(vars_view(vars@), texts(lines@), target_line as int),
            Err(e) => e == ParseError::InvalidPattern && !(regex_accepts(HINT_PATTERN@)
                && regex_accepts(RECIPE_PATTERN@)),
        },
{
    let hint_re = match compile(HINT_PATTERN) {
        Ok(re) => re,
        Err(_) => {
            return Err(ParseError::InvalidPattern);
        },
    };
    let ref_re = match compile(RECIPE_PATTERN) {
        Ok(re) => re,
        Err(_) => {
            return Err(ParseError::InvalidPattern);
        },
    };
    Ok(required_vars_at(lines, target_line, &hint_re, &ref_re))
}

/// Two lists that are sorted by name and hold the same variables are the
/// same list.
pub proof fn lemma_sorted_lists_agree(a: Seq<RequiredVarView>, b: Seq<RequiredVarView>)
    requires
        sorted_by_name(a),
        sorted_by_name(b),
        forall|i: int| 0 <= i < a.len() ==> b.contains(#[trigger] a[i]),
        forall|j: int| 0 <= j < b.len() ==> a.contains(#[trigger] b[j]),
    ensures
        a == b,
{
    lemma_sorted_agree(a, b, |v: RequiredVarView| v.name);
}

/// The matches decide the list of required variables: there is one list
/// for them and no other.
pub proof fn lemma_required_vars_unique(
    a: Seq<RequiredVarView>,
    b: Seq<RequiredVarView>,
    hints: Seq<Seq<Option<Seq<char>>>>,
    refs: Seq<Seq<Option<Seq<char>>>>,
)
    requires
        is_required_vars(a, hints, refs),
        is_required_vars(b, hints, refs),
    ensures
        a == b,
{
    assert forall|i: int| 0 <= i < a.len() implies b.contains(#[trigger] a[i]) by {
        assert(wanted(hints, refs, a[i].name));
        assert(lists(b, a[i].name));
        let j = choose|j: int| 0 <= j < b.len() && (#[trigger] b[j]).name == a[i].name;
        assert(b[j] == a[i]);
    }
    assert forall|j: int| 0 <= j < b.len() implies a.contains(#[trigger] b[j]) by {
        assert(wanted(hints, refs, b[j].name));
        assert(lists(a, b[j].name));
        let i = choose|i: int| 0 <= i < a.len() && (#[trigger] a[i]).name == b[j].name;
        assert(a[i] == b[j]);
    }
    lemma_sorted_lists_agree(a, b);
}

/// A variable that the comments document keeps its hint, whether or not
/// the recipe refers to it; one that only the recipe refers to has none.
pub proof fn lemma_hints_take_precedence(
    vars: Seq<RequiredVarView>,
    hints: Seq<Seq<Option<Seq<char>>>>,
    refs: Seq<Seq<Option<Seq<char>>>>,
    i: int,
)
    requires
        is_required_vars(vars, hints, refs),
        0 <= i < vars.len(),
    ensures
        vars[i].hint == last_hint(hints, vars[i].name),
        !names(hints, vars[i].name) ==> vars[i].hint is None && names(refs, vars[i].name)
            && !is_builtin(vars[i].name),
{
    if !names(hints, vars[i].name) {
        lemma_unnamed_has_no_hint(hints, vars[i].name);
    }
}

} // verus!
