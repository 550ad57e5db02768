//! From Makefiles to one list of targets: which files are Makefiles, how
//! the cache is consulted for each of them, and how the targets of several
//! files are merged into one list that is sorted by name.

use vstd::prelude::*;
use crate::cache::{entry_for, lookup, Cache, CacheEntryView};
use crate::makefile::{
    is_extraction, lemma_extraction_unique, parse_makefile_content, patterns_accepted, ParseError,
    ParseOptions,
};
use crate::order::{
    lemma_lex_total, lemma_lex_transitive, lemma_sorted_agree, lex_lt, precedes,
};
use crate::target::{copy_targets, targets_view, Target, TargetView};
use crate::text::{chars_of, same_chars, same_text, texts};

verus! {

/// A Makefile as it was read: the path under which it was found, the text
/// of its canonical path, its text, and when it was last modified.
#[derive(Debug, Clone, PartialEq, Eq)]
pub struct SourceFile {
    pub path: String,
    pub key: String,
    pub content: String,
    pub modified_time: u64,
}

/// What a `SourceFile` stands for.
pub ghost struct SourceFileView {
    pub path: Seq<char>,
    pub key: Seq<char>,
    pub content: Seq<char>,
    pub modified_time: u64,
}

impl View for SourceFile {
    type V = SourceFileView;

    open spec fn view(&self) -> SourceFileView {
        SourceFileView {
            path: self.path@,
            key: self.key@,
            content: self.content@,
            modified_time: self.modified_time,
        }
    }
}

/// The views of a sequence of files, element by element.
pub open spec fn files_view(files: Seq<SourceFile>) -> Seq<SourceFileView> {
    Seq::new(files.len(), |i: int| files[i]@)
}

/// The views of several lists of targets, list by list.
pub open spec fn groups_view(groups: Seq<Vec<Target>>) -> Seq<Seq<TargetView>> {
    Seq::new(groups.len(), |i: int| targets_view(groups[i]@))
}

/// A file of this name is a Makefile.
pub open spec fn names_makefile(name: Seq<char>) -> bool {
    name == "Makefile"@ || name == "makefile"@ || name == "GNUmakefile"@
}

/// The targets of `groups`, one list after the other.
pub open spec fn flat(groups: Seq<Seq<TargetView>>) -> Seq<TargetView>
    decreases groups.len(),
{
    if groups.len() == 0 {
        Seq::empty()
    } else {
        flat(groups.drop_last()) + groups.last()
    }
}

/// The first target of `ts` that is called `name`.
pub open spec fn first_named(ts: Seq<TargetView>, name: Seq<char>) -> Option<TargetView>
    decreases ts.len(),
{
    if ts.len() == 0 {
        None
    } else {
        match first_named(ts.drop_last(), name) {
            Some(t) => Some(t),
            None => if ts.last().name == name {
                Some(ts.last())
            } else {
                None
            },
        }
    }
}

/// The names in `ts` ascend strictly.
pub open spec fn sorted_targets(ts: Seq<TargetView>) -> bool {
    forall|i: int, j: int|
        0 <= i < j < ts.len() ==> lex_lt((#[trigger] ts[i]).name, (#[trigger] ts[j]).name)
}

/// `ts` holds a target called `name`.
pub open spec fn lists_target(ts: Seq<TargetView>, name: Seq<char>) -> bool {
    exists|i: int| 0 <= i < ts.len() && (#[trigger] ts[i]).name == name
}

/// `merged` is the list that `all` merges into: sorted by name, with one
/// target for every name in `all`, the first that has the name.
pub open spec fn is_merged(merged: Seq<TargetView>, all: Seq<TargetView>) -> bool {
    &&& sorted_targets(merged)
    &&& forall|i: int|
        0 <= i < merged.len() ==> first_named(all, (#[trigger] merged[i]).name) == Some(merged[i])
    &&& forall|name: Seq<char>|
        (#[trigger] first_named(all, name)) is Some ==> lists_target(merged, name)
}

/// The extraction of a Makefile's text.
pub open spec fn extraction_of(content: Seq<char>, file: Seq<char>, options: ParseOptions) -> Seq<
    TargetView,
> {
    choose|ts: Seq<TargetView>| is_extraction(ts, content, file, options)
}

/// The targets of `file`: those that the cache holds for it, where the
/// cache is used and answers; else its extraction.
pub open spec fn targets_of_file(
    entries: Map<Seq<char>, CacheEntryView>,
    file: SourceFileView,
    options: ParseOptions,
    no_cache: bool,
) -> Seq<TargetView> {
    match lookup(entries, file.key, file.content) {
        Some(ts) if !no_cache => ts,
        _ => extraction_of(file.content, file.path, options),
    }
}

/// The file's targets have to be extracted: the cache is not used, or it
/// has no valid entry for the file.
pub open spec fn is_miss(
    entries: Map<Seq<char>, CacheEntryView>,
    file: SourceFileView,
    no_cache: bool,
) -> bool {
    no_cache || lookup(entries, file.key, file.content) is None
}

/// The cache after `file` was dealt with: where the cache is used and had
/// no valid entry for the file, it has got one with the file's extraction.
pub open spec fn entries_after(
    entries: Map<Seq<char>, CacheEntryView>,
    file: SourceFileView,
    options: ParseOptions,
    no_cache: bool,
) -> Map<Seq<char>, CacheEntryView> {
    if !no_cache && lookup(entries, file.key, file.content) is None {
        entries.insert(
            file.key,
            entry_for(
                file.content,
                file.modified_time,
                extraction_of(file.content, file.path, options),
            ),
        )
    } else {
        entries
    }
}

/// The cache after the first `n` of `files` were dealt with, in their
/// order.
pub open spec fn entries_through(
    entries: Map<Seq<char>, CacheEntryView>,
    files: Seq<SourceFileView>,
    options: ParseOptions,
    no_cache: bool,
    n: int,
) -> Map<Seq<char>, CacheEntryView>
    decreases n,
{
    if n <= 0 {
        entries
    } else {
        entries_after(
            entries_through(entries, files, options, no_cache, n - 1),
            files[n - 1],
            options,
            no_cache,
        )
    }
}

/// The targets of each of `files`, as the cache stood when its turn came.
pub open spec fn groups_of(
    entries: Map<Seq<char>, CacheEntryView>,
    files: Seq<SourceFileView>,
    options: ParseOptions,
    no_cache: bool,
) -> Seq<Seq<TargetView>> {
    Seq::new(
        files.len(),
        |k: int|
            targets_of_file(
                entries_through(entries, files, options, no_cache, k),
                files[k],
                options,
                no_cache,
            ),
    )
}

/// Some of the first `n` of `files` had to be extracted.
pub open spec fn any_miss(
    entries: Map<Seq<char>, CacheEntryView>,
    files: Seq<SourceFileView>,
    options: ParseOptions,
    no_cache: bool,
    n: int,
) -> bool {
    exists|k: int|
        0 <= k < n && #[trigger] is_miss(
            entries_through(entries, files, options, no_cache, k),
            files[k],
            no_cache,
        )
}

/// What `first_named` finds: a target of that name that is in the list,
/// where the list has one.
pub proof fn lemma_first_named(ts: Seq<TargetView>, name: Seq<char>)
    ensures
        match first_named(ts, name) {
            Some(t) => t.name == name && ts.contains(t),
            None => !lists_target(ts, name),
        },
    decreases ts.len(),
{
    if ts.len() > 0 {
        let init = ts.drop_last();
        lemma_first_named(init, name);
        match first_named(init, name) {
            Some(t) => {
                let j = choose|j: int| 0 <= j < init.len() && init[j] == t;
                assert(ts[j] == t);
            },
            None => {
                if ts.last().name == name {
                    assert(ts[ts.len() - 1] == ts.last());
                } else if lists_target(ts, name) {
                    let i = choose|i: int| 0 <= i < ts.len() && (#[trigger] ts[i]).name == name;
                    assert(init[i] == ts[i]);
                }
            },
        }
    }
}

/// Whether a file of this name is a Makefile.
pub fn is_makefile_name(name: &str) -> (r: bool)
    ensures
        r == names_makefile(name@),
{
    same_text(name, "Makefile") || same_text(name, "makefile") || same_text(name, "GNUmakefile")
}

/// The names under which a Makefile is looked for in a directory.
pub fn makefile_names() -> (r: Vec<String>)
    ensures
        texts(r@) == seq!["Makefile"@, "makefile"@, "GNUmakefile"@],
{
    let mut r: Vec<String> = Vec::new();
    r.push("Makefile".to_owned());
    r.push("makefile".to_owned());
    r.push("GNUmakefile".to_owned());
    assert(texts(r@) =~= seq!["Makefile"@, "makefile"@, "GNUmakefile"@]);
    r
}

/// The place of the first target called `name`, if there is one.
pub fn find_target(targets: &Vec<Target>, name: &str) -> (r: Option<usize>)
    ensures
        match r {
            Some(i) => i < targets@.len() && targets@[i as int]@.name == name@ && forall|j: int|
                0 <= j < i ==> (#[trigger] targets@[j])@.name != name@,
            None => forall|j: int| 0 <= j < targets@.len() ==> (#[trigger] targets@[j])@.name != name@,
        },
{
    let mut i: usize = 0;
    while i < targets.len()
        invariant
            i <= targets.len(),
            forall|j: int| 0 <= j < i ==> (#[trigger] targets@[j])@.name != name@,
        decreases targets.len() - i,
    {
        if same_text(targets[i].name.as_str(), name) {
            return Some(i);
        }
        i += 1;
    }
    None
}

/// Puts a copy of `target` into the sorted list `sorted`, unless the list
/// holds a target of that name.
pub fn add_target(sorted: &mut Vec<Target>, target: &Target)
    requires
        sorted_targets(targets_view(old(sorted)@)),
    ensures
        sorted_targets(targets_view(final(sorted)@)),
        lists_target(targets_view(old(sorted)@), target@.name) ==> targets_view(final(sorted)@)
            == targets_view(old(sorted)@),
        !lists_target(targets_view(old(sorted)@), target@.name) ==> exists|at: int|
            0 <= at <= old(sorted)@.len() && targets_view(final(sorted)@) == #[trigger] targets_view(
                old(sorted)@,
            ).insert(at, target@),
{
    let ghost before = targets_view(sorted@);
    let key = chars_of(target.name.as_str());
    let mut idx: usize = 0;
    let mut found = false;
    while idx < sorted.len()
        invariant_except_break
            !found,
        invariant
            idx <= sorted.len(),
            key@ == target@.name,
            before == targets_view(sorted@),
            forall|i: int| 0 <= i < idx ==> lex_lt((#[trigger] before[i]).name, key@),
        ensures
            idx <= sorted.len(),
            before == targets_view(sorted@),
            forall|i: int| 0 <= i < idx ==> lex_lt((#[trigger] before[i]).name, key@),
            found ==> idx < sorted.len() && before[idx as int].name == key@,
            !found && idx < sorted.len() ==> lex_lt(key@, before[idx as int].name),
        decreases sorted.len() - idx,
    {
        let here = chars_of(sorted[idx].name.as_str());
        assert(here@ == before[idx as int].name);
        if same_chars(&here, &key) {
            found = true;
            break;
        }
        if !precedes(&here, &key) {
            proof {
                lemma_lex_total(here@, key@);
            }
            break;
        }
        idx += 1;
    }
    if !found {
        let copy = target.duplicate();
        sorted.insert(idx, copy);
        proof {
            let after = targets_view(sorted@);
            assert(after == before.insert(idx as int, target@));
            assert forall|j: int| idx <= j < before.len() implies lex_lt(
                key@,
                (#[trigger] before[j]).name,
            ) by {
                if j > idx {
                    assert(lex_lt(before[idx as int].name, before[j].name));
                    lemma_lex_transitive(key@, before[idx as int].name, before[j].name);
                }
            }
            assert(!lists_target(before, key@)) by {
                if lists_target(before, key@) {
                    let k = choose|k: int| 0 <= k < before.len() && (#[trigger] before[k]).name
                        == key@;
                    lemma_lex_total(key@, key@);
                }
            }
            assert forall|i: int, j: int| 0 <= i < j < after.len() implies lex_lt(
                (#[trigger] after[i]).name,
                (#[trigger] after[j]).name,
            ) by {
                let bi = if i < idx {
                    i
                } else {
                    i - 1
                };
                let bj = if j < idx {
                    j
                } else {
                    j - 1
                };
                if i != idx {
                    assert(after[i] == before[bi]);
                }
                if j != idx {
                    assert(after[j] == before[bj]);
                }
                if i != idx && j != idx {
                    assert(lex_lt(before[bi].name, before[bj].name));
                }
            }
        }
    } else {
        assert(before[idx as int].name == key@);
    }
}

/// One more target keeps a merged list merged, once it is put in as
/// `add_target` does.
pub proof fn lemma_merge_step(
    merged: Seq<TargetView>,
    next: Seq<TargetView>,
    all: Seq<TargetView>,
    t: TargetView,
)
    requires
        is_merged(merged, all),
        sorted_targets(next),
        lists_target(merged, t.name) ==> next == merged,
        !lists_target(merged, t.name) ==> exists|at: int|
            0 <= at <= merged.len() && next == #[trigger] merged.insert(at, t),
    ensures
        is_merged(next, all.push(t)),
{
    let more = all.push(t);
    assert(more.drop_last() == all);
    assert(more.last() == t);
    lemma_first_named(all, t.name);
    if lists_target(merged, t.name) {
        let i = choose|i: int| 0 <= i < merged.len() && (#[trigger] merged[i]).name == t.name;
        assert(first_named(all, merged[i].name) == Some(merged[i]));
        assert forall|name: Seq<char>| (#[trigger] first_named(more, name)) is Some implies lists_target(
            next,
            name,
        ) by {
            if first_named(all, name) is None {
                assert(name == t.name);
            }
        }
    } else {
        let at = choose|at: int| 0 <= at <= merged.len() && next == #[trigger] merged.insert(at, t);
        assert(first_named(all, t.name) is None) by {
            if first_named(all, t.name) is Some {
                assert(lists_target(merged, t.name));
            }
        }
        assert forall|i: int| 0 <= i < next.len() implies first_named(
            more,
            (#[trigger] next[i]).name,
        ) == Some(next[i]) by {
            if i < at {
                assert(next[i] == merged[i]);
            } else if i > at {
                assert(next[i] == merged[i - 1]);
            } else {
                assert(next[i] == t);
            }
        }
        assert forall|name: Seq<char>| (#[trigger] first_named(more, name)) is Some implies lists_target(
            next,
            name,
        ) by {
            if first_named(all, name) is Some {
                assert(lists_target(merged, name));
                let i = choose|i: int| 0 <= i < merged.len() && (#[trigger] merged[i]).name
                    == name;
                if i < at {
                    assert(next[i] == merged[i]);
                } else {
                    assert(next[i + 1] == merged[i]);
                }
            } else {
                assert(next[at] == t);
            }
        }
    }
}

/// The targets of `groups` in one list: sorted by name, with one target
/// for every name, the first that has the name.
pub fn merge_targets(groups: &Vec<Vec<Target>>) -> (r: Vec<Target>)
    ensures
        is_merged(targets_view(r@), flat(groups_view(groups@))),
{
    let ghost all = groups_view(groups@);
    let mut merged: Vec<Target> = Vec::new();
    let mut g: usize = 0;
    assert(flat(all.take(0)) == Seq::<TargetView>::empty());
    assert(is_merged(targets_view(merged@), flat(all.take(0))));
    while g < groups.len()
        invariant
            g <= groups.len(),
            all == groups_view(groups@),
            is_merged(targets_view(merged@), flat(all.take(g as int))),
        decreases groups.len() - g,
    {
        let group = &groups[g];
        let ghost done = flat(all.take(g as int));
        let ghost these = targets_view(group@);
        assert(all[g as int] == these);
        let mut k: usize = 0;
        assert(done + these.take(0) == done);
        while k < group.len()
            invariant
                k <= group.len(),
                these == targets_view(group@),
                is_merged(targets_view(merged@), done + these.take(k as int)),
            decreases group.len() - k,
        {
            let ghost before = targets_view(merged@);
            add_target(&mut merged, &group[k]);
            proof {
                assert(these[k as int] == group@[k as int]@);
                lemma_merge_step(
                    before,
                    targets_view(merged@),
                    done + these.take(k as int),
                    these[k as int],
                );
                assert((done + these.take(k as int)).push(these[k as int]) == done + these.take(
                    k + 1,
                ));
            }
            k += 1;
        }
        proof {
            assert(these.take(group@.len() as int) == these);
            assert(all.take(g + 1).drop_last() == all.take(g as int));
            assert(all.take(g + 1).last() == these);
        }
        g += 1;
    }
    assert(all.take(groups@.len() as int) == all);
    merged
}

/// What `parse_makefile_content` lists is the extraction of its input.
pub proof fn lemma_extraction_of(
    ts: Seq<TargetView>,
    content: Seq<char>,
    file: Seq<char>,
    options: ParseOptions,
)
    requires
        is_extraction(ts, content, file, options),
    ensures
        ts == extraction_of(content, file, options),
{
    lemma_extraction_unique(ts, extraction_of(content, file, options), content, file, options);
}

/// The targets of all of `files` in one list, sorted by name; of several
/// targets of one name, the first stays. It fails where there is no file,
/// and where the regular expression engine refuses a pattern.
pub fn parse_all_makefiles(files: &Vec<SourceFile>, options: &ParseOptions) -> (r: Result<
    Vec<Target>,
    ParseError,
>)
    ensures
        match r {
            Ok(targets) => files@.len() > 0 && patterns_accepted() && is_merged(
                targets_view(targets@),
                flat(groups_of(Map::empty(), files_view(files@), *options, true)),
            ),
            Err(ParseError::NoMakefile) => files@.len() == 0,
            Err(ParseError::InvalidPattern) => files@.len() > 0 && !patterns_accepted(),
        },
{
    if files.len() == 0 {
        return Err(ParseError::NoMakefile);
    }
    let ghost wanted = groups_of(Map::empty(), files_view(files@), *options, true);
    let mut groups: Vec<Vec<Target>> = Vec::new();
    let mut i: usize = 0;
    while i < files.len()
        invariant
            i <= files.len(),
            files@.len() > 0,
            wanted == groups_of(Map::empty(), files_view(files@), *options, true),
            groups_view(groups@) == wanted.take(i as int),
            i > 0 ==> patterns_accepted(),
        decreases files.len() - i,
    {
        let file = &files[i];
        match parse_makefile_content(file.content.as_str(), file.path.as_str(), options) {
            Ok(targets) => {
                proof {
                    lemma_extraction_of(
                        targets_view(targets@),
                        file.content@,
                        file.path@,
                        *options,
                    );
                    assert(files_view(files@)[i as int] == file@);
                }
                let ghost before = groups_view(groups@);
                let ghost item = targets_view(targets@);
                groups.push(targets);
                assert(groups_view(groups@) == before.push(item));
            },
            Err(_) => {
                return Err(ParseError::InvalidPattern);
            },
        }
        i += 1;
    }
    assert(wanted.take(files@.len() as int) == wanted);
    Ok(merge_targets(&groups))
}

/// The targets of `file`: those that the cache holds for it, where the
/// cache is used and has a valid entry; else its extraction, which is
/// recorded in the cache where the cache is used. With the targets comes
/// whether the cache has changed.
pub fn get_targets_for_file(
    cache: &mut Cache,
    file: &SourceFile,
    options: &ParseOptions,
    no_cache: bool,
) -> (r: Result<(Vec<Target>, bool), ParseError>)
    requires
        old(cache).wf(),
    ensures
        final(cache).wf(),
        final(cache).version == old(cache).version,
        match r {
            Ok((targets, recorded)) => {
                &&& targets_view(targets@) == targets_of_file(
                    old(cache).entries@,
                    file@,
                    *options,
                    no_cache,
                )
                &&& final(cache).entries@ == entries_after(
                    old(cache).entries@,
                    file@,
                    *options,
                    no_cache,
                )
                &&& recorded == (!no_cache && is_miss(old(cache).entries@, file@, no_cache))
                &&& is_miss(old(cache).entries@, file@, no_cache) ==> patterns_accepted()
            },
            Err(e) => {
                &&& e == ParseError::InvalidPattern
                &&& !patterns_accepted()
                &&& is_miss(old(cache).entries@, file@, no_cache)
                &&& final(cache).entries@ == old(cache).entries@
            },
        },
{
    if !no_cache {
        match cache.get(file.key.as_str(), file.content.as_str()) {
            Some(cached) => {
                return Ok((copy_targets(cached), false));
            },
            None => {},
        }
    }
    match parse_makefile_content(file.content.as_str(), file.path.as_str(), options) {
        Ok(targets) => {
            proof {
                lemma_extraction_of(targets_view(targets@), file.content@, file.path@, *options);
            }
            if !no_cache {
                cache.set(
                    file.key.as_str(),
                    file.content.as_str(),
                    file.modified_time,
                    copy_targets(&targets),
                );
            }
            Ok((targets, !no_cache))
        },
        Err(_) => Err(ParseError::InvalidPattern),
    }
}

/// The targets of all of `files` in one list, sorted by name, with the
/// cache consulted for each file in turn; of several targets of one name,
/// the first stays. With the list comes whether the cache has changed. It
/// fails where there is no file, and where a file has to be extracted and
/// the regular expression engine refuses a pattern.
pub fn get_targets(
    cache: &mut Cache,
    files: &Vec<SourceFile>,
    options: &ParseOptions,
    no_cache: bool,
) -> (r: Result<(Vec<Target>, bool), ParseError>)
    requires
        old(cache).wf(),
    ensures
        final(cache).wf(),
        final(cache).version == old(cache).version,
        match r {
            Ok((targets, recorded)) => {
                &&& files@.len() > 0
                &&& is_merged(
                    targets_view(targets@),
                    flat(groups_of(old(cache).entries@, files_view(files@), *options, no_cache)),
                )
                &&& final(cache).entries@ == entries_through(
                    old(cache).entries@,
                    files_view(files@),
                    *options,
                    no_cache,
                    files@.len() as int,
                )
                &&& recorded == (!no_cache && any_miss(
                    old(cache).entries@,
                    files_view(files@),
                    *options,
                    no_cache,
                    files@.len() as int,
                ))
                &&& any_miss(
                    old(cache).entries@,
                    files_view(files@),
                    *options,
                    no_cache,
                    files@.len() as int,
                ) ==> patterns_accepted()
            },
            Err(ParseError::NoMakefile) => files@.len() == 0 && final(cache).entries@ == old(
                cache,
            ).entries@,
            Err(ParseError::InvalidPattern) => !patterns_accepted() && any_miss(
                old(cache).entries@,
                files_view(files@),
                *options,
                no_cache,
                files@.len() as int,
            ),
        },
{
    if files.len() == 0 {
        return Err(ParseError::NoMakefile);
    }
    let ghost start = cache.entries@;
    let ghost all = files_view(files@);
    let ghost wanted = groups_of(start, all, *options, no_cache);
    let mut groups: Vec<Vec<Target>> = Vec::new();
    let mut recorded = false;
    let mut i: usize = 0;
    while i < files.len()
        invariant
            i <= files.len(),
            files@.len() > 0,
            all == files_view(files@),
            wanted == groups_of(start, all, *options, no_cache),
            cache.wf(),
            cache.version == old(cache).version,
            start == old(cache).entries@,
            cache.entries@ == entries_through(start, all, *options, no_cache, i as int),
            groups_view(groups@) == wanted.take(i as int),
            recorded == (!no_cache && any_miss(start, all, *options, no_cache, i as int)),
            any_miss(start, all, *options, no_cache, i as int) ==> patterns_accepted(),
        decreases files.len() - i,
    {
        let file = &files[i];
        assert(all[i as int] == file@);
        let ghost here = cache.entries@;
        match get_targets_for_file(cache, file, options, no_cache) {
            Ok((targets, changed)) => {
                let ghost before = groups_view(groups@);
                let ghost item = targets_view(targets@);
                groups.push(targets);
                assert(groups_view(groups@) == before.push(item));
                proof {
                    let missed = is_miss(
                        entries_through(start, all, *options, no_cache, i as int),
                        all[i as int],
                        no_cache,
                    );
                    if any_miss(start, all, *options, no_cache, i + 1) && !missed {
                        let k = choose|k: int|
                            0 <= k < i + 1 && #[trigger] is_miss(
                                entries_through(start, all, *options, no_cache, k),
                                all[k],
                                no_cache,
                            );
                        assert(k < i);
                    }
                }
                recorded = recorded || changed;
            },
            Err(_) => {
                proof {
                    assert(is_miss(
                        entries_through(start, all, *options, no_cache, i as int),
                        all[i as int],
                        no_cache,
                    ));
                }
                return Err(ParseError::InvalidPattern);
            },
        }
        i += 1;
    }
    assert(wanted.take(files@.len() as int) == wanted);
    Ok((merge_targets(&groups), recorded))
}

/// The targets decide the merged list: there is one list that they merge
/// into and no other.
pub proof fn lemma_merge_unique(a: Seq<TargetView>, b: Seq<TargetView>, all: Seq<TargetView>)
    requires
        is_merged(a, all),
        is_merged(b, all),
    ensures
        a == b,
{
    assert forall|i: int| 0 <= i < a.len() implies b.contains(#[trigger] a[i]) by {
        assert(first_named(all, a[i].name) == Some(a[i]));
        assert(lists_target(b, a[i].name));
        let j = choose|j: int| 0 <= j < b.len() && (#[trigger] b[j]).name == a[i].name;
        assert(first_named(all, b[j].name) == Some(b[j]));
    }
    assert forall|j: int| 0 <= j < b.len() implies a.contains(#[trigger] b[j]) by {
        assert(first_named(all, b[j].name) == Some(b[j]));
        assert(lists_target(a, b[j].name));
        let i = choose|i: int| 0 <= i < a.len() && (#[trigger] a[i]).name == b[j].name;
        assert(first_named(all, a[i].name) == Some(a[i]));
    }
    lemma_sorted_agree(a, b, |t: TargetView| t.name);
}

} // verus!
