//! The scan for declarations: which of the lines that declare a target
//! are listed. A declaration is listed where its name is admitted by the
//! options and no earlier line has listed that name.

use vstd::prelude::*;
use crate::classify::{kinds_view, LineKind, LineKindView};
use crate::makefile::ParseOptions;
use crate::text::{chars_of, find_char, lemma_first_index_bounds, same_text};

verus! {

/// A target of this name is listed under `options`.
pub open spec fn admitted(name: Seq<char>, options: ParseOptions) -> bool {
    &&& options.include_patterns || !name.contains('%')
    &&& options.include_private || !(name.len() > 0 && name[0] == '_')
}

/// `found` holds a declaration of `name`.
pub open spec fn declared(found: Seq<(int, Seq<char>)>, name: Seq<char>) -> bool {
    exists|k: int| 0 <= k < found.len() && (#[trigger] found[k]).1 == name
}

/// The declarations that are listed among the first `n` of the lines whose
/// kinds are `kinds`: for each, the index of its line and the name.
pub open spec fn listed(kinds: Seq<LineKindView>, options: ParseOptions, n: int) -> Seq<
    (int, Seq<char>),
>
    decreases n,
{
    if n <= 0 {
        Seq::empty()
    } else {
        let found = listed(kinds, options, n - 1);
        match kinds[n - 1] {
            LineKindView::Declaration(name) => if admitted(name, options) && !declared(
                found,
                name,
            ) {
                found.push((n - 1, name))
            } else {
                found
            },
            _ => found,
        }
    }
}

/// The views of a sequence of declarations, element by element.
pub open spec fn decls_view(found: Seq<(usize, String)>) -> Seq<(int, Seq<char>)> {
    Seq::new(found.len(), |i: int| (found[i].0 as int, found[i].1@))
}

/// Whether a target of this name is listed under `options`.
fn is_admitted(name: &str, options: &ParseOptions) -> (r: bool)
    ensures
        r == admitted(name@, *options),
{
    let chars = chars_of(name);
    proof {
        lemma_first_index_bounds(chars@, '%');
    }
    if !options.include_patterns && find_char(&chars, '%').is_some() {
        return false;
    }
    options.include_private || !(chars.len() > 0 && chars[0] == '_')
}

/// Whether `found` holds a declaration of `name`.
fn is_declared(found: &Vec<(usize, String)>, name: &str) -> (r: bool)
    ensures
        r == declared(decls_view(found@), name@),
{
    let mut k: usize = 0;
    while k < found.len()
        invariant
            k <= found.len(),
            forall|q: int| 0 <= q < k ==> (#[trigger] decls_view(found@)[q]).1 != name@,
        decreases found.len() - k,
    {
        assert(decls_view(found@)[k as int].1 == found@[k as int].1@);
        if same_text(found[k].1.as_str(), name) {
            return true;
        }
        k += 1;
    }
    false
}

/// The declarations that are listed among the lines whose kinds are
/// `kinds`: for each, the index of its line and the name, in the order of
/// the lines.
pub fn select_declarations(kinds: &Vec<LineKind>, options: &ParseOptions) -> (r: Vec<
    (usize, String),
>)
    ensures
        decls_view(r@) == listed(kinds_view(kinds@), *options, kinds@.len() as int),
{
    let ghost all = kinds_view(kinds@);
    let mut found: Vec<(usize, String)> = Vec::new();
    let mut i: usize = 0;
    assert(decls_view(found@) == listed(all, *options, 0));
    while i < kinds.len()
        invariant
            i <= kinds.len(),
            all == kinds_view(kinds@),
            decls_view(found@) == listed(all, *options, i as int),
        decreases kinds.len() - i,
    {
        let ghost before = decls_view(found@);
        assert(all[i as int] == kinds@[i as int]@);
        match &kinds[i] {
            LineKind::Declaration(name) => {
                if is_admitted(name.as_str(), options) && !is_declared(&found, name.as_str()) {
                    found.push((i, name.clone()));
                    assert(decls_view(found@) == before.push((i as int, name@)));
                }
            },
            _ => {},
        }
        i += 1;
    }
    found
}

/// What the scan of the first `n` lines lists: declarations in the order
/// of their lines, no name twice, each an admitted declaration that is the
/// first of its name, and none of the admitted names left out.
pub proof fn lemma_listed(kinds: Seq<LineKindView>, options: ParseOptions, n: int)
    requires
        0 <= n <= kinds.len(),
    ensures
        forall|k: int, l: int|
            0 <= k < l < listed(kinds, options, n).len() ==> (#[trigger] listed(
                kinds,
                options,
                n,
            )[k]).0 < (#[trigger] listed(kinds, options, n)[l]).0,
        forall|k: int, l: int|
            0 <= k < l < listed(kinds, options, n).len() ==> (#[trigger] listed(
                kinds,
                options,
                n,
            )[k]).1 != (#[trigger] listed(kinds, options, n)[l]).1,
        forall|k: int|
            0 <= k < listed(kinds, options, n).len() ==> {
                let d = #[trigger] listed(kinds, options, n)[k];
                &&& 0 <= d.0 < n
                &&& kinds[d.0] == LineKindView::Declaration(d.1)
                &&& admitted(d.1, options)
                &&& forall|j: int|
                    0 <= j < d.0 ==> #[trigger] kinds[j] != LineKindView::Declaration(
                        d.1,
                    )
            },
        forall|i: int, name: Seq<char>|
            0 <= i < n && #[trigger] kinds[i] == LineKindView::Declaration(name)
                && admitted(name, options) ==> #[trigger] declared(
                listed(kinds, options, n),
                name,
            ),
    decreases n,
{
    if n > 0 {
        lemma_listed(kinds, options, n - 1);
        let prev = listed(kinds, options, n - 1);
        let found = listed(kinds, options, n);
        assert forall|k: int| 0 <= k < prev.len() implies #[trigger] found[k] == prev[k] by {}
        assert forall|i: int, name: Seq<char>|
            0 <= i < n && #[trigger] kinds[i] == LineKindView::Declaration(name)
                && admitted(name, options) implies #[trigger] declared(found, name) by {
            if i < n - 1 {
                assert(declared(prev, name));
                let k = choose|k: int| 0 <= k < prev.len() && (#[trigger] prev[k]).1 == name;
                assert(found[k].1 == name);
            } else if declared(prev, name) {
                let k = choose|k: int| 0 <= k < prev.len() && (#[trigger] prev[k]).1 == name;
                assert(found[k].1 == name);
            } else {
                assert(found[found.len() - 1].1 == name);
            }
        }
        assert forall|k: int| 0 <= k < found.len() implies {
            let d = #[trigger] found[k];
            &&& 0 <= d.0 < n
            &&& kinds[d.0] == LineKindView::Declaration(d.1)
            &&& admitted(d.1, options)
            &&& forall|j: int|
                0 <= j < d.0 ==> #[trigger] kinds[j] != LineKindView::Declaration(d.1)
        } by {
            if k < prev.len() {
                assert(found[k] == prev[k]);
            } else {
                let d = found[k];
                assert forall|j: int| 0 <= j < d.0 implies #[trigger] kinds[j]
                    != LineKindView::Declaration(d.1) by {
                    if kinds[j] == LineKindView::Declaration(d.1) {
                        assert(declared(prev, d.1));
                    }
                }
            }
        }
        assert forall|k: int, l: int| 0 <= k < l < found.len() implies (#[trigger] found[k]).0 < (
        #[trigger] found[l]).0 && found[k].1 != found[l].1 by {
            assert(found[k] == prev[k]);
            if l < prev.len() {
                assert(found[l] == prev[l]);
            }
        }
    }
}

} // verus!
