//! Character-level helpers on which the line grammar is built.
//!
//! Every string is modelled by its sequence of characters. The spec
//! functions here say what trimming, searching, splitting and joining mean
//! on such sequences; the executable functions compute them on `Vec<char>`.

use vstd::prelude::*;
use vstd::string::StringExecFns;

verus! {

/// `String::push` appends the character to the end of the string. Taken
/// on trust; vstd gives this function no specification.
pub assume_specification[ String::push ](s: &mut String, c: char)
    ensures
        final(s)@ == old(s)@.push(c),
;

/// The views of a vector of strings, element by element.
pub open spec fn texts(v: Seq<String>) -> Seq<Seq<char>> {
    Seq::new(v.len(), |i: int| v[i]@)
}

/// The views of a vector of character vectors, element by element.
pub open spec fn rows(v: Seq<Vec<char>>) -> Seq<Seq<char>> {
    Seq::new(v.len(), |i: int| v[i]@)
}

/// White space: the characters with the Unicode property `White_Space`.
pub open spec fn is_space(c: char) -> bool {
    ||| '\u{9}' <= c <= '\u{D}'
    ||| c == ' '
    ||| c == '\u{85}'
    ||| c == '\u{A0}'
    ||| c == '\u{1680}'
    ||| '\u{2000}' <= c <= '\u{200A}'
    ||| c == '\u{2028}'
    ||| c == '\u{2029}'
    ||| c == '\u{202F}'
    ||| c == '\u{205F}'
    ||| c == '\u{3000}'
}

/// The predicate `is_space`, as a value.
pub open spec fn space_chars() -> spec_fn(char) -> bool {
    |c: char| is_space(c)
}

/// The predicate that holds of `c` alone.
pub open spec fn only(c: char) -> spec_fn(char) -> bool {
    |x: char| x == c
}

/// The predicate that holds of every character but `c`.
pub open spec fn other_than(c: char) -> spec_fn(char) -> bool {
    |x: char| x != c
}

/// Length of the longest prefix of `s` whose characters all satisfy `p`.
pub open spec fn run_len(s: Seq<char>, p: spec_fn(char) -> bool) -> nat
    decreases s.len(),
{
    if s.len() > 0 && p(s[0]) {
        1 + run_len(s.drop_first(), p)
    } else {
        0
    }
}

/// Length of the longest suffix of `s` made of white space.
pub open spec fn trailing_spaces(s: Seq<char>) -> nat
    decreases s.len(),
{
    if s.len() > 0 && is_space(s.last()) {
        1 + trailing_spaces(s.drop_last())
    } else {
        0
    }
}

/// Length of the longest prefix of `s` made of white space.
pub open spec fn leading_spaces(s: Seq<char>) -> nat {
    run_len(s, space_chars())
}

/// `s` without its leading white space.
pub open spec fn trim_start(s: Seq<char>) -> Seq<char> {
    s.skip(leading_spaces(s) as int)
}

/// `s` without its trailing white space.
pub open spec fn trim_end(s: Seq<char>) -> Seq<char> {
    s.take(s.len() - trailing_spaces(s))
}

/// `s` without leading and trailing white space.
pub open spec fn trim(s: Seq<char>) -> Seq<char> {
    trim_end(trim_start(s))
}

/// `s` without every leading occurrence of `c`.
pub open spec fn strip_leading(s: Seq<char>, c: char) -> Seq<char> {
    s.skip(run_len(s, only(c)) as int)
}

/// Index of the first occurrence of `c` in `s`.
pub open spec fn first_index(s: Seq<char>, c: char) -> Option<int> {
    let n = run_len(s, other_than(c));
    if n < s.len() {
        Some(n as int)
    } else {
        None
    }
}

/// Index of the first place where `a` is immediately followed by `b`.
pub open spec fn first_pair(s: Seq<char>, a: char, b: char) -> Option<int>
    decreases s.len(),
{
    if s.len() < 2 {
        None
    } else if s[0] == a && s[1] == b {
        Some(0)
    } else {
        match first_pair(s.drop_first(), a, b) {
            Some(i) => Some(i + 1),
            None => None,
        }
    }
}

/// `parts` concatenated, with `sep` between neighbours.
pub open spec fn join(parts: Seq<Seq<char>>, sep: Seq<char>) -> Seq<char>
    decreases parts.len(),
{
    if parts.len() == 0 {
        Seq::empty()
    } else if parts.len() == 1 {
        parts[0]
    } else {
        join(parts.drop_last(), sep) + sep + parts.last()
    }
}

/// `s` cut at every occurrence of `sep`; `n` separators give `n + 1` pieces.
pub open spec fn split_on(s: Seq<char>, sep: char) -> Seq<Seq<char>>
    decreases s.len(),
{
    match first_index(s, sep) {
        None => seq![s],
        Some(i) => seq![s.take(i)] + split_on(s.skip(i + 1), sep),
    }
}

/// `line` without one trailing carriage return, if it has one.
pub open spec fn strip_cr(line: Seq<char>) -> Seq<char> {
    if line.len() > 0 && line.last() == '\r' {
        line.drop_last()
    } else {
        line
    }
}

/// The lines of `s`: it is cut after every line feed, the line feed and a
/// carriage return directly before it are dropped, and a last line needs no
/// line feed. The empty text has no lines.
pub open spec fn lines_of(s: Seq<char>) -> Seq<Seq<char>>
    decreases s.len(),
{
    if s.len() == 0 {
        Seq::empty()
    } else {
        match first_index(s, '\n') {
            None => seq![s],
            Some(i) => seq![strip_cr(s.take(i))] + lines_of(s.skip(i + 1)),
        }
    }
}

/// A prefix of length `n` that satisfies `p` throughout and cannot be
/// extended is the run that `run_len` measures.
pub proof fn lemma_run_len_is(s: Seq<char>, p: spec_fn(char) -> bool, n: nat)
    requires
        n <= s.len(),
        forall|i: int| 0 <= i < n ==> p(#[trigger] s[i]),
        n < s.len() ==> !p(s[n as int]),
    ensures
        run_len(s, p) == n,
    decreases n,
{
    if n > 0 {
        let t = s.drop_first();
        assert forall|i: int| 0 <= i < n - 1 implies p(#[trigger] t[i]) by {
            assert(t[i] == s[i + 1]);
        }
        if n < s.len() {
            assert(t[n - 1] == s[n as int]);
        }
        lemma_run_len_is(t, p, (n - 1) as nat);
    }
}

/// What `run_len` measures: a prefix that satisfies `p` throughout and is
/// followed, if by anything, by a character that does not.
pub proof fn lemma_run_len_bounds(s: Seq<char>, p: spec_fn(char) -> bool)
    ensures
        run_len(s, p) <= s.len(),
        forall|i: int| 0 <= i < run_len(s, p) ==> p(#[trigger] s[i]),
        run_len(s, p) < s.len() ==> !p(s[run_len(s, p) as int]),
    decreases s.len(),
{
    if s.len() > 0 && p(s[0]) {
        let t = s.drop_first();
        lemma_run_len_bounds(t, p);
        assert forall|i: int| 0 <= i < run_len(s, p) implies p(#[trigger] s[i]) by {
            if i > 0 {
                assert(s[i] == t[i - 1]);
            }
        }
        if run_len(s, p) < s.len() {
            assert(t[run_len(t, p) as int] == s[run_len(s, p) as int]);
        }
    }
}

/// A white-space suffix of length `n` that cannot be extended is the one
/// that `trailing_spaces` measures.
pub proof fn lemma_trailing_spaces_is(s: Seq<char>, n: nat)
    requires
        n <= s.len(),
        forall|i: int| s.len() - n <= i < s.len() ==> is_space(#[trigger] s[i]),
        n < s.len() ==> !is_space(s[s.len() - n - 1]),
    ensures
        trailing_spaces(s) == n,
    decreases n,
{
    if n > 0 {
        let t = s.drop_last();
        assert forall|i: int| t.len() - (n - 1) <= i < t.len() implies is_space(
            #[trigger] t[i],
        ) by {
            assert(t[i] == s[i]);
        }
        if n < s.len() {
            assert(t[t.len() - (n - 1) - 1] == s[s.len() - n - 1]);
        }
        lemma_trailing_spaces_is(t, (n - 1) as nat);
    }
}

/// Where `a` is followed by `b` at `p` and nowhere before, `first_pair`
/// finds `p`.
pub proof fn lemma_first_pair_is(s: Seq<char>, a: char, b: char, p: int)
    requires
        0 <= p < s.len() - 1,
        s[p] == a,
        s[p + 1] == b,
        forall|q: int| 0 <= q < p ==> !(#[trigger] s[q] == a && s[q + 1] == b),
    ensures
        first_pair(s, a, b) == Some(p),
    decreases p,
{
    if p > 0 {
        let t = s.drop_first();
        assert(!(s[0] == a && s[1] == b));
        assert forall|q: int| 0 <= q < p - 1 implies !(#[trigger] t[q] == a && t[q + 1] == b) by {
            assert(t[q] == s[q + 1]);
            assert(t[q + 1] == s[q + 2]);
        }
        assert(t[p - 1] == s[p]);
        assert(t[p] == s[p + 1]);
        lemma_first_pair_is(t, a, b, p - 1);
    }
}

/// Where `a` is nowhere followed by `b`, `first_pair` finds nothing.
pub proof fn lemma_first_pair_none(s: Seq<char>, a: char, b: char)
    requires
        forall|q: int| 0 <= q < s.len() - 1 ==> !(#[trigger] s[q] == a && s[q + 1] == b),
    ensures
        first_pair(s, a, b) is None,
    decreases s.len(),
{
    if s.len() >= 2 {
        let t = s.drop_first();
        assert(!(s[0] == a && s[1] == b));
        assert forall|q: int| 0 <= q < t.len() - 1 implies !(#[trigger] t[q] == a && t[q + 1]
            == b) by {
            assert(t[q] == s[q + 1]);
            assert(t[q + 1] == s[q + 2]);
        }
        lemma_first_pair_none(t, a, b);
    }
}

/// What `first_pair` finds: the first place where `a` is followed by `b`.
pub proof fn lemma_first_pair_bounds(s: Seq<char>, a: char, b: char)
    ensures
        match first_pair(s, a, b) {
            Some(p) => 0 <= p < s.len() - 1 && s[p] == a && s[p + 1] == b && forall|q: int|
                0 <= q < p ==> !(#[trigger] s[q] == a && s[q + 1] == b),
            None => forall|q: int|
                0 <= q < s.len() - 1 ==> !(#[trigger] s[q] == a && s[q + 1] == b),
        },
    decreases s.len(),
{
    if s.len() >= 2 && !(s[0] == a && s[1] == b) {
        let t = s.drop_first();
        lemma_first_pair_bounds(t, a, b);
        match first_pair(t, a, b) {
            Some(p) => {
                assert(t[p] == s[p + 1]);
                assert(t[p + 1] == s[p + 2]);
                assert forall|q: int| 0 <= q < p + 1 implies !(#[trigger] s[q] == a && s[q + 1]
                    == b) by {
                    if q > 0 {
                        assert(t[q - 1] == s[q]);
                        assert(t[q] == s[q + 1]);
                    }
                }
            },
            None => {
                assert forall|q: int| 0 <= q < s.len() - 1 implies !(#[trigger] s[q] == a && s[q
                    + 1] == b) by {
                    if q > 0 {
                        assert(t[q - 1] == s[q]);
                        assert(t[q] == s[q + 1]);
                    }
                }
            },
        }
    }
}

/// Where `c` stands at `p` and nowhere before, `first_index` finds `p`.
pub proof fn lemma_first_index_is(s: Seq<char>, c: char, p: int)
    requires
        0 <= p < s.len(),
        s[p] == c,
        forall|q: int| 0 <= q < p ==> #[trigger] s[q] != c,
    ensures
        first_index(s, c) == Some(p),
{
    lemma_run_len_is(s, other_than(c), p as nat);
}

/// Where `c` does not occur, `first_index` finds nothing.
pub proof fn lemma_first_index_none(s: Seq<char>, c: char)
    requires
        forall|q: int| 0 <= q < s.len() ==> #[trigger] s[q] != c,
    ensures
        first_index(s, c) is None,
{
    lemma_run_len_is(s, other_than(c), s.len());
}

/// What `first_index` finds: the first occurrence of `c`, if there is one.
pub proof fn lemma_first_index_bounds(s: Seq<char>, c: char)
    ensures
        match first_index(s, c) {
            Some(p) => 0 <= p < s.len() && s[p] == c && forall|q: int|
                0 <= q < p ==> #[trigger] s[q] != c,
            None => forall|q: int| 0 <= q < s.len() ==> #[trigger] s[q] != c,
        },
        first_index(s, c) is Some <==> s.contains(c),
{
    lemma_run_len_bounds(s, other_than(c));
    if first_index(s, c) is Some {
        assert(s[first_index(s, c).unwrap()] == c);
    }
}

/// Index of the first occurrence of `c` in `s`.
pub fn find_char(s: &Vec<char>, c: char) -> (r: Option<usize>)
    ensures
        match r {
            Some(p) => p < s.len() && first_index(s@, c) == Some(p as int),
            None => first_index(s@, c) is None,
        },
{
    let mut i: usize = 0;
    while i < s.len()
        invariant
            i <= s.len(),
            forall|q: int| 0 <= q < i ==> #[trigger] s@[q] != c,
        decreases s.len() - i,
    {
        if s[i] == c {
            proof {
                lemma_first_index_is(s@, c, i as int);
            }
            return Some(i);
        }
        i += 1;
    }
    proof {
        lemma_first_index_none(s@, c);
    }
    None
}

/// Index of the first place in `s` where `a` is immediately followed by `b`.
pub fn find_pair(s: &Vec<char>, a: char, b: char) -> (r: Option<usize>)
    ensures
        match r {
            Some(p) => p + 1 < s.len() && first_pair(s@, a, b) == Some(p as int),
            None => first_pair(s@, a, b) is None,
        },
{
    if s.len() < 2 {
        proof {
            lemma_first_pair_none(s@, a, b);
        }
        return None;
    }
    let mut i: usize = 0;
    while i < s.len() - 1
        invariant
            s.len() >= 2,
            i <= s.len() - 1,
            forall|q: int| 0 <= q < i ==> !(#[trigger] s@[q] == a && s@[q + 1] == b),
        decreases s.len() - i,
    {
        if s[i] == a && s[i + 1] == b {
            proof {
                lemma_first_pair_is(s@, a, b, i as int);
            }
            return Some(i);
        }
        i += 1;
    }
    proof {
        lemma_first_pair_none(s@, a, b);
    }
    None
}

/// Whether `c` occurs among the first `end` characters of `s`.
pub fn occurs_before(s: &Vec<char>, c: char, end: usize) -> (r: bool)
    requires
        end <= s.len(),
    ensures
        r == s@.take(end as int).contains(c),
{
    let mut i: usize = 0;
    while i < end
        invariant
            i <= end <= s.len(),
            forall|q: int| 0 <= q < i ==> #[trigger] s@[q] != c,
        decreases end - i,
    {
        if s[i] == c {
            assert(s@.take(end as int)[i as int] == c);
            return true;
        }
        i += 1;
    }
    false
}

/// Number of white-space characters at the start of `s`.
pub fn count_leading_spaces(s: &Vec<char>) -> (r: usize)
    ensures
        r == leading_spaces(s@),
        r <= s.len(),
{
    let mut i: usize = 0;
    while i < s.len() && is_whitespace(s[i])
        invariant
            i <= s.len(),
            forall|q: int| 0 <= q < i ==> is_space(#[trigger] s@[q]),
        decreases s.len() - i,
    {
        i += 1;
    }
    proof {
        lemma_run_len_is(s@, space_chars(), i as nat);
    }
    i
}

/// Number of white-space characters at the end of `s`.
pub fn count_trailing_spaces(s: &Vec<char>) -> (r: usize)
    ensures
        r == trailing_spaces(s@),
        r <= s.len(),
{
    let mut n: usize = 0;
    while n < s.len() && is_whitespace(s[s.len() - n - 1])
        invariant
            n <= s.len(),
            forall|q: int| s.len() - n <= q < s.len() ==> is_space(#[trigger] s@[q]),
        decreases s.len() - n,
    {
        n += 1;
    }
    proof {
        lemma_trailing_spaces_is(s@, n as nat);
    }
    n
}

/// `s` without its leading white space.
pub fn trim_start_chars(s: &Vec<char>) -> (r: Vec<char>)
    ensures
        r@ == trim_start(s@),
{
    let n = count_leading_spaces(s);
    subvec(s, n, s.len())
}

/// `s` without leading and trailing white space.
pub fn trim_chars(s: &Vec<char>) -> (r: Vec<char>)
    ensures
        r@ == trim(s@),
{
    let t = trim_start_chars(s);
    let n = count_trailing_spaces(&t);
    subvec(&t, 0, t.len() - n)
}

/// `s` without every leading occurrence of `c`.
pub fn strip_leading_chars(s: &Vec<char>, c: char) -> (r: Vec<char>)
    ensures
        r@ == strip_leading(s@, c),
{
    let mut i: usize = 0;
    while i < s.len() && s[i] == c
        invariant
            i <= s.len(),
            forall|q: int| 0 <= q < i ==> #[trigger] s@[q] == c,
        decreases s.len() - i,
    {
        i += 1;
    }
    proof {
        lemma_run_len_is(s@, only(c), i as nat);
    }
    subvec(s, i, s.len())
}

/// The lines of `s`.
pub fn split_lines(s: &Vec<char>) -> (r: Vec<Vec<char>>)
    ensures
        rows(r@) == lines_of(s@),
{
    let mut out: Vec<Vec<char>> = Vec::new();
    let mut pos: usize = 0;
    assert(s@.skip(0) == s@);
    assert(rows(out@) + lines_of(s@) == lines_of(s@));
    while pos < s.len()
        invariant
            pos <= s.len(),
            lines_of(s@) == rows(out@) + lines_of(s@.skip(pos as int)),
        decreases s.len() - pos,
    {
        let mut i: usize = pos;
        while i < s.len() && s[i] != '\n'
            invariant
                pos <= i <= s.len(),
                forall|q: int| pos <= q < i ==> #[trigger] s@[q] != '\n',
            decreases s.len() - i,
        {
            i += 1;
        }
        let ghost rest = s@.skip(pos as int);
        let ghost before = rows(out@);
        let ghost added: Seq<char>;
        if i < s.len() {
            let end: usize = if i > pos && s[i - 1] == '\r' {
                i - 1
            } else {
                i
            };
            let line = subvec(s, pos, end);
            proof {
                lemma_first_index_is(rest, '\n', i - pos);
                assert(rest.take(i - pos) == s@.subrange(pos as int, i as int));
                assert(line@ == strip_cr(rest.take(i - pos)));
                assert(rest.skip(i - pos + 1) == s@.skip(i + 1));
                added = line@;
            }
            out.push(line);
            pos = i + 1;
        } else {
            let line = subvec(s, pos, s.len());
            proof {
                lemma_first_index_none(rest, '\n');
                assert(line@ == rest);
                assert(lines_of(s@.skip(s.len() as int)) == Seq::<Seq<char>>::empty());
                added = line@;
            }
            out.push(line);
            pos = s.len();
        }
        assert(rows(out@) == before.push(added));
    }
    assert(lines_of(s@.skip(pos as int)) == Seq::<Seq<char>>::empty());
    out
}

/// `s` cut at every occurrence of `sep`.
pub fn split_chars(s: &Vec<char>, sep: char) -> (r: Vec<Vec<char>>)
    ensures
        rows(r@) == split_on(s@, sep),
{
    let mut out: Vec<Vec<char>> = Vec::new();
    let mut pos: usize = 0;
    let mut done = false;
    assert(s@.skip(0) == s@);
    assert(rows(out@) + split_on(s@, sep) == split_on(s@, sep));
    while !done
        invariant
            pos <= s.len(),
            !done ==> split_on(s@, sep) == rows(out@) + split_on(s@.skip(pos as int), sep),
            done ==> split_on(s@, sep) == rows(out@),
        decreases s.len() - pos + (if done { 0int } else { 1int }),
    {
        let mut i: usize = pos;
        while i < s.len() && s[i] != sep
            invariant
                pos <= i <= s.len(),
                forall|q: int| pos <= q < i ==> #[trigger] s@[q] != sep,
            decreases s.len() - i,
        {
            i += 1;
        }
        let ghost rest = s@.skip(pos as int);
        let ghost before = rows(out@);
        let piece = subvec(s, pos, i);
        if i < s.len() {
            proof {
                lemma_first_index_is(rest, sep, i - pos);
                assert(rest.take(i - pos) == piece@);
                assert(rest.skip(i - pos + 1) == s@.skip(i + 1));
            }
            out.push(piece);
            pos = i + 1;
        } else {
            proof {
                lemma_first_index_none(rest, sep);
                assert(piece@ == rest);
            }
            out.push(piece);
            done = true;
        }
        assert(rows(out@) == before.push(piece@));
    }
    out
}

/// `parts` concatenated, with `sep` between neighbours.
pub fn join_strings(parts: &Vec<String>, sep: &str) -> (r: String)
    ensures
        r@ == join(texts(parts@), sep@),
{
    let mut r = String::new();
    let mut i: usize = 0;
    while i < parts.len()
        invariant
            i <= parts.len(),
            r@ == join(texts(parts@).take(i as int), sep@),
        decreases parts.len() - i,
    {
        let ghost all = texts(parts@);
        proof {
            assert(all.take(i + 1).drop_last() == all.take(i as int));
            assert(all.take(i + 1).last() == parts@[i as int]@);
        }
        if i > 0 {
            r.append(sep);
        } else {
            assert(join(all.take(1), sep@) == all[0]);
        }
        r.append(parts[i].as_str());
        i += 1;
    }
    assert(texts(parts@).take(parts.len() as int) == texts(parts@));
    r
}

/// Whether `a` and `b` hold the same characters.
pub fn same_chars(a: &Vec<char>, b: &Vec<char>) -> (r: bool)
    ensures
        r == (a@ == b@),
{
    if a.len() != b.len() {
        return false;
    }
    let mut i: usize = 0;
    while i < a.len()
        invariant
            i <= a.len(),
            a.len() == b.len(),
            forall|q: int| 0 <= q < i ==> a@[q] == b@[q],
        decreases a.len() - i,
    {
        if a[i] != b[i] {
            return false;
        }
        i += 1;
    }
    assert(a@ =~= b@);
    true
}

/// Whether `a` and `b` hold the same text.
pub fn same_text(a: &str, b: &str) -> (r: bool)
    ensures
        r == (a@ == b@),
{
    if a.len() != b.len() {
        return false;
    }
    let x = chars_of(a);
    let y = chars_of(b);
    same_chars(&x, &y)
}

/// `s` without leading and trailing white space.
pub fn trimmed(s: &str) -> (r: String)
    ensures
        r@ == trim(s@),
{
    let chars = chars_of(s);
    let t = trim_chars(&chars);
    string_of(&t)
}

/// Whether `c` is white space.
pub fn is_whitespace(c: char) -> (r: bool)
    ensures
        r == is_space(c),
{
    ('\u{9}' <= c && c <= '\u{D}') || c == ' ' || c == '\u{85}' || c == '\u{A0}' || c
        == '\u{1680}' || ('\u{2000}' <= c && c <= '\u{200A}') || c == '\u{2028}' || c
        == '\u{2029}' || c == '\u{202F}' || c == '\u{205F}' || c == '\u{3000}'
}

/// The characters of `s`, in order.
pub fn chars_of(s: &str) -> (v: Vec<char>)
    ensures
        v@ == s@,
{
    let mut v: Vec<char> = Vec::new();
    for c in it: s.chars()
        invariant
            v@ == it.seq().take(it.index() as int),
            it.seq() == s@,
    {
        v.push(c);
    }
    v
}

/// The string made of the characters of `s`.
pub fn string_of(s: &Vec<char>) -> (r: String)
    ensures
        r@ == s@,
{
    let mut r = String::new();
    let mut i: usize = 0;
    while i < s.len()
        invariant
            i <= s.len(),
            r@ == s@.take(i as int),
        decreases s.len() - i,
    {
        r.push(s[i]);
        i += 1;
    }
    r
}

/// The characters of `s` from `from` up to, not including, `to`.
pub fn subvec(s: &Vec<char>, from: usize, to: usize) -> (r: Vec<char>)
    requires
        from <= to <= s.len(),
    ensures
        r@ == s@.subrange(from as int, to as int),
{
    let mut r: Vec<char> = Vec::new();
    let mut i: usize = from;
    while i < to
        invariant
            from <= i <= to <= s.len(),
            r@ == s@.subrange(from as int, i as int),
        decreases to - i,
    {
        r.push(s[i]);
        i += 1;
    }
    r
}

} // verus!
