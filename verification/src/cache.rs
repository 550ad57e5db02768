//! The parse cache: for each Makefile, under the text of its canonical
//! path, the targets that were extracted from it and the fingerprint of the
//! text they were extracted from. An entry is valid for a text exactly when
//! the fingerprints agree.

use vstd::prelude::*;
use crate::hash::{compute_hash, content_hash};
use crate::target::{targets_view, Target, TargetView};
use crate::text::{same_text, texts};

verus! {

/// What is remembered of one Makefile.
#[derive(Debug, Clone)]
pub struct CacheEntry {
    /// The fingerprint of the text that the targets were extracted from.
    pub content_hash: String,
    /// When the file was last modified, in seconds since the epoch. It is
    /// kept for diagnostics and decides nothing.
    pub modified_time: u64,
    /// The targets extracted from the file.
    pub targets: Vec<Target>,
}

/// What a `CacheEntry` stands for.
pub ghost struct CacheEntryView {
    pub content_hash: Seq<char>,
    pub modified_time: u64,
    pub targets: Seq<TargetView>,
}

impl View for CacheEntry {
    type V = CacheEntryView;

    open spec fn view(&self) -> CacheEntryView {
        CacheEntryView {
            content_hash: self.content_hash@,
            modified_time: self.modified_time,
            targets: targets_view(self.targets@),
        }
    }
}

/// One key with its entry.
#[derive(Debug, Clone)]
struct Slot {
    key: String,
    entry: CacheEntry,
}

/// A map from path texts to cache entries. It is modelled by the sequence
/// of its keys and entries, in which no key occurs twice.
#[derive(Debug, Clone)]
pub struct EntryMap {
    slots: Vec<Slot>,
}

/// No key occurs twice in `pairs`.
pub open spec fn distinct_keys(pairs: Seq<(Seq<char>, CacheEntryView)>) -> bool {
    forall|i: int, j: int|
        0 <= i < j < pairs.len() ==> (#[trigger] pairs[i]).0 != (#[trigger] pairs[j]).0
}

/// `key` occurs in `pairs`.
pub open spec fn has_key(pairs: Seq<(Seq<char>, CacheEntryView)>, key: Seq<char>) -> bool {
    exists|i: int| 0 <= i < pairs.len() && (#[trigger] pairs[i]).0 == key
}

/// An index at which `key` occurs in `pairs`.
pub open spec fn index_of(pairs: Seq<(Seq<char>, CacheEntryView)>, key: Seq<char>) -> int {
    choose|i: int| 0 <= i < pairs.len() && (#[trigger] pairs[i]).0 == key
}

/// The map that `pairs` lists.
pub open spec fn map_of(pairs: Seq<(Seq<char>, CacheEntryView)>) -> Map<
    Seq<char>,
    CacheEntryView,
> {
    Map::new(|k: Seq<char>| has_key(pairs, k), |k: Seq<char>| pairs[index_of(pairs, k)].1)
}

/// How many targets the entries of `pairs` hold together.
pub open spec fn total_targets(pairs: Seq<(Seq<char>, CacheEntryView)>) -> nat
    decreases pairs.len(),
{
    if pairs.len() == 0 {
        0
    } else {
        total_targets(pairs.drop_last()) + pairs.last().1.targets.len()
    }
}

/// The pairs of `pairs` whose key is one of `keys`, in their order.
pub open spec fn kept(pairs: Seq<(Seq<char>, CacheEntryView)>, keys: Seq<Seq<char>>) -> Seq<
    (Seq<char>, CacheEntryView),
>
    decreases pairs.len(),
{
    if pairs.len() == 0 {
        Seq::empty()
    } else if keys.contains(pairs[0].0) {
        seq![pairs[0]] + kept(pairs.drop_first(), keys)
    } else {
        kept(pairs.drop_first(), keys)
    }
}

/// What `kept` keeps: pairs of the list, and no key twice where the list
/// had none twice.
pub proof fn lemma_kept(pairs: Seq<(Seq<char>, CacheEntryView)>, keys: Seq<Seq<char>>)
    ensures
        forall|i: int|
            0 <= i < kept(pairs, keys).len() ==> pairs.contains(#[trigger] kept(pairs, keys)[i])
                && keys.contains(kept(pairs, keys)[i].0),
        forall|j: int|
            0 <= j < pairs.len() && keys.contains((#[trigger] pairs[j]).0) ==> kept(
                pairs,
                keys,
            ).contains(pairs[j]),
        distinct_keys(pairs) ==> distinct_keys(kept(pairs, keys)),
    decreases pairs.len(),
{
    if pairs.len() > 0 {
        let rest = pairs.drop_first();
        let k = kept(pairs, keys);
        let kr = kept(rest, keys);
        lemma_kept(rest, keys);
        let shift: int = if keys.contains(pairs[0].0) {
            1
        } else {
            0
        };
        assert forall|i: int| 0 <= i < k.len() implies pairs.contains(#[trigger] k[i])
            && keys.contains(k[i].0) by {
            if i >= shift {
                assert(k[i] == kr[i - shift]);
                assert(rest.contains(kr[i - shift]));
                let j = choose|j: int| 0 <= j < rest.len() && rest[j] == kr[i - shift];
                assert(pairs[j + 1] == rest[j]);
            } else {
                assert(k[i] == pairs[0]);
            }
        }
        assert forall|j: int| 0 <= j < pairs.len() && keys.contains(
            (#[trigger] pairs[j]).0,
        ) implies k.contains(pairs[j]) by {
            if j == 0 {
                assert(k[0] == pairs[0]);
            } else {
                assert(rest[j - 1] == pairs[j]);
                assert(kr.contains(rest[j - 1]));
                let i = choose|i: int| 0 <= i < kr.len() && kr[i] == rest[j - 1];
                assert(k[i + shift] == kr[i]);
            }
        }
        if distinct_keys(pairs) {
            assert(distinct_keys(rest)) by {
                assert forall|i: int, j: int| 0 <= i < j < rest.len() implies (#[trigger] rest[i]).0
                    != (#[trigger] rest[j]).0 by {
                    assert(rest[i] == pairs[i + 1]);
                    assert(rest[j] == pairs[j + 1]);
                }
            }
            assert forall|i: int, j: int| 0 <= i < j < k.len() implies (#[trigger] k[i]).0 != (
            #[trigger] k[j]).0 by {
                if i >= shift {
                    assert(k[i] == kr[i - shift]);
                    assert(k[j] == kr[j - shift]);
                } else {
                    assert(k[i] == pairs[0]);
                    assert(k[j] == kr[j - 1]);
                    assert(rest.contains(kr[j - 1]));
                    let q = choose|q: int| 0 <= q < rest.len() && rest[q] == kr[j - 1];
                    assert(pairs[q + 1] == rest[q]);
                }
            }
        }
    }
}

impl EntryMap {
    /// The keys with their entries, in the order in which the keys came in.
    pub closed spec fn pairs(&self) -> Seq<(Seq<char>, CacheEntryView)> {
        Seq::new(self.slots@.len(), |i: int| (self.slots@[i].key@, self.slots@[i].entry@))
    }

    /// The invariant: no key occurs twice.
    pub open spec fn wf(&self) -> bool {
        distinct_keys(self.pairs())
    }

    /// A map without entries.
    pub fn new() -> (r: EntryMap)
        ensures
            r.pairs() == Seq::<(Seq<char>, CacheEntryView)>::empty(),
            r.wf(),
    {
        let r = EntryMap { slots: Vec::new() };
        assert(r.pairs() =~= Seq::<(Seq<char>, CacheEntryView)>::empty());
        r
    }

    /// The number of entries.
    pub fn len(&self) -> (r: usize)
        ensures
            r == self.pairs().len(),
    {
        self.slots.len()
    }

    /// Whether there is no entry.
    pub fn is_empty(&self) -> (r: bool)
        ensures
            r == (self.pairs().len() == 0),
    {
        self.slots.len() == 0
    }

    /// Where `key` stands, if it does.
    fn position(&self, key: &str) -> (r: Option<usize>)
        ensures
            match r {
                Some(i) => i < self.slots@.len() && self.pairs()[i as int].0 == key@
                    && has_key(self.pairs(), key@),
                None => !has_key(self.pairs(), key@),
            },
    {
        let mut i: usize = 0;
        while i < self.slots.len()
            invariant
                i <= self.slots@.len(),
                forall|q: int| 0 <= q < i ==> (#[trigger] self.pairs()[q]).0 != key@,
            decreases self.slots@.len() - i,
        {
            assert(self.pairs()[i as int].0 == self.slots@[i as int].key@);
            if same_text(self.slots[i].key.as_str(), key) {
                return Some(i);
            }
            i += 1;
        }
        None
    }

    /// Whether `key` has an entry.
    pub fn contains_key(&self, key: &str) -> (r: bool)
        ensures
            r == has_key(self.pairs(), key@),
            r == self@.contains_key(key@),
    {
        self.position(key).is_some()
    }

    /// The entry of `key`, if it has one.
    pub fn get(&self, key: &str) -> (r: Option<&CacheEntry>)
        requires
            self.wf(),
        ensures
            match r {
                Some(entry) => self@.contains_key(key@) && entry@ == self@[key@],
                None => !self@.contains_key(key@),
            },
    {
        match self.position(key) {
            Some(i) => {
                assert(self.pairs()[i as int].1 == self.slots@[i as int].entry@);
                Some(&self.slots[i].entry)
            },
            None => None,
        }
    }

    /// Gives `key` the entry `entry`, in place of the one it had, if any.
    pub fn insert(&mut self, key: String, entry: CacheEntry)
        requires
            old(self).wf(),
        ensures
            final(self).wf(),
            final(self)@ == old(self)@.insert(key@, entry@),
            final(self).pairs() == if has_key(old(self).pairs(), key@) {
                old(self).pairs().update(index_of(old(self).pairs(), key@), (key@, entry@))
            } else {
                old(self).pairs().push((key@, entry@))
            },
    {
        let ghost before = self.pairs();
        let ghost item = (key@, entry@);
        match self.position(key.as_str()) {
            Some(i) => {
                self.slots.set(i, Slot { key, entry });
                assert(self.pairs() == before.update(i as int, item));
            },
            None => {
                self.slots.push(Slot { key, entry });
                assert(self.pairs() == before.push(item));
            },
        }
        proof {
            let after = self.pairs();
            assert forall|k: Seq<char>| has_key(after, k) <==> (k == item.0 || has_key(
                before,
                k,
            )) by {
                if has_key(after, k) && k != item.0 {
                    let i = choose|i: int| 0 <= i < after.len() && (#[trigger] after[i]).0 == k;
                    assert(before[i].0 == k);
                }
                if has_key(before, k) {
                    let i = choose|i: int| 0 <= i < before.len() && (#[trigger] before[i]).0
                        == k;
                    assert(after[i].0 == before[i].0);
                }
                if k == item.0 {
                    if has_key(before, k) {
                        assert(after[index_of(before, k)].0 == k);
                    } else {
                        assert(after[after.len() - 1].0 == k);
                    }
                }
            }
            assert forall|k: Seq<char>| has_key(after, k) implies map_of(after)[k] == (if k
                == item.0 {
                item.1
            } else {
                map_of(before)[k]
            }) by {
                let i = index_of(after, k);
                if k != item.0 {
                    assert(before[i] == after[i]);
                    let j = index_of(before, k);
                    assert(before[j].0 == before[i].0);
                } else {
                    assert(after[i] == item);
                }
            }
            assert(map_of(after) =~= map_of(before).insert(item.0, item.1));
        }
    }

    /// Takes the entry of `key` away, if it has one.
    pub fn remove(&mut self, key: &str)
        requires
            old(self).wf(),
        ensures
            final(self).wf(),
            final(self)@ == old(self)@.remove(key@),
            final(self).pairs() == if has_key(old(self).pairs(), key@) {
                old(self).pairs().remove(index_of(old(self).pairs(), key@))
            } else {
                old(self).pairs()
            },
    {
        let ghost before = self.pairs();
        match self.position(key) {
            Some(i) => {
                self.slots.remove(i);
                proof {
                    let after = self.pairs();
                    assert(after == before.remove(i as int));
                    assert(index_of(before, key@) == i);
                    assert forall|k: Seq<char>| has_key(after, k) <==> (k != key@ && has_key(
                        before,
                        k,
                    )) by {
                        if has_key(after, k) {
                            let q = choose|q: int| 0 <= q < after.len() && (#[trigger] after[q]).0
                                == k;
                            if q < i {
                                assert(before[q] == after[q]);
                            } else {
                                assert(before[q + 1] == after[q]);
                            }
                        }
                        if k != key@ && has_key(before, k) {
                            let q = choose|q: int| 0 <= q < before.len() && (
                            #[trigger] before[q]).0 == k;
                            if q < i {
                                assert(after[q] == before[q]);
                            } else {
                                assert(after[q - 1] == before[q]);
                            }
                        }
                    }
                    assert forall|k: Seq<char>| has_key(after, k) implies map_of(after)[k]
                        == map_of(before)[k] by {
                        let q = index_of(after, k);
                        let j = index_of(before, k);
                        if q < i {
                            assert(before[q] == after[q]);
                        } else {
                            assert(before[q + 1] == after[q]);
                        }
                    }
                    assert(map_of(after) =~= map_of(before).remove(key@));
                }
            },
            None => {
                assert(map_of(before) =~= map_of(before).remove(key@));
            },
        }
    }

    /// Takes every entry away.
    pub fn clear(&mut self)
        ensures
            final(self).pairs() == Seq::<(Seq<char>, CacheEntryView)>::empty(),
            final(self).wf(),
    {
        self.slots.clear();
        assert(self.pairs() =~= Seq::<(Seq<char>, CacheEntryView)>::empty());
    }

    /// The keys, in the order in which they came in.
    pub fn keys(&self) -> (r: Vec<String>)
        ensures
            r@.len() == self.pairs().len(),
            forall|i: int| 0 <= i < r@.len() ==> (#[trigger] r@[i])@ == self.pairs()[i].0,
    {
        let mut r: Vec<String> = Vec::new();
        let mut i: usize = 0;
        while i < self.slots.len()
            invariant
                i <= self.slots@.len(),
                r@.len() == i,
                forall|q: int| 0 <= q < i ==> (#[trigger] r@[q])@ == self.pairs()[q].0,
            decreases self.slots@.len() - i,
        {
            r.push(self.slots[i].key.clone());
            i += 1;
        }
        r
    }

    /// Keeps the entries whose key is one of `keys` and takes the others
    /// away.
    pub fn retain(&mut self, keys: &Vec<String>)
        requires
            old(self).wf(),
        ensures
            final(self).wf(),
            final(self).pairs() == kept(old(self).pairs(), texts(keys@)),
    {
        let ghost before = self.pairs();
        let ghost wanted = texts(keys@);
        let mut i: usize = self.slots.len();
        assert(before.take(i as int) == before);
        assert(kept(before.skip(i as int), wanted) == Seq::<(Seq<char>, CacheEntryView)>::empty());
        while i > 0
            invariant
                i <= before.len(),
                wanted == texts(keys@),
                i <= self.slots@.len(),
                self.pairs() == before.take(i as int) + kept(before.skip(i as int), wanted),
            decreases i,
        {
            i -= 1;
            let ghost cur = self.pairs();
            proof {
                assert(before.skip(i as int).drop_first() == before.skip(i + 1));
                assert(before.skip(i as int)[0] == before[i as int]);
                assert(before.take(i + 1) == before.take(i as int).push(before[i as int]));
                assert(cur[i as int] == before[i as int]);
                assert(cur[i as int].0 == self.slots@[i as int].key@);
            }
            let keep = holds(keys, self.slots[i].key.as_str());
            if !keep {
                self.slots.remove(i);
                assert(self.pairs() == cur.remove(i as int));
                assert(cur.remove(i as int) == before.take(i as int) + kept(
                    before.skip(i + 1),
                    wanted,
                ));
            } else {
                assert(cur == before.take(i as int) + (seq![before[i as int]] + kept(
                    before.skip(i + 1),
                    wanted,
                )));
            }
        }
        proof {
            assert(before.skip(0) == before);
            assert(self.pairs() == kept(before, wanted));
            lemma_kept(before, wanted);
        }
    }

    /// How many targets the entries hold together.
    pub fn count_targets(&self) -> (r: usize)
        requires
            total_targets(self.pairs()) <= usize::MAX,
        ensures
            r == total_targets(self.pairs()),
    {
        let mut total: usize = 0;
        let mut i: usize = 0;
        assert(self.pairs().take(0) == Seq::<(Seq<char>, CacheEntryView)>::empty());
        while i < self.slots.len()
            invariant
                i <= self.slots@.len(),
                total == total_targets(self.pairs().take(i as int)),
                total_targets(self.pairs()) <= usize::MAX,
            decreases self.slots@.len() - i,
        {
            proof {
                let all = self.pairs();
                assert(all.take(i + 1).drop_last() == all.take(i as int));
                assert(all.take(i + 1).last().1.targets.len() == self.slots@[i as int].entry.targets@.len());
                lemma_total_grows(all, i + 1);
            }
            total = total + self.slots[i].entry.targets.len();
            i += 1;
        }
        assert(self.pairs().take(i as int) == self.pairs());
        total
    }
}

/// The targets of a prefix are no more than those of the whole list.
pub proof fn lemma_total_grows(pairs: Seq<(Seq<char>, CacheEntryView)>, n: int)
    requires
        0 <= n <= pairs.len(),
    ensures
        total_targets(pairs.take(n)) <= total_targets(pairs),
    decreases pairs.len() - n,
{
    if n < pairs.len() {
        assert(pairs.take(n + 1).drop_last() == pairs.take(n));
        lemma_total_grows(pairs, n + 1);
    } else {
        assert(pairs.take(n) == pairs);
    }
}

/// Whether `keys` holds `key`.
fn holds(keys: &Vec<String>, key: &str) -> (r: bool)
    ensures
        r == texts(keys@).contains(key@),
{
    let mut i: usize = 0;
    while i < keys.len()
        invariant
            i <= keys.len(),
            forall|q: int| 0 <= q < i ==> (#[trigger] keys@[q])@ != key@,
        decreases keys.len() - i,
    {
        if same_text(keys[i].as_str(), key) {
            assert(texts(keys@)[i as int] == key@);
            return true;
        }
        i += 1;
    }
    assert forall|q: int| 0 <= q < texts(keys@).len() implies texts(keys@)[q] != key@ by {
        assert(texts(keys@)[q] == keys@[q]@);
    }
    false
}

impl View for EntryMap {
    type V = Map<Seq<char>, CacheEntryView>;

    open spec fn view(&self) -> Map<Seq<char>, CacheEntryView> {
        map_of(self.pairs())
    }
}

/// The whole cache: a format version and the entries.
#[derive(Debug, Clone)]
pub struct Cache {
    /// The version of the format in which the cache was written.
    pub version: u32,
    /// The entries, under the texts of canonical paths.
    pub entries: EntryMap,
}

/// How many entries a cache has and how many targets they hold.
#[derive(Debug, Clone, Copy, PartialEq, Eq)]
pub struct CacheStats {
    pub entry_count: usize,
    pub total_targets: usize,
}

/// The entry that is recorded for a file with the text `content`.
pub open spec fn entry_for(content: Seq<char>, modified_time: u64, targets: Seq<TargetView>)
    -> CacheEntryView {
    CacheEntryView { content_hash: content_hash(content), modified_time, targets }
}

/// What a cache answers for the file `path` whose text now is `content`:
/// the targets recorded for the path, where the fingerprint recorded with
/// them is that of `content`.
pub open spec fn lookup(entries: Map<Seq<char>, CacheEntryView>, path: Seq<char>, content: Seq<char>)
    -> Option<Seq<TargetView>> {
    if entries.contains_key(path) && entries[path].content_hash == content_hash(content) {
        Some(entries[path].targets)
    } else {
        None
    }
}

impl Default for Cache {
    fn default() -> (r: Cache)
        ensures
            r.version == Cache::CURRENT_VERSION,
            r.entries.pairs().len() == 0,
            r.wf(),
    {
        Cache::new()
    }
}

impl Cache {
    /// The version of the cache format that this library reads and writes.
    pub const CURRENT_VERSION: u32 = 1;

    /// The name of the cache file.
    pub const CACHE_FILENAME: &'static str = "maki_cache.json";

    /// The name of the directory, inside the user's cache directory, that
    /// holds the cache file.
    pub const CACHE_DIRNAME: &'static str = "maki";

    /// The invariant: that of the entries.
    pub open spec fn wf(&self) -> bool {
        self.entries.wf()
    }

    /// An empty cache of the current version.
    pub fn new() -> (r: Cache)
        ensures
            r.version == Cache::CURRENT_VERSION,
            r.entries.pairs().len() == 0,
            r.wf(),
    {
        Cache { version: Cache::CURRENT_VERSION, entries: EntryMap::new() }
    }

    /// The cache to work with, given what was read from disk: `persisted`
    /// itself where there is one and it has the current version, else an
    /// empty cache. A cache of another version is not migrated.
    pub fn load(persisted: Option<Cache>) -> (r: Cache)
        requires
            persisted matches Some(c) ==> c.wf(),
        ensures
            r.wf(),
            r.version == Cache::CURRENT_VERSION,
            match persisted {
                Some(c) if c.version == Cache::CURRENT_VERSION => r == c,
                _ => r.entries.pairs().len() == 0,
            },
    {
        match persisted {
            Some(c) => {
                if c.version == Cache::CURRENT_VERSION {
                    c
                } else {
                    Cache::new()
                }
            },
            None => Cache::new(),
        }
    }

    /// Whether `entry` is valid for a file whose text now is `content`: the
    /// fingerprints agree. The modification time is not looked at.
    pub fn is_entry_valid(content: &str, entry: &CacheEntry) -> (r: bool)
        ensures
            r == (entry@.content_hash == content_hash(content@)),
    {
        let current = compute_hash(content);
        current == entry.content_hash
    }

    /// The targets cached for the file `path`, whose text now is `content`;
    /// nothing where the path has no entry or its entry is not valid for
    /// that text.
    pub fn get(&self, path: &str, content: &str) -> (r: Option<&Vec<Target>>)
        requires
            self.wf(),
        ensures
            match r {
                Some(targets) => lookup(self.entries@, path@, content@) == Some(
                    targets_view(targets@),
                ),
                None => lookup(self.entries@, path@, content@) is None,
            },
    {
        match self.entries.get(path) {
            Some(entry) => {
                if Cache::is_entry_valid(content, entry) {
                    Some(&entry.targets)
                } else {
                    None
                }
            },
            None => None,
        }
    }

    /// Records `targets` for the file `path`, whose text is `content`, in
    /// place of what was recorded for that path.
    pub fn set(&mut self, path: &str, content: &str, modified_time: u64, targets: Vec<Target>)
        requires
            old(self).wf(),
        ensures
            final(self).wf(),
            final(self).version == old(self).version,
            final(self).entries@ == old(self).entries@.insert(
                path@,
                entry_for(content@, modified_time, targets_view(targets@)),
            ),
    {
        let entry = CacheEntry { content_hash: compute_hash(content), modified_time, targets };
        self.entries.insert(path.to_owned(), entry);
    }

    /// Forgets what is recorded for the file `path`.
    pub fn invalidate(&mut self, path: &str)
        requires
            old(self).wf(),
        ensures
            final(self).wf(),
            final(self).version == old(self).version,
            final(self).entries@ == old(self).entries@.remove(path@),
    {
        self.entries.remove(path);
    }

    /// Forgets every entry.
    pub fn clear(&mut self)
        ensures
            final(self).wf(),
            final(self).version == old(self).version,
            final(self).entries.pairs().len() == 0,
    {
        self.entries.clear();
    }

    /// Forgets the entries of files that are gone: `existing` names the
    /// paths, among those of the entries, that still exist.
    pub fn prune(&mut self, existing: &Vec<String>)
        requires
            old(self).wf(),
        ensures
            final(self).wf(),
            final(self).version == old(self).version,
            final(self).entries.pairs() == kept(old(self).entries.pairs(), texts(existing@)),
    {
        self.entries.retain(existing);
    }

    /// How many entries the cache has and how many targets they hold.
    pub fn stats(&self) -> (r: CacheStats)
        requires
            total_targets(self.entries.pairs()) <= usize::MAX,
        ensures
            r.entry_count == self.entries.pairs().len(),
            r.total_targets == total_targets(self.entries.pairs()),
    {
        CacheStats { entry_count: self.entries.len(), total_targets: self.entries.count_targets() }
    }
}

/// What was recorded for a path is what the cache answers for it, as long
/// as the file's text is the one it was recorded with.
pub proof fn lemma_set_then_get(
    entries: Map<Seq<char>, CacheEntryView>,
    path: Seq<char>,
    content: Seq<char>,
    modified_time: u64,
    targets: Seq<TargetView>,
)
    ensures
        lookup(
            entries.insert(path, entry_for(content, modified_time, targets)),
            path,
            content,
        ) == Some(targets),
{
}

/// Once the file's text has another fingerprint than the one recorded, the
/// cache answers nothing for its path.
pub proof fn lemma_changed_content_misses(
    entries: Map<Seq<char>, CacheEntryView>,
    path: Seq<char>,
    content: Seq<char>,
    changed: Seq<char>,
    modified_time: u64,
    targets: Seq<TargetView>,
)
    requires
        content_hash(changed) != content_hash(content),
    ensures
        lookup(
            entries.insert(path, entry_for(content, modified_time, targets)),
            path,
            changed,
        ) is None,
{
}

/// The modification time decides nothing: two entries that differ in it
/// alone are answered alike.
pub proof fn lemma_modified_time_decides_nothing(
    entries: Map<Seq<char>, CacheEntryView>,
    path: Seq<char>,
    content: Seq<char>,
    asked: Seq<char>,
    now: Seq<char>,
    early: u64,
    late: u64,
    targets: Seq<TargetView>,
)
    ensures
        lookup(entries.insert(path, entry_for(content, early, targets)), asked, now) == lookup(
            entries.insert(path, entry_for(content, late, targets)),
            asked,
            now,
        ),
{
}

} // verus!
