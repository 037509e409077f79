//! Workflow runs that are kept between refreshes.
use vstd::prelude::*;
use vstd::string::*;

use crate::text;

verus! {

/// The version of the cache file that is read and written.
pub const CACHE_VERSION: u32 = 1;

/// A point in time, in nanoseconds since the start of 1970 in UTC.
pub type Timestamp = i128;

/// A single workflow run retained between refreshes.
///
/// Completed runs never change, so caching them lets a refresh stop paging as soon as it
/// reaches history it has already seen.
#[derive(Debug, PartialEq, Eq)]
pub struct CachedRun {
    pub id: Option<u64>,
    pub status: Option<String>,
    pub conclusion: Option<String>,
    pub event: Option<String>,
    pub created_at: Timestamp,
}

/// Whether an optional string holds a given text.
pub open spec fn is_text(s: Option<String>, t: Seq<char>) -> bool {
    s is Some && s->0@ == t
}

/// Whether an optional string holds a given text.
pub fn holds(s: &Option<String>, t: &str) -> (r: bool)
    ensures
        r == is_text(*s, t@),
{
    match s {
        Some(s) => text::same(s.as_str(), t),
        None => false,
    }
}

/// A copy of an optional string.
pub fn clone_text(s: &Option<String>) -> (r: Option<String>)
    ensures
        r == *s,
{
    match s {
        Some(s) => Some(s.clone()),
        None => None,
    }
}

impl Clone for CachedRun {
    fn clone(&self) -> (r: Self)
        ensures
            r == *self,
    {
        CachedRun {
            id: self.id,
            status: clone_text(&self.status),
            conclusion: clone_text(&self.conclusion),
            event: clone_text(&self.event),
            created_at: self.created_at,
        }
    }
}

impl CachedRun {
    /// Whether the run has finished.
    pub open spec fn completed(self) -> bool {
        is_text(self.status, "completed"@)
    }

    /// Tells whether the run has finished.
    pub fn is_completed(&self) -> (r: bool)
        ensures
            r == self.completed(),
    {
        holds(&self.status, "completed")
    }
}

/// A copy of a list of runs.
pub fn clone_runs(runs: &Vec<CachedRun>) -> (r: Vec<CachedRun>)
    ensures
        r@ == runs@,
{
    let mut r: Vec<CachedRun> = Vec::new();
    let mut i: usize = 0;
    while i < runs.len()
        invariant
            i <= runs@.len(),
            r@ =~= runs@.take(i as int),
        decreases runs@.len() - i,
    {
        r.push(runs[i].clone());
        i = i + 1;
    }
    assert(r@ =~= runs@);
    r
}

/// The runs of a workflow that were seen, and the validator of the page they came from.
#[derive(Debug, PartialEq, Eq)]
pub struct CachedWorkflowRuns {
    pub etag: Option<String>,
    pub runs: Vec<CachedRun>,
}

/// What [`CachedWorkflowRuns`] hold.
#[verifier::ext_equal]
pub struct CachedModel {
    pub etag: Option<Seq<char>>,
    pub runs: Seq<CachedRun>,
}

impl View for CachedWorkflowRuns {
    type V = CachedModel;

    open spec fn view(&self) -> CachedModel {
        CachedModel { etag: text::view_opt(self.etag), runs: self.runs@ }
    }
}

impl CachedModel {
    /// Nothing cached.
    pub open spec fn nothing() -> CachedModel {
        CachedModel { etag: None, runs: Seq::empty() }
    }
}

impl Default for CachedWorkflowRuns {
    fn default() -> (r: Self)
        ensures
            r@ == CachedModel::nothing(),
    {
        CachedWorkflowRuns { etag: None, runs: Vec::new() }
    }
}

impl Clone for CachedWorkflowRuns {
    fn clone(&self) -> (r: Self)
        ensures
            r@ == self@,
    {
        CachedWorkflowRuns { etag: clone_text(&self.etag), runs: clone_runs(&self.runs) }
    }
}

/// The creation time of the oldest run that has not finished.
pub open spec fn oldest_open(runs: Seq<CachedRun>) -> Option<Timestamp>
    decreases runs.len(),
{
    if runs.len() == 0 {
        None
    } else {
        let before = oldest_open(runs.drop_last());
        let run = runs.last();
        if run.completed() {
            before
        } else {
            match before {
                Some(t) => Some(if run.created_at < t { run.created_at } else { t }),
                None => Some(run.created_at),
            }
        }
    }
}

/// [`oldest_open`] is the least creation time of the runs that have not finished, where there
/// is one.
pub proof fn lemma_oldest_open(runs: Seq<CachedRun>)
    ensures
        match oldest_open(runs) {
            Some(t) => {
                &&& exists|i: int|
                    0 <= i < runs.len() && !(#[trigger] runs[i]).completed() && runs[i].created_at
                        == t
                &&& forall|i: int|
                    0 <= i < runs.len() && !(#[trigger] runs[i]).completed() ==> t
                        <= runs[i].created_at
            },
            None => forall|i: int| 0 <= i < runs.len() ==> (#[trigger] runs[i]).completed(),
        },
    decreases runs.len(),
{
    if runs.len() > 0 {
        let front = runs.drop_last();
        lemma_oldest_open(front);
        match oldest_open(front) {
            Some(t) => {
                let i = choose|i: int|
                    0 <= i < front.len() && !(#[trigger] front[i]).completed()
                        && front[i].created_at == t;
                assert(runs[i] == front[i]);
            },
            None => {},
        }
        assert forall|i: int| 0 <= i < front.len() implies runs[i] == #[trigger] front[i] by {}
        assert(runs.last() == runs[runs.len() - 1]);
        match oldest_open(runs) {
            Some(t) => {
                assert forall|i: int|
                    0 <= i < runs.len() && !(#[trigger] runs[i]).completed() implies t
                    <= runs[i].created_at by {
                    if i < front.len() {
                        assert(!front[i].completed());
                    }
                }
            },
            None => {
                assert forall|i: int| 0 <= i < runs.len() implies (#[trigger] runs[i]).completed() by {
                    if i < front.len() {
                        assert(front[i].completed());
                    }
                }
            },
        }
    }
}

/// Whether a run with an identifier is among the runs.
pub open spec fn has_run(runs: Seq<CachedRun>, id: u64) -> bool {
    exists|i: int| 0 <= i < runs.len() && (#[trigger] runs[i]).id == Some(id)
}

impl CachedWorkflowRuns {
    /// The creation time of the oldest run that may still change.
    ///
    /// Refreshes must keep paging past cached history until they have covered every run that
    /// was still queued or in progress when it was cached.
    pub fn oldest_unsettled(&self) -> (r: Option<Timestamp>)
        ensures
            r == oldest_open(self@.runs),
    {
        let mut r: Option<Timestamp> = None;
        let mut i: usize = 0;
        while i < self.runs.len()
            invariant
                i <= self.runs@.len(),
                r == oldest_open(self.runs@.take(i as int)),
            decreases self.runs@.len() - i,
        {
            assert(self.runs@.take(i + 1).drop_last() =~= self.runs@.take(i as int));
            if !self.runs[i].is_completed() {
                let created_at = self.runs[i].created_at;
                r = match r {
                    Some(t) => if created_at < t {
                        Some(created_at)
                    } else {
                        Some(t)
                    },
                    None => Some(created_at),
                };
            }
            i = i + 1;
        }
        assert(self.runs@.take(i as int) =~= self.runs@);
        r
    }

    /// Whether a run is already cached, regardless of how it finished.
    ///
    /// Run pages arrive newest-first, so reaching a run that is already cached means every
    /// older run is cached too and paging can stop.
    pub fn contains(&self, id: u64) -> (r: bool)
        ensures
            r == has_run(self@.runs, id),
    {
        let mut i: usize = 0;
        while i < self.runs.len()
            invariant
                i <= self.runs@.len(),
                forall|j: int| 0 <= j < i ==> (#[trigger] self.runs@[j]).id != Some(id),
            decreases self.runs@.len() - i,
        {
            if let Some(found) = self.runs[i].id {
                if found == id {
                    assert(self.runs@[i as int].id == Some(id));
                    return true;
                }
            }
            i = i + 1;
        }
        false
    }
}

/// One entry of the cache: the key of a workflow and its runs.
#[derive(Debug, PartialEq, Eq)]
pub struct CacheEntry {
    pub key: String,
    pub runs: CachedWorkflowRuns,
}

/// What a list of entries says of each key: its last entry counts.
pub open spec fn entries_map(entries: Seq<CacheEntry>) -> Map<Seq<char>, CachedModel>
    decreases entries.len(),
{
    if entries.len() == 0 {
        Map::empty()
    } else {
        entries_map(entries.drop_last()).insert(entries.last().key@, entries.last().runs@)
    }
}

proof fn lemma_entries_remove(entries: Seq<CacheEntry>, i: int, value: CachedModel)
    requires
        0 <= i < entries.len(),
    ensures
        entries_map(entries.remove(i)).insert(entries[i].key@, value) == entries_map(
            entries,
        ).insert(entries[i].key@, value),
    decreases entries.len(),
{
    let front = entries.drop_last();
    let key = entries[i].key@;
    if i == entries.len() - 1 {
        assert(entries.remove(i) =~= front);
        assert(entries_map(front).insert(key, value) =~= entries_map(entries).insert(key, value));
    } else {
        lemma_entries_remove(front, i, value);
        assert(entries.remove(i).drop_last() =~= front.remove(i));
        assert(entries.remove(i).last() == entries.last());
        let other = entries.last().key@;
        let last = entries.last().runs@;
        let without = entries_map(front.remove(i));
        let with = entries_map(front);
        if other == key {
            assert(without.insert(other, last).insert(key, value) =~= without.insert(key, value));
            assert(with.insert(other, last).insert(key, value) =~= with.insert(key, value));
        } else {
            assert(without.insert(other, last).insert(key, value) =~= without.insert(
                key,
                value,
            ).insert(other, last));
            assert(with.insert(other, last).insert(key, value) =~= with.insert(key, value).insert(
                other,
                last,
            ));
        }
    }
}

/// What the cache file held.
#[derive(Debug, PartialEq, Eq)]
pub enum CacheFile {
    /// There is no file.
    Missing,
    /// The file is no cache.
    Corrupt,
    /// The version and the entries that the file holds.
    Parsed { version: u32, entries: Vec<CacheEntry> },
}

impl CacheFile {
    /// The entries that count. A corrupt or older cache is a performance hint, never required
    /// for correctness, so it counts as empty.
    pub open spec fn usable(self) -> Map<Seq<char>, CachedModel> {
        match self {
            CacheFile::Parsed { version, entries } => if version == CACHE_VERSION {
                entries_map(entries@)
            } else {
                Map::empty()
            },
            _ => Map::empty(),
        }
    }
}

/// The runs that are cached, by the key of their workflow.
#[derive(Debug, PartialEq, Eq)]
pub struct RunCache {
    entries: Vec<CacheEntry>,
}

impl View for RunCache {
    type V = Map<Seq<char>, CachedModel>;

    closed spec fn view(&self) -> Map<Seq<char>, CachedModel> {
        entries_map(self.entries@)
    }
}

impl Default for RunCache {
    fn default() -> (r: Self)
        ensures
            r@ == Map::<Seq<char>, CachedModel>::empty(),
    {
        RunCache::new()
    }
}

impl RunCache {
    /// An empty cache.
    pub fn new() -> (r: Self)
        ensures
            r@ == Map::<Seq<char>, CachedModel>::empty(),
    {
        RunCache { entries: Vec::new() }
    }

    /// The runs cached under a key; none where the key is unknown.
    pub fn get(&self, key: &str) -> (r: CachedWorkflowRuns)
        ensures
            r@ == (if self@.contains_key(key@) {
                self@[key@]
            } else {
                CachedModel::nothing()
            }),
    {
        let mut i: usize = self.entries.len();
        assert(self.entries@.take(i as int) =~= self.entries@);
        while i > 0
            invariant
                i <= self.entries@.len(),
                entries_map(self.entries@).contains_key(key@) == entries_map(
                    self.entries@.take(i as int),
                ).contains_key(key@),
                entries_map(self.entries@).contains_key(key@) ==> entries_map(self.entries@)[key@]
                    == entries_map(self.entries@.take(i as int))[key@],
            decreases i,
        {
            assert(self.entries@.take(i as int).drop_last() =~= self.entries@.take(i - 1));
            if text::same(self.entries[i - 1].key.as_str(), key) {
                return self.entries[i - 1].runs.clone();
            }
            i = i - 1;
        }
        CachedWorkflowRuns { etag: None, runs: Vec::new() }
    }

    /// Caches runs under a key, in place of what was there.
    pub fn insert(&mut self, key: String, entry: CachedWorkflowRuns)
        ensures
            final(self)@ == old(self)@.insert(key@, entry@),
    {
        let ghost before = self.entries@;
        let mut i: usize = 0;
        while i < self.entries.len()
            invariant
                i <= self.entries@.len(),
                self.entries@ == before,
                before == old(self).entries@,
            decreases self.entries@.len() - i,
        {
            if text::same(self.entries[i].key.as_str(), key.as_str()) {
                proof {
                    lemma_entries_remove(before, i as int, entry@);
                }
                self.entries.remove(i);
                self.entries.push(CacheEntry { key, runs: entry });
                assert(self.entries@.drop_last() =~= before.remove(i as int));
                return;
            }
            i = i + 1;
        }
        self.entries.push(CacheEntry { key, runs: entry });
        assert(self.entries@.drop_last() =~= before);
    }

    /// The cache that a file gives.
    pub fn from_file(file: CacheFile) -> (r: Self)
        ensures
            r@ == file.usable(),
    {
        match file {
            CacheFile::Parsed { version, entries } => if version == CACHE_VERSION {
                RunCache { entries }
            } else {
                RunCache::new()
            },
            _ => RunCache::new(),
        }
    }

    /// What is written to the cache file: the version and the entries.
    pub fn contents(&self) -> (r: (u32, &Vec<CacheEntry>))
        ensures
            r.0 == CACHE_VERSION,
            entries_map(r.1@) == self@,
    {
        (CACHE_VERSION, &self.entries)
    }

    /// Whether nothing is cached.
    pub fn is_empty(&self) -> (r: bool)
        ensures
            r == (self@ == Map::<Seq<char>, CachedModel>::empty()),
    {
        proof {
            if self.entries@.len() > 0 {
                assert(entries_map(self.entries@).contains_key(self.entries@.last().key@));
            }
        }
        self.entries.len() == 0
    }
}

/// What is written can be read back: the version and the entries that a cache is written
/// with give the same runs for every key when they are read from its file.
pub proof fn law_cache_survives_file(cache: RunCache, version: u32, entries: Vec<CacheEntry>)
    requires
        version == CACHE_VERSION,
        entries_map(entries@) == cache@,
    ensures
        (CacheFile::Parsed { version, entries }).usable() == cache@,
{
}

/// The key of a workflow in the cache.
pub open spec fn cache_key(repository: Seq<char>, workflow_id: u64) -> Seq<char> {
    repository + "#"@ + text::decimal(workflow_id as nat)
}

/// The key of a workflow in the cache.
pub fn run_cache_key(repository: &str, workflow_id: u64) -> (r: String)
    ensures
        r@ == cache_key(repository@, workflow_id),
{
    let mut r = text::concat(repository, "#");
    r.append(text::number_text(workflow_id).as_str());
    r
}

/// Workflows do not share runs: two workflows, of one repository or of two, have different
/// keys.
pub proof fn law_cache_keys_differ(a: Seq<char>, i: u64, b: Seq<char>, j: u64)
    requires
        cache_key(a, i) == cache_key(b, j),
    ensures
        a == b,
        i == j,
{
    reveal_strlit("#");
    let x = text::decimal(i as nat);
    let y = text::decimal(j as nat);
    let key = cache_key(a, i);
    text::lemma_decimal(i as nat);
    text::lemma_decimal(j as nat);
    assert(key =~= a.push('#') + x);
    assert(key =~= b.push('#') + y);
    if a.len() < b.len() {
        assert(key[b.len() as int] == '#');
        assert(key[b.len() as int] == x[b.len() - a.len() - 1]);
    } else if b.len() < a.len() {
        assert(key[a.len() as int] == '#');
        assert(key[a.len() as int] == y[a.len() - b.len() - 1]);
    }
    assert(a =~= key.take(a.len() as int));
    assert(b =~= key.take(b.len() as int));
    assert(x =~= key.skip(a.len() as int + 1));
    assert(y =~= key.skip(b.len() as int + 1));
}

} // verus!
