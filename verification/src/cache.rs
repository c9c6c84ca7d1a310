//! Search-result caching and bounded-search policy.
//!
//! Time is modeled as an abstract monotonic counter: callers pass the current
//! tick to every operation that consults an entry's age, so expiry is a pure
//! function of the stored timestamp, the time-to-live and the given tick.

use vstd::prelude::*;

use crate::text::{is_prefix, prefix_chars, chars_of, str_eq};

verus! {

/// One directory-cache slot: a key, its listing, and when it was recorded.
pub struct DirEntry {
    /// The cache key (a canonicalized directory path).
    pub key: String,
    /// The cached directory listing.
    pub entries: Vec<String>,
    /// The tick at which the listing was recorded.
    pub recorded_at: u64,
}

/// The first entry with the given key, scanning left to right.
pub open spec fn lookup_dir(s: Seq<DirEntry>, key: Seq<char>) -> Option<DirEntry>
    decreases s.len(),
{
    if s.len() == 0 {
        None
    } else if s.first().key@ == key {
        Some(s.first())
    } else {
        lookup_dir(s.drop_first(), key)
    }
}

/// An entry is live at `now` while less than `ttl` ticks have passed since
/// it was recorded.
pub open spec fn dir_entry_live(e: DirEntry, ttl: u64, now: u64) -> bool {
    e.recorded_at <= now && now - e.recorded_at < ttl
}

/// The entries that are live at `now`, in order.
pub open spec fn live_entries(s: Seq<DirEntry>, ttl: u64, now: u64) -> Seq<DirEntry>
    decreases s.len(),
{
    if s.len() == 0 {
        Seq::<DirEntry>::empty()
    } else {
        let rest = live_entries(s.drop_last(), ttl, now);
        if dir_entry_live(s.last(), ttl, now) {
            rest.push(s.last())
        } else {
            rest
        }
    }
}

/// Cache of directory listings with lazy time-to-live expiry: a stored
/// listing is treated as absent once its age reaches the time-to-live, but
/// only `cleanup` actually removes entries.
pub struct DirectoryCache {
    entries: Vec<DirEntry>,
    ttl: u64,
}

impl DirectoryCache {
    /// The stored entries.
    pub closed spec fn spec_entries(&self) -> Seq<DirEntry> {
        self.entries@
    }

    /// The time-to-live, in ticks.
    pub closed spec fn spec_ttl(&self) -> u64 {
        self.ttl
    }

    /// Create an empty directory cache with a five-tick time-to-live.
    pub fn new() -> (r: Self)
        ensures
            r.spec_entries() == Seq::<DirEntry>::empty(),
            r.spec_ttl() == 5,
    {
        DirectoryCache { entries: Vec::new(), ttl: 5 }
    }

    /// The cached listing for `dir`, or `None` if absent or no longer live
    /// at `now`.
    pub fn get(&self, dir: &str, now: u64) -> (r: Option<&Vec<String>>)
        ensures
            match r {
                Some(v) => exists|e: DirEntry|
                    lookup_dir(self.spec_entries(), dir@) == Some(e) && dir_entry_live(
                        e,
                        self.spec_ttl(),
                        now,
                    ) && v@ == e.entries@,
                None => forall|e: DirEntry|
                    lookup_dir(self.spec_entries(), dir@) == Some(e) ==> !dir_entry_live(
                        e,
                        self.spec_ttl(),
                        now,
                    ),
            },
    {
        let n = self.entries.len();
        let mut i: usize = 0;
        proof {
            assert(self.entries@.skip(0) =~= self.entries@);
        }
        while i < n
            invariant
                i <= n,
                n == self.entries@.len(),
                lookup_dir(self.entries@, dir@) == lookup_dir(self.entries@.skip(i as int), dir@),
            decreases n - i,
        {
            proof {
                let s = self.entries@.skip(i as int);
                assert(s.first() == self.entries@[i as int]);
                assert(s.drop_first() =~= self.entries@.skip(i + 1));
            }
            let e = &self.entries[i];
            if str_eq(e.key.as_str(), dir) {
                proof {
                    assert(lookup_dir(self.entries@, dir@) == Some(self.entries@[i as int]));
                }
                if e.recorded_at <= now && now - e.recorded_at < self.ttl {
                    proof {
                        let w = self.entries@[i as int];
                        assert(dir_entry_live(w, self.spec_ttl(), now));
                        assert(exists|x: DirEntry|
                            lookup_dir(self.spec_entries(), dir@) == Some(x) && dir_entry_live(
                                x,
                                self.spec_ttl(),
                                now,
                            ) && w.entries@ == x.entries@);
                    }
                    return Some(&e.entries);
                } else {
                    return None;
                }
            }
            i = i + 1;
        }
        proof {
            assert(self.entries@.skip(n as int).len() == 0);
        }
        None
    }

    /// Record a listing for `dir` at tick `now`, replacing any entry with
    /// the same key.
    pub fn insert(&mut self, dir: String, entries: Vec<String>, now: u64)
        ensures
            final(self).spec_ttl() == old(self).spec_ttl(),
            ({
                let e = DirEntry { key: dir, entries, recorded_at: now };
                if exists|i: int|
                    0 <= i < old(self).spec_entries().len() && old(self).spec_entries()[i].key@
                        == dir@ {
                    exists|i: int|
                        {
                            &&& 0 <= i < old(self).spec_entries().len()
                            &&& old(self).spec_entries()[i].key@ == dir@
                            &&& (forall|j: int|
                                0 <= j < i ==> old(self).spec_entries()[j].key@ != dir@)
                            &&& final(self).spec_entries() == old(self).spec_entries().update(i, e)
                        }
                } else {
                    final(self).spec_entries() == old(self).spec_entries().push(e)
                }
            }),
    {
        let n = self.entries.len();
        let mut i: usize = 0;
        while i < n
            invariant
                i <= n,
                n == self.entries@.len(),
                self == old(self),
                forall|j: int| 0 <= j < i ==> self.spec_entries()[j].key@ != dir@,
            decreases n - i,
        {
            if str_eq(self.entries[i].key.as_str(), dir.as_str()) {
                self.entries[i] = DirEntry { key: dir, entries, recorded_at: now };
                return ;
            }
            i = i + 1;
        }
        self.entries.push(DirEntry { key: dir, entries, recorded_at: now });
    }

    /// Remove every entry that is no longer live at `now`.
    pub fn cleanup(&mut self, now: u64)
        ensures
            final(self).spec_ttl() == old(self).spec_ttl(),
            final(self).spec_entries() == live_entries(
                old(self).spec_entries(),
                old(self).spec_ttl(),
                now,
            ),
    {
        let ghost orig = self.entries@;
        let ghost ttl0 = self.ttl;
        let mut i: usize = 0;
        let ghost k: int = 0;
        proof {
            assert(live_entries(orig.take(0), ttl0, now) =~= Seq::<DirEntry>::empty());
            assert(self.entries@ =~= live_entries(orig.take(0), ttl0, now) + orig.skip(0));
        }
        while i < self.entries.len()
            invariant
                self.spec_ttl() == old(self).spec_ttl(),
                self.ttl == ttl0,
                0 <= k <= orig.len(),
                i as int == live_entries(orig.take(k), ttl0, now).len(),
                i <= self.entries@.len(),
                self.entries@ == live_entries(orig.take(k), ttl0, now) + orig.skip(k),
            decreases self.entries@.len() - i,
        {
            proof {
                assert(orig.take(k + 1).drop_last() =~= orig.take(k));
                assert(orig.take(k + 1).last() == orig[k]);
                assert(self.entries@[i as int] == orig.skip(k).first());
                assert(orig.skip(k).first() == orig[k]);
            }
            let e = &self.entries[i];
            if e.recorded_at <= now && now - e.recorded_at < self.ttl {
                proof {
                    assert(live_entries(orig.take(k + 1), ttl0, now) =~= live_entries(
                        orig.take(k),
                        ttl0,
                        now,
                    ).push(orig[k]));
                    assert(live_entries(orig.take(k), ttl0, now).push(orig[k]) + orig.skip(k + 1)
                        =~= live_entries(orig.take(k), ttl0, now) + orig.skip(k));
                }
                i = i + 1;
            } else {
                self.entries.remove(i);
                proof {
                    assert(live_entries(orig.take(k + 1), ttl0, now) =~= live_entries(
                        orig.take(k),
                        ttl0,
                        now,
                    ));
                    assert((live_entries(orig.take(k), ttl0, now) + orig.skip(k)).remove(i as int)
                        =~= live_entries(orig.take(k), ttl0, now) + orig.skip(k + 1));
                }
            }
            proof {
                k = k + 1;
            }
        }
        proof {
            assert(orig.skip(orig.len() as int) =~= Seq::<DirEntry>::empty());
            assert(orig.take(k) =~= orig.take(orig.len() as int));
            assert(orig.take(orig.len() as int) =~= orig);
            assert(live_entries(orig, ttl0, now) + Seq::<DirEntry>::empty() =~= live_entries(
                orig,
                ttl0,
                now,
            ));
        }
    }
}

impl Default for DirectoryCache {
    /// An empty cache with the standard time-to-live.
    fn default() -> (r: Self)
        ensures
            r.spec_entries() == Seq::<DirEntry>::empty(),
            r.spec_ttl() == 5,
    {
        Self::new()
    }
}

/// A search result retained for reuse: its score, origin and text.
#[derive(Debug, Clone, PartialEq, Eq)]
pub struct CachedResult {
    /// Relevance score in `0..=1000`.
    pub score: u32,
    /// The file the line came from.
    pub path: String,
    /// The matched line's text.
    pub line: String,
    /// The line's number in its file.
    pub line_number: usize,
}

/// Cache of the previous query's results, reusable under the loose-prefix
/// policy: the new pattern may extend the cached one or be a prefix of it,
/// by any number of characters, while the entry is within its time-to-live.
pub struct SearchResultCache {
    last_pattern: String,
    last_results: Vec<CachedResult>,
    cached_at: u64,
    ttl: u64,
}

impl SearchResultCache {
    /// The pattern the cached results belong to.
    pub closed spec fn spec_pattern(&self) -> Seq<char> {
        self.last_pattern@
    }

    /// The cached results.
    pub closed spec fn spec_results(&self) -> Seq<CachedResult> {
        self.last_results@
    }

    /// The tick at which the results were recorded.
    pub closed spec fn spec_cached_at(&self) -> u64 {
        self.cached_at
    }

    /// The time-to-live, in ticks.
    pub closed spec fn spec_ttl(&self) -> u64 {
        self.ttl
    }

    /// An empty cache with a ten-tick time-to-live, recorded at tick zero.
    pub fn new() -> (r: Self)
        ensures
            r.spec_pattern() == Seq::<char>::empty(),
            r.spec_results() == Seq::<CachedResult>::empty(),
            r.spec_cached_at() == 0,
            r.spec_ttl() == 10,
    {
        SearchResultCache {
            last_pattern: String::new(),
            last_results: Vec::new(),
            cached_at: 0,
            ttl: 10,
        }
    }

    /// The loose-prefix reuse rule: the cached results are valid for
    /// `pattern` at `now` while they are within their time-to-live and one
    /// pattern is a prefix of the other.
    pub open spec fn spec_is_valid(&self, pattern: Seq<char>, now: u64) -> bool {
        &&& self.spec_cached_at() <= now
        &&& now - self.spec_cached_at() < self.spec_ttl()
        &&& (is_prefix(self.spec_pattern(), pattern) || is_prefix(pattern, self.spec_pattern()))
    }

    /// Are the cached results still usable for `pattern` at `now`?
    pub fn is_valid(&self, pattern: &str, now: u64) -> (r: bool)
        ensures
            r == self.spec_is_valid(pattern@, now),
    {
        if !(self.cached_at <= now && now - self.cached_at < self.ttl) {
            return false;
        }
        let pc = chars_of(pattern);
        let lc = chars_of(self.last_pattern.as_str());
        prefix_chars(pc.as_slice(), lc.as_slice()) || prefix_chars(lc.as_slice(), pc.as_slice())
    }

    /// A copy of the cached results, if they are still usable for `pattern`.
    pub fn get(&self, pattern: &str, now: u64) -> (r: Option<Vec<CachedResult>>)
        ensures
            match r {
                Some(v) => self.spec_is_valid(pattern@, now) && v@ == self.spec_results(),
                None => !self.spec_is_valid(pattern@, now),
            },
    {
        if self.is_valid(pattern, now) {
            let n = self.last_results.len();
            let mut v: Vec<CachedResult> = Vec::new();
            let mut i: usize = 0;
            while i < n
                invariant
                    i <= n,
                    n == self.last_results@.len(),
                    v@ == self.last_results@.take(i as int),
                decreases n - i,
            {
                let e = &self.last_results[i];
                let copy = CachedResult {
                    score: e.score,
                    path: e.path.clone(),
                    line: e.line.clone(),
                    line_number: e.line_number,
                };
                proof {
                    assert(copy == self.last_results@[i as int]);
                }
                v.push(copy);
                proof {
                    assert(v@ =~= self.last_results@.take(i + 1));
                }
                i = i + 1;
            }
            proof {
                assert(self.last_results@.take(n as int) =~= self.last_results@);
            }
            Some(v)
        } else {
            None
        }
    }

    /// Replace the cached results with a new pattern's results at tick
    /// `now`.
    pub fn update(&mut self, pattern: String, results: Vec<CachedResult>, now: u64)
        ensures
            final(self).spec_pattern() == pattern@,
            final(self).spec_results() == results@,
            final(self).spec_cached_at() == now,
            final(self).spec_ttl() == old(self).spec_ttl(),
    {
        self.last_pattern = pattern;
        self.last_results = results;
        self.cached_at = now;
    }

    /// Forget the cached pattern and results; the timestamp is untouched.
    pub fn clear(&mut self)
        ensures
            final(self).spec_pattern() == Seq::<char>::empty(),
            final(self).spec_results() == Seq::<CachedResult>::empty(),
            final(self).spec_cached_at() == old(self).spec_cached_at(),
            final(self).spec_ttl() == old(self).spec_ttl(),
    {
        self.last_pattern = String::new();
        self.last_results = Vec::new();
    }
}

impl Default for SearchResultCache {
    /// An empty cache with the standard time-to-live.
    fn default() -> (r: Self)
        ensures
            r.spec_pattern() == Seq::<char>::empty(),
            r.spec_results() == Seq::<CachedResult>::empty(),
            r.spec_cached_at() == 0,
            r.spec_ttl() == 10,
    {
        Self::new()
    }
}

/// Bounded search configuration: tells a scan loop when it may stop early.
#[derive(Clone, Debug)]
pub struct BoundedSearch {
    /// Maximum number of results to return.
    pub max_results: usize,
    /// Minimum number of distinct matched files before an early stop.
    pub min_results: usize,
    /// Whether to stop early when the limit is reached.
    pub stop_early: bool,
}

impl BoundedSearch {
    /// Create a bounded search with a custom result limit.
    pub fn new(max_results: usize) -> (r: Self)
        ensures
            r.max_results == max_results,
            r.min_results == 10,
            r.stop_early,
    {
        BoundedSearch { max_results, min_results: 10, stop_early: true }
    }

    /// Interactive-editor defaults: at most 50 results, at least 10 files.
    pub fn ide_defaults() -> (r: Self)
        ensures
            r.max_results == 50,
            r.min_results == 10,
            r.stop_early,
    {
        BoundedSearch { max_results: 50, min_results: 10, stop_early: true }
    }

    /// Unlimited results: early stop disabled entirely.
    pub fn unlimited() -> (r: Self)
        ensures
            r.max_results == usize::MAX,
            r.min_results == 0,
            !r.stop_early,
    {
        BoundedSearch { max_results: usize::MAX, min_results: 0, stop_early: false }
    }

    /// Stop only if early stop is enabled, the result count has reached the
    /// maximum, and enough distinct files have matched.
    pub fn should_stop(&self, current_count: usize, files_matched: usize) -> (r: bool)
        ensures
            r == (self.stop_early && current_count >= self.max_results && files_matched
                >= self.min_results),
    {
        self.stop_early && current_count >= self.max_results && files_matched >= self.min_results
    }
}

impl Default for BoundedSearch {
    /// The defaults match `ide_defaults`.
    fn default() -> (r: Self)
        ensures
            r.max_results == 50,
            r.min_results == 10,
            r.stop_early,
    {
        Self::ide_defaults()
    }
}

} // verus!
