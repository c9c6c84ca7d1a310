//! Pattern cache, byte-budget file-content cache, and path filtering.

use vstd::prelude::*;

use crate::text::{chars_of, contains_chars, contains_seq, str_eq};
use vstd::string::StringExecFns;

verus! {

/// Small bounded cache of recently used patterns with first-in-first-out
/// eviction.
pub struct PatternCache {
    keys: Vec<String>,
    max_size: usize,
}

impl PatternCache {
    /// The cached patterns, oldest first.
    pub closed spec fn spec_keys(&self) -> Seq<Seq<char>> {
        self.keys@.map_values(|k: String| k@)
    }

    /// The cache's capacity.
    pub closed spec fn spec_max_size(&self) -> usize {
        self.max_size
    }

    /// An empty cache holding at most `max_size` patterns.
    pub fn new(max_size: usize) -> (r: Self)
        ensures
            r.spec_keys() == Seq::<Seq<char>>::empty(),
            r.spec_max_size() == max_size,
    {
        let r = PatternCache { keys: Vec::with_capacity(max_size), max_size };
        proof {
            assert(r.spec_keys() =~= Seq::<Seq<char>>::empty());
        }
        r
    }

    /// Is the pattern cached?
    pub fn is_cached(&self, pattern: &str) -> (r: bool)
        ensures
            r == self.spec_keys().contains(pattern@),
    {
        let n = self.keys.len();
        let mut i: usize = 0;
        while i < n
            invariant
                i <= n,
                n == self.keys@.len(),
                forall|j: int| 0 <= j < i ==> self.spec_keys()[j] != pattern@,
            decreases n - i,
        {
            if str_eq(self.keys[i].as_str(), pattern) {
                proof {
                    assert(self.spec_keys()[i as int] == pattern@);
                }
                return true;
            }
            i = i + 1;
        }
        proof {
            if self.spec_keys().contains(pattern@) {
                let j = choose|j: int|
                    0 <= j < self.spec_keys().len() && self.spec_keys()[j] == pattern@;
                assert(false);
            }
        }
        false
    }

    /// Add a pattern; when the cache is full, the oldest pattern leaves.
    pub fn add(&mut self, pattern: String)
        requires
            old(self).spec_max_size() > 0,
        ensures
            final(self).spec_max_size() == old(self).spec_max_size(),
            final(self).spec_keys() == if old(self).spec_keys().len() < old(
                self,
            ).spec_max_size() {
                old(self).spec_keys().push(pattern@)
            } else {
                old(self).spec_keys().drop_first().push(pattern@)
            },
    {
        if self.keys.len() < self.max_size {
            self.keys.push(pattern);
            proof {
                assert(self.spec_keys() =~= old(self).spec_keys().push(pattern@));
            }
        } else {
            self.keys.remove(0);
            self.keys.push(pattern);
            proof {
                assert(self.spec_keys() =~= old(self).spec_keys().drop_first().push(pattern@));
            }
        }
    }

    /// Forget every cached pattern.
    pub fn clear(&mut self)
        ensures
            final(self).spec_keys() == Seq::<Seq<char>>::empty(),
            final(self).spec_max_size() == old(self).spec_max_size(),
    {
        self.keys.clear();
        proof {
            assert(self.spec_keys() =~= Seq::<Seq<char>>::empty());
        }
    }

    /// How many patterns are cached.
    pub fn len(&self) -> (r: usize)
        ensures
            r == self.spec_keys().len(),
    {
        self.keys.len()
    }
}

impl Default for PatternCache {
    /// A cache holding at most one hundred patterns.
    fn default() -> (r: Self)
        ensures
            r.spec_keys() == Seq::<Seq<char>>::empty(),
            r.spec_max_size() == 100,
    {
        Self::new(100)
    }
}

/// One cached file: its path and raw contents.
pub struct FileEntry {
    /// The file's path.
    pub path: String,
    /// The file's raw bytes.
    pub content: Vec<u8>,
}

/// The total size in bytes of the cached contents.
pub open spec fn size_sum(s: Seq<FileEntry>) -> int
    decreases s.len(),
{
    if s.len() == 0 {
        0
    } else {
        s.first().content@.len() + size_sum(s.drop_first())
    }
}

/// The total size is never negative.
proof fn lemma_size_sum_nonneg(s: Seq<FileEntry>)
    ensures
        size_sum(s) >= 0,
    decreases s.len(),
{
    if s.len() == 0 {
    } else {
        lemma_size_sum_nonneg(s.drop_first());
    }
}

/// The newest entry with the given path, scanning from the most recent.
pub open spec fn lookup_file(s: Seq<FileEntry>, key: Seq<char>) -> Option<FileEntry>
    decreases s.len(),
{
    if s.len() == 0 {
        None
    } else if s.last().path@ == key {
        Some(s.last())
    } else {
        lookup_file(s.drop_last(), key)
    }
}

/// Byte-budget cache of file contents in insertion order. Eviction is
/// capacity-driven and strictly first-in-first-out; a single buffer larger
/// than the whole budget is never stored.
pub struct FileContentCache {
    entries: Vec<FileEntry>,
    max_size_bytes: usize,
    current_size_bytes: usize,
}

impl FileContentCache {
    /// The cached files, oldest first.
    pub closed spec fn spec_entries(&self) -> Seq<FileEntry> {
        self.entries@
    }

    /// The byte budget.
    pub closed spec fn spec_max_size(&self) -> usize {
        self.max_size_bytes
    }

    /// The running total of cached bytes.
    pub closed spec fn spec_current_size(&self) -> usize {
        self.current_size_bytes
    }

    /// The cache accounts its bytes exactly, stays within its budget, and
    /// holds no single buffer above the budget.
    pub open spec fn wf(&self) -> bool {
        &&& self.spec_current_size() == size_sum(self.spec_entries())
        &&& self.spec_current_size() <= self.spec_max_size()
        &&& forall|i: int|
            0 <= i < self.spec_entries().len() ==> self.spec_entries()[i].content@.len()
                <= self.spec_max_size()
    }

    /// An empty cache with the given byte budget.
    pub fn new(max_size_bytes: usize) -> (r: Self)
        ensures
            r.spec_entries() == Seq::<FileEntry>::empty(),
            r.spec_max_size() == max_size_bytes,
            r.wf(),
    {
        FileContentCache {
            entries: Vec::with_capacity(256),
            max_size_bytes,
            current_size_bytes: 0,
        }
    }

    /// The cached content for `path`, if present.
    pub fn get(&self, path: &str) -> (r: Option<&Vec<u8>>)
        ensures
            match r {
                Some(v) => lookup_file(self.spec_entries(), path@) matches Some(e) && v@
                    == e.content@,
                None => lookup_file(self.spec_entries(), path@) is None,
            },
    {
        let mut i: usize = self.entries.len();
        proof {
            assert(self.entries@.take(i as int) =~= self.entries@);
        }
        while i > 0
            invariant
                i <= self.entries@.len(),
                lookup_file(self.entries@, path@) == lookup_file(
                    self.entries@.take(i as int),
                    path@,
                ),
            decreases i,
        {
            proof {
                let s = self.entries@.take(i as int);
                assert(s.last() == self.entries@[i - 1]);
                assert(s.drop_last() =~= self.entries@.take(i - 1));
            }
            let e = &self.entries[i - 1];
            if str_eq(e.path.as_str(), path) {
                proof {
                    let w = self.entries@[i - 1];
                    assert(lookup_file(self.spec_entries(), path@) == Some(w));
                }
                return Some(&e.content);
            }
            i = i - 1;
        }
        None
    }

    /// Store a file's contents. A buffer larger than the budget is silently
    /// rejected; otherwise the oldest entries are evicted, strictly in
    /// insertion order, until the new buffer fits, and it is appended.
    pub fn insert(&mut self, path: String, content: Vec<u8>)
        requires
            old(self).wf(),
        ensures
            final(self).wf(),
            final(self).spec_max_size() == old(self).spec_max_size(),
            content@.len() > old(self).spec_max_size() ==> final(self).spec_entries() == old(
                self,
            ).spec_entries() && final(self).spec_current_size() == old(self).spec_current_size(),
            content@.len() <= old(self).spec_max_size() ==> exists|k: int|
                {
                    &&& 0 <= k <= old(self).spec_entries().len()
                    &&& final(self).spec_entries() == old(self).spec_entries().skip(k).push(
                        FileEntry { path, content },
                    )
                    &&& size_sum(old(self).spec_entries().skip(k)) + content@.len() <= old(
                        self,
                    ).spec_max_size()
                    &&& (k == 0 || size_sum(old(self).spec_entries().skip(k - 1)) + content@.len()
                        > old(self).spec_max_size())
                },
    {
        let size = content.len();
        if size > self.max_size_bytes {
            return ;
        }
        let ghost orig = self.entries@;
        let ghost k: int = 0;
        proof {
            assert(orig.skip(0) =~= orig);
        }
        while self.current_size_bytes > self.max_size_bytes - size && self.entries.len() > 0
            invariant
                self.max_size_bytes == old(self).spec_max_size(),
                size == content@.len(),
                size <= self.max_size_bytes,
                0 <= k <= orig.len(),
                self.entries@ == orig.skip(k),
                self.current_size_bytes == size_sum(self.entries@),
                self.current_size_bytes <= self.max_size_bytes,
                forall|i: int|
                    0 <= i < self.entries@.len() ==> self.entries@[i].content@.len()
                        <= self.max_size_bytes,
                k == 0 || size_sum(orig.skip(k - 1)) + size > self.max_size_bytes,
            decreases self.entries@.len(),
        {
            proof {
                let s = self.entries@;
                assert(s.first() == self.entries@[0]);
                assert(s.drop_first() =~= orig.skip(k + 1));
                lemma_size_sum_nonneg(s.drop_first());
            }
            let removed_len = self.entries[0].content.len();
            self.entries.remove(0);
            proof {
                assert(self.entries@ =~= orig.skip(k + 1));
            }
            self.current_size_bytes = self.current_size_bytes - removed_len;
            proof {
                k = k + 1;
            }
        }
        proof {
            if self.entries@.len() == 0 {
                assert(size_sum(self.entries@) == 0);
            }
            assert(self.current_size_bytes + size <= self.max_size_bytes);
        }
        self.current_size_bytes = self.current_size_bytes + size;
        let ghost e = FileEntry { path: path, content: content };
        self.entries.push(FileEntry { path, content });
        proof {
            let s = self.entries@;
            assert(s.drop_last() =~= orig.skip(k));
            lemma_size_sum_last(s);
            assert(exists|kk: int|
                {
                    &&& 0 <= kk <= orig.len()
                    &&& self.entries@ == orig.skip(kk).push(e)
                    &&& size_sum(orig.skip(kk)) + content@.len() <= old(self).spec_max_size()
                    &&& (kk == 0 || size_sum(orig.skip(kk - 1)) + content@.len() > old(
                        self,
                    ).spec_max_size())
                }) by {
                assert({
                    &&& 0 <= k <= orig.len()
                    &&& self.entries@ == orig.skip(k).push(e)
                    &&& size_sum(orig.skip(k)) + content@.len() <= old(self).spec_max_size()
                    &&& (k == 0 || size_sum(orig.skip(k - 1)) + content@.len() > old(
                        self,
                    ).spec_max_size())
                });
            }
        }
    }

    /// Forget every cached file.
    pub fn clear(&mut self)
        ensures
            final(self).wf(),
            final(self).spec_entries() == Seq::<FileEntry>::empty(),
            final(self).spec_max_size() == old(self).spec_max_size(),
            final(self).spec_current_size() == 0,
    {
        self.entries.clear();
        self.current_size_bytes = 0;
    }

    /// How many files are cached, and their total size in bytes.
    pub fn stats(&self) -> (r: (usize, usize))
        ensures
            r.0 == self.spec_entries().len(),
            r.1 == self.spec_current_size(),
    {
        (self.entries.len(), self.current_size_bytes)
    }
}

impl Default for FileContentCache {
    /// A cache with a five-hundred-megabyte budget.
    fn default() -> (r: Self)
        ensures
            r.spec_entries() == Seq::<FileEntry>::empty(),
            r.spec_max_size() == 500_000_000,
            r.wf(),
    {
        Self::new(500_000_000)
    }
}

/// The total size looked at from the newest entry.
proof fn lemma_size_sum_last(s: Seq<FileEntry>)
    requires
        s.len() > 0,
    ensures
        size_sum(s) == size_sum(s.drop_last()) + s.last().content@.len(),
    decreases s.len(),
{
    if s.len() == 1 {
        assert(s.drop_last() =~= Seq::<FileEntry>::empty());
        assert(s.drop_first() =~= Seq::<FileEntry>::empty());
    } else {
        lemma_size_sum_last(s.drop_first());
        assert(s.drop_first().drop_last() =~= s.drop_last().drop_first());
        assert(s.drop_last().first() == s.first());
        assert(s.drop_first().last() == s.last());
    }
}

/// The fixed list of directory names that prune a path outright:
/// version-control metadata, build output, dependency directories and
/// caches.
pub open spec fn default_deny_list() -> Seq<Seq<char>> {
    seq![
        "node_modules"@,
        ".git"@,
        "target"@,
        "build"@,
        "dist"@,
        ".cache"@,
        "__pycache__"@,
        ".venv"@,
        "vendor"@,
    ]
}

/// A path matches the deny list when any listed name occurs in it as a raw
/// substring; segment boundaries are deliberately not enforced.
pub open spec fn matches_deny(path: Seq<char>, dirs: Seq<Seq<char>>) -> bool {
    exists|k: int| 0 <= k < dirs.len() && contains_seq(path, dirs[k])
}

/// Number of zero bytes.
pub open spec fn count_nulls(s: Seq<u8>) -> nat
    decreases s.len(),
{
    if s.len() == 0 {
        0
    } else {
        (if s.first() == 0 {
            1nat
        } else {
            0nat
        }) + count_nulls(s.drop_first())
    }
}

/// Number of adjacent byte pairs in which either byte is zero.
pub open spec fn count_null_windows(s: Seq<u8>) -> nat
    decreases s.len(),
{
    if s.len() < 2 {
        0
    } else {
        (if s[0] == 0 || s[1] == 0 {
            1nat
        } else {
            0nat
        }) + count_null_windows(s.drop_first())
    }
}

/// The binary heuristic over the first kilobyte: no zero bytes means text;
/// zero bytes that are dense enough (more than four fifths of the bytes are
/// zero or adjacent to a zero) look like wide-character text; sparse zero
/// bytes mean binary.
pub open spec fn spec_is_binary(skip_binary: bool, content: Seq<u8>) -> bool {
    if !skip_binary || content.len() == 0 {
        false
    } else {
        let checked = content.take(
            if content.len() < 1024 {
                content.len() as int
            } else {
                1024
            },
        );
        let n = count_nulls(checked);
        let pairs = count_null_windows(checked);
        n > 0 && (n + pairs) * 5 <= checked.len() * 4
    }
}

/// Filter pruning paths before they reach caching or scoring.
pub struct PathFilter {
    /// Files larger than this many bytes are skipped.
    pub max_file_size: u64,
    /// Whether binary-looking content is skipped.
    pub skip_binary: bool,
    /// The deny-listed directory names.
    pub skip_dirs: Vec<String>,
}

impl PathFilter {
    /// The deny-listed directory names, as character sequences.
    pub open spec fn spec_skip_dirs(&self) -> Seq<Seq<char>> {
        self.skip_dirs@.map_values(|d: String| d@)
    }

    /// The standard filter: a one-megabyte size limit, binary skipping on,
    /// and the fixed deny list.
    pub fn default_filter() -> (r: Self)
        ensures
            r.max_file_size == 1_000_000,
            r.skip_binary,
            r.spec_skip_dirs() == default_deny_list(),
    {
        let mut dirs: Vec<String> = Vec::new();
        dirs.push(String::from_str("node_modules"));
        dirs.push(String::from_str(".git"));
        dirs.push(String::from_str("target"));
        dirs.push(String::from_str("build"));
        dirs.push(String::from_str("dist"));
        dirs.push(String::from_str(".cache"));
        dirs.push(String::from_str("__pycache__"));
        dirs.push(String::from_str(".venv"));
        dirs.push(String::from_str("vendor"));
        let r = PathFilter { max_file_size: 1_000_000, skip_binary: true, skip_dirs: dirs };
        proof {
            assert(r.spec_skip_dirs() =~= default_deny_list());
        }
        r
    }

    /// Does the path contain a deny-listed directory name as a raw
    /// substring?
    #[verifier::loop_isolation(false)]
    pub fn matches_deny_list(&self, path: &str) -> (r: bool)
        ensures
            r == matches_deny(path@, self.spec_skip_dirs()),
    {
        let pc = chars_of(path);
        let n = self.skip_dirs.len();
        let mut i: usize = 0;
        while i < n
            invariant
                i <= n,
                n == self.spec_skip_dirs().len(),
                forall|k: int| 0 <= k < i ==> !contains_seq(path@, self.spec_skip_dirs()[k]),
            decreases n - i,
        {
            let dc = chars_of(self.skip_dirs[i].as_str());
            proof {
                assert(self.spec_skip_dirs()[i as int] == self.skip_dirs@[i as int]@);
            }
            if contains_chars(pc.as_slice(), dc.as_slice()) {
                proof {
                    assert(contains_seq(path@, self.spec_skip_dirs()[i as int]));
                }
                return true;
            }
            i = i + 1;
        }
        false
    }

    /// Is a file of this size over the configured limit?
    pub fn exceeds_max_size(&self, file_size: u64) -> (r: bool)
        ensures
            r == (file_size > self.max_file_size),
    {
        file_size > self.max_file_size
    }

    /// Does the content look binary? Inspects at most the first kilobyte;
    /// content with no zero bytes is never binary, and dense zero bytes are
    /// taken for wide-character text rather than binary data.
    #[verifier::loop_isolation(false)]
    pub fn is_binary(&self, content: &[u8]) -> (r: bool)
        ensures
            r == spec_is_binary(self.skip_binary, content@),
    {
        if !self.skip_binary || content.is_empty() {
            return false;
        }
        let check_len: usize = if content.len() < 1024 {
            content.len()
        } else {
            1024
        };
        let cs = &content[0..check_len];
        proof {
            assert(cs@ == content@.take(check_len as int));
            assert(cs@.skip(0) =~= cs@);
        }
        let mut nulls: usize = 0;
        let mut pairs: usize = 0;
        let mut i: usize = 0;
        while i < check_len
            invariant
                i <= check_len,
                check_len == cs@.len(),
                nulls <= i,
                pairs <= i,
                count_nulls(cs@) == nulls + count_nulls(cs@.skip(i as int)),
                count_null_windows(cs@) == pairs + count_null_windows(cs@.skip(i as int)),
            decreases check_len - i,
        {
            proof {
                let t = cs@.skip(i as int);
                assert(t.first() == cs@[i as int]);
                if t.len() >= 2 {
                    assert(t[1] == cs@[i + 1]);
                }
                assert(t.drop_first() =~= cs@.skip(i + 1));
            }
            if cs[i] == 0 {
                nulls = nulls + 1;
            }
            if i + 1 < check_len {
                if cs[i] == 0 || cs[i + 1] == 0 {
                    pairs = pairs + 1;
                }
            }
            i = i + 1;
        }
        proof {
            assert(cs@.skip(check_len as int).len() == 0);
        }
        if nulls == 0 {
            return false;
        }
        (nulls + pairs) * 5 <= check_len * 4
    }
}

impl Default for PathFilter {
    /// The standard filter.
    fn default() -> (r: Self)
        ensures
            r.max_file_size == 1_000_000,
            r.skip_binary,
            r.spec_skip_dirs() == default_deny_list(),
    {
        Self::default_filter()
    }
}

/// Raw byte-level substring test: does `needle` occur contiguously in
/// `haystack`? An empty needle always matches.
pub fn bytes_contains(haystack: &[u8], needle: &[u8]) -> (r: bool)
    ensures
        r == (needle@.len() == 0 || exists|i: int|
            crate::simd::byte_match_at(haystack@, needle@, i)),
{
    if needle.is_empty() {
        return true;
    }
    if needle.len() > haystack.len() {
        proof {
            assert forall|i: int| !crate::simd::byte_match_at(haystack@, needle@, i) by {}
        }
        return false;
    }
    let last = haystack.len() - needle.len();
    let mut i: usize = 0;
    loop
        invariant
            i <= last,
            last == haystack@.len() - needle@.len(),
            needle@.len() > 0,
            forall|j: int| 0 <= j < i ==> !crate::simd::byte_match_at(haystack@, needle@, j),
        decreases last - i,
    {
        if crate::simd::SimdMatcher::bytes_match_at(haystack, needle, i) {
            return true;
        }
        if i == last {
            proof {
                assert forall|j: int|
                    !crate::simd::byte_match_at(haystack@, needle@, j) by {}
            }
            return false;
        }
        i = i + 1;
    }
}

} // verus!
