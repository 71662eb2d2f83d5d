//! The attribution store: one record per canonical path, with the creator
//! (the first non-ignored accessor) and the last accessor of that path.

use vstd::prelude::*;
use vstd::slice::slice_to_vec;
use crate::text::{chars_of, has_infix, has_infix_chars, has_prefix, has_prefix_at, string_of, trim_end_char, trim_end_char_len};

verus! {

/// The sentinel package name of a record whose creator is not known yet.
pub open spec fn unknown_name() -> Seq<char> {
    seq!['u', 'n', 'k', 'n', 'o', 'w', 'n']
}

pub fn unknown_string() -> (r: String)
    ensures
        r@ == unknown_name(),
{
    let v: Vec<char> = vec!['u', 'n', 'k', 'n', 'o', 'w', 'n'];
    assert(v@ =~= unknown_name());
    string_of(v.as_slice())
}

/// One attribution record; timestamps are seconds since the Unix epoch.
pub struct FileRecord {
    pub path: String,
    pub created_by_package: String,
    pub created_by_process: String,
    pub created_at: i64,
    pub last_accessed_by_package: String,
    pub last_accessed_by_process: String,
    pub last_accessed_at: i64,
}

pub struct RecordView {
    pub path: Seq<char>,
    pub created_by_package: Seq<char>,
    pub created_by_process: Seq<char>,
    pub created_at: i64,
    pub last_accessed_by_package: Seq<char>,
    pub last_accessed_by_process: Seq<char>,
    pub last_accessed_at: i64,
}

impl View for FileRecord {
    type V = RecordView;

    open spec fn view(&self) -> RecordView {
        RecordView {
            path: self.path@,
            created_by_package: self.created_by_package@,
            created_by_process: self.created_by_process@,
            created_at: self.created_at,
            last_accessed_by_package: self.last_accessed_by_package@,
            last_accessed_by_process: self.last_accessed_by_process@,
            last_accessed_at: self.last_accessed_at,
        }
    }
}

impl FileRecord {
    pub fn duplicate(&self) -> (r: FileRecord)
        ensures
            r@ == self@,
    {
        FileRecord {
            path: self.path.clone(),
            created_by_package: self.created_by_package.clone(),
            created_by_process: self.created_by_process.clone(),
            created_at: self.created_at,
            last_accessed_by_package: self.last_accessed_by_package.clone(),
            last_accessed_by_process: self.last_accessed_by_process.clone(),
            last_accessed_at: self.last_accessed_at,
        }
    }
}

/// Index of the first record at or after `i` whose path is `path`, or `s.len()`.
pub open spec fn find_path(s: Seq<RecordView>, path: Seq<char>, i: int) -> int
    decreases s.len() - i,
{
    if i < 0 || i >= s.len() {
        s.len() as int
    } else if s[i].path == path {
        i
    } else {
        find_path(s, path, i + 1)
    }
}

/// The record of `path`, if any.
pub open spec fn lookup(s: Seq<RecordView>, path: Seq<char>) -> Option<RecordView> {
    let i = find_path(s, path, 0);
    if i < s.len() {
        Some(s[i])
    } else {
        None
    }
}

/// No two records share a path.
pub open spec fn unique_paths(s: Seq<RecordView>) -> bool {
    forall|i: int, j: int| 0 <= i < s.len() && 0 <= j < s.len() && i != j ==> s[i].path != s[j].path
}

/// The record of `path` after one access at time `now`.
///
/// Every access sets the last accessor. A new record takes its creator
/// from a non-ignored access, or `unknown` from an ignored one; an
/// existing record with an `unknown` creator is promoted by the first
/// non-ignored access; a known creator never changes.
pub open spec fn accessed(
    old: Option<RecordView>,
    path: Seq<char>,
    package: Seq<char>,
    process: Seq<char>,
    ignored: bool,
    now: i64,
) -> RecordView {
    match old {
        None => RecordView {
            path,
            created_by_package: if ignored {
                unknown_name()
            } else {
                package
            },
            created_by_process: process,
            created_at: now,
            last_accessed_by_package: package,
            last_accessed_by_process: process,
            last_accessed_at: now,
        },
        Some(o) => if !ignored && o.created_by_package == unknown_name() {
            RecordView {
                path: o.path,
                created_by_package: package,
                created_by_process: process,
                created_at: now,
                last_accessed_by_package: package,
                last_accessed_by_process: process,
                last_accessed_at: now,
            }
        } else {
            RecordView {
                last_accessed_by_package: package,
                last_accessed_by_process: process,
                last_accessed_at: now,
                ..o
            }
        },
    }
}

/// The records after one access of `path`.
pub open spec fn after_access(
    s: Seq<RecordView>,
    path: Seq<char>,
    package: Seq<char>,
    process: Seq<char>,
    ignored: bool,
    now: i64,
) -> Seq<RecordView> {
    let i = find_path(s, path, 0);
    if i < s.len() {
        s.update(i, accessed(Some(s[i]), path, package, process, ignored, now))
    } else {
        s.push(accessed(None, path, package, process, ignored, now))
    }
}

pub proof fn lemma_find_path(s: Seq<RecordView>, path: Seq<char>, i: int)
    requires
        0 <= i <= s.len(),
    ensures
        i <= find_path(s, path, i) <= s.len(),
        find_path(s, path, i) < s.len() ==> s[find_path(s, path, i)].path == path,
        forall|j: int| i <= j < find_path(s, path, i) ==> #[trigger] s[j].path != path,
    decreases s.len() - i,
{
    if i < s.len() && s[i].path != path {
        lemma_find_path(s, path, i + 1);
    }
}

/// The attribution store, held in memory; `wf` is its invariant.
pub struct Database {
    records: Vec<FileRecord>,
}

impl View for Database {
    type V = Seq<RecordView>;

    closed spec fn view(&self) -> Seq<RecordView> {
        self.records@.map_values(|r: FileRecord| r@)
    }
}

impl Database {
    /// At most one record per path.
    pub open spec fn wf(&self) -> bool {
        unique_paths(self@)
    }

    pub fn new() -> (r: Database)
        ensures
            r.wf(),
            r@ == Seq::<RecordView>::empty(),
    {
        let r = Database { records: Vec::new() };
        assert(r@ =~= Seq::<RecordView>::empty());
        r
    }

    pub fn len(&self) -> (r: usize)
        ensures
            r == self@.len(),
    {
        self.records.len()
    }

    /// Position of the record of `path`.
    fn position(&self, path: &String) -> (r: usize)
        ensures
            r == find_path(self@, path@, 0),
    {
        let mut i: usize = 0;
        while i < self.records.len()
            invariant
                i <= self@.len(),
                self@.len() == self.records@.len(),
                find_path(self@, path@, 0) == find_path(self@, path@, i as int),
            decreases self@.len() - i,
        {
            if self.records[i].path == *path {
                return i;
            }
            i = i + 1;
        }
        i
    }

    /// The record of `path`, if any.
    pub fn get(&self, path: &str) -> (r: Option<FileRecord>)
        ensures
            match r {
                Some(x) => lookup(self@, path@) == Some(x@),
                None => lookup(self@, path@) is None,
            },
    {
        let p = path.to_owned();
        let i = self.position(&p);
        if i < self.records.len() {
            Some(self.records[i].duplicate())
        } else {
            None
        }
    }

    /// Whether a record of `path` exists.
    pub fn path_exists(&self, path: &str) -> (r: bool)
        ensures
            r == lookup(self@, path@) is Some,
    {
        let p = path.to_owned();
        let i = self.position(&p);
        i < self.records.len()
    }

    /// Whether a record of `path` exists with a creator other than `unknown`.
    pub fn path_has_known_creator(&self, path: &str) -> (r: bool)
        ensures
            r == (lookup(self@, path@) is Some && lookup(self@, path@)->0.created_by_package
                != unknown_name()),
    {
        let p = path.to_owned();
        let i = self.position(&p);
        if i < self.records.len() {
            let u = unknown_string();
            !(self.records[i].created_by_package == u)
        } else {
            false
        }
    }

    /// Puts `record` in the store, replacing any record of the same path.
    pub fn insert_record(&mut self, record: FileRecord)
        requires
            old(self).wf(),
        ensures
            final(self).wf(),
            ({
                let i = find_path(old(self)@, record@.path, 0);
                if i < old(self)@.len() {
                    final(self)@ == old(self)@.update(i, record@)
                } else {
                    final(self)@ == old(self)@.push(record@)
                }
            }),
    {
        let i = self.position(&record.path);
        proof {
            lemma_find_path(self@, record@.path, 0);
        }
        if i < self.records.len() {
            self.records.set(i, record);
        } else {
            self.records.push(record);
        }
        assert(self@ =~= if i < old(self)@.len() {
            old(self)@.update(i as int, record@)
        } else {
            old(self)@.push(record@)
        });
    }

    /// Records one access of `path` at time `now` (seconds since the Unix
    /// epoch, read by the caller): see `accessed`.
    pub fn record_access(
        &mut self,
        path: &str,
        package: &str,
        process: &str,
        is_ignored: bool,
        now: i64,
    )
        requires
            old(self).wf(),
        ensures
            final(self).wf(),
            final(self)@ == after_access(old(self)@, path@, package@, process@, is_ignored, now),
    {
        let p = path.to_owned();
        let i = self.position(&p);
        proof {
            lemma_find_path(self@, path@, 0);
        }
        let pkg = package.to_owned();
        let prc = process.to_owned();
        if i < self.records.len() {
            let u = unknown_string();
            let old_rec = self.records[i].duplicate();
            let promote = !is_ignored && old_rec.created_by_package == u;
            let rec = if promote {
                FileRecord {
                    path: old_rec.path,
                    created_by_package: pkg.clone(),
                    created_by_process: prc.clone(),
                    created_at: now,
                    last_accessed_by_package: pkg,
                    last_accessed_by_process: prc,
                    last_accessed_at: now,
                }
            } else {
                FileRecord {
                    path: old_rec.path,
                    created_by_package: old_rec.created_by_package,
                    created_by_process: old_rec.created_by_process,
                    created_at: old_rec.created_at,
                    last_accessed_by_package: pkg,
                    last_accessed_by_process: prc,
                    last_accessed_at: now,
                }
            };
            self.insert_record(rec);
        } else {
            let creator = if is_ignored {
                unknown_string()
            } else {
                pkg.clone()
            };
            let rec = FileRecord {
                path: p,
                created_by_package: creator,
                created_by_process: prc.clone(),
                created_at: now,
                last_accessed_by_package: pkg,
                last_accessed_by_process: prc,
                last_accessed_at: now,
            };
            self.insert_record(rec);
        }
    }
}


proof fn lemma_lookup_at(s: Seq<RecordView>, q: Seq<char>, k: int)
    requires
        unique_paths(s),
        0 <= k < s.len(),
        s[k].path == q,
    ensures
        lookup(s, q) == Some(s[k]),
{
    lemma_find_path(s, q, 0);
}

proof fn lemma_lookup_some(s: Seq<RecordView>, q: Seq<char>)
    requires
        lookup(s, q) is Some,
    ensures
        0 <= find_path(s, q, 0) < s.len(),
        s[find_path(s, q, 0)].path == q,
        lookup(s, q)->0 == s[find_path(s, q, 0)],
{
    lemma_find_path(s, q, 0);
}

/// Every access keeps the store at one record per path.
pub proof fn lemma_access_keeps_unique(
    s: Seq<RecordView>,
    path: Seq<char>,
    package: Seq<char>,
    process: Seq<char>,
    ignored: bool,
    now: i64,
)
    requires
        unique_paths(s),
    ensures
        unique_paths(after_access(s, path, package, process, ignored, now)),
        lookup(after_access(s, path, package, process, ignored, now), path) is Some,
{
    lemma_find_path(s, path, 0);
    let i = find_path(s, path, 0);
    let t = after_access(s, path, package, process, ignored, now);
    if i < s.len() {
        assert(t[i].path == path);
        lemma_lookup_at(t, path, i);
    } else {
        assert(t[s.len() as int].path == path);
        lemma_lookup_at(t, path, s.len() as int);
    }
}

/// Once a record's creator is a real package, no access changes its
/// creator fields.
pub proof fn lemma_known_creator_is_kept(
    s: Seq<RecordView>,
    q: Seq<char>,
    path: Seq<char>,
    package: Seq<char>,
    process: Seq<char>,
    ignored: bool,
    now: i64,
)
    requires
        unique_paths(s),
        lookup(s, q) is Some,
        lookup(s, q)->0.created_by_package != unknown_name(),
    ensures
        ({
            let o = lookup(s, q)->0;
            let n = lookup(after_access(s, path, package, process, ignored, now), q);
            n is Some && n->0.created_by_package == o.created_by_package
                && n->0.created_by_process == o.created_by_process && n->0.created_at
                == o.created_at
        }),
{
    lemma_lookup_some(s, q);
    lemma_access_keeps_unique(s, path, package, process, ignored, now);
    lemma_find_path(s, path, 0);
    let k = find_path(s, q, 0);
    let t = after_access(s, path, package, process, ignored, now);
    lemma_lookup_at(t, q, k);
}

/// An access at a time no earlier than the record's last access never moves
/// a record's last access time back; other records keep theirs.
pub proof fn lemma_last_access_monotonic(
    s: Seq<RecordView>,
    q: Seq<char>,
    path: Seq<char>,
    package: Seq<char>,
    process: Seq<char>,
    ignored: bool,
    now: i64,
)
    requires
        unique_paths(s),
        lookup(s, q) is Some,
        q == path ==> now >= lookup(s, q)->0.last_accessed_at,
    ensures
        ({
            let n = lookup(after_access(s, path, package, process, ignored, now), q);
            n is Some && n->0.last_accessed_at >= lookup(s, q)->0.last_accessed_at
        }),
{
    lemma_lookup_some(s, q);
    lemma_access_keeps_unique(s, path, package, process, ignored, now);
    lemma_find_path(s, path, 0);
    let k = find_path(s, q, 0);
    let t = after_access(s, path, package, process, ignored, now);
    lemma_lookup_at(t, q, k);
}


pub open spec fn string_views(v: Seq<String>) -> Seq<Seq<char>> {
    v.map_values(|x: String| x@)
}

pub open spec fn record_views(v: Seq<FileRecord>) -> Seq<RecordView> {
    v.map_values(|r: FileRecord| r@)
}

/// The distinct creator packages of the records.
pub open spec fn creators(s: Seq<RecordView>) -> Set<Seq<char>> {
    Set::new(|c: Seq<char>| exists|i: int| 0 <= i < s.len() && #[trigger] s[i].created_by_package == c)
}

/// Creator packages that are neither installed nor the `unknown` sentinel.
pub open spec fn orphans_of(s: Seq<RecordView>, installed: Seq<Seq<char>>) -> Set<Seq<char>> {
    creators(s).difference(installed.to_set()).remove(unknown_name())
}

pub fn contains_string(v: &Vec<String>, x: &String) -> (r: bool)
    ensures
        r == string_views(v@).contains(x@),
{
    let mut i: usize = 0;
    while i < v.len()
        invariant
            i <= v@.len(),
            forall|j: int| 0 <= j < i ==> v@[j]@ != x@,
        decreases v@.len() - i,
    {
        if v[i] == *x {
            assert(string_views(v@)[i as int] == x@);
            return true;
        }
        i = i + 1;
    }
    assert forall|j: int| 0 <= j < string_views(v@).len() implies string_views(v@)[j] != x@ by {
        assert(string_views(v@)[j] == v@[j]@);
    }
    false
}

impl Database {
    fn record(&self, i: usize) -> (r: &FileRecord)
        requires
            i < self@.len(),
        ensures
            r@ == self@[i as int],
    {
        &self.records[i]
    }

    /// Distinct creator packages that are not in `installed` and are not
    /// `unknown`, in the order of their first record.
    pub fn get_orphans(&self, installed: &Vec<String>) -> (r: Vec<String>)
        ensures
            string_views(r@).no_duplicates(),
            string_views(r@).to_set() == orphans_of(self@, string_views(installed@)),
    {
        let mut out: Vec<String> = Vec::new();
        let mut i: usize = 0;
        let u = unknown_string();
        while i < self.records.len()
            invariant
                i <= self@.len(),
                self@.len() == self.records@.len(),
                u@ == unknown_name(),
                string_views(out@).no_duplicates(),
                forall|c: Seq<char>|
                    string_views(out@).contains(c) <==> ((exists|j: int|
                        0 <= j < i && #[trigger] self@[j].created_by_package == c)
                        && !string_views(installed@).contains(c) && c != unknown_name()),
            decreases self@.len() - i,
        {
            let c = &self.record(i).created_by_package;
            let known = !(*c == u);
            let seen = contains_string(&out, c);
            let inst = contains_string(installed, c);
            let ghost before = out@;
            let pushed = known && !seen && !inst;
            if pushed {
                out.push(c.clone());
                assert(string_views(out@) =~= string_views(before).push(c@));
            }
            assert(self@[i as int].created_by_package == c@);
            assert forall|x: Seq<char>|
                string_views(out@).contains(x) <==> ((exists|j: int|
                    0 <= j < i + 1 && #[trigger] self@[j].created_by_package == x)
                    && !string_views(installed@).contains(x) && x != unknown_name()) by {
                if pushed {
                    let sb = string_views(before);
                    assert(string_views(out@)[sb.len() as int] == c@);
                    if sb.contains(x) {
                        let k = choose|k: int| 0 <= k < sb.len() && sb[k] == x;
                        assert(string_views(out@)[k] == x);
                    }
                    if string_views(out@).contains(x) {
                        let k = choose|k: int|
                            0 <= k < string_views(out@).len() && string_views(out@)[k] == x;
                        if k < sb.len() {
                            assert(sb[k] == x);
                        }
                    }
                }
                if x != c@ {
                    if exists|j: int| 0 <= j < i + 1 && #[trigger] self@[j].created_by_package == x {
                        let j = choose|j: int| 0 <= j < i + 1 && #[trigger] self@[j].created_by_package == x;
                        assert(j < i);
                    }
                } else {
                    assert(self@[i as int].created_by_package == x);
                }
            }
            i = i + 1;
        }
        assert(string_views(out@).to_set() =~= orphans_of(self@, string_views(installed@)));
        out
    }
}


impl Database {
    /// The distinct creator packages, in the order of their first record.
    pub fn distinct_creators(&self) -> (r: Vec<String>)
        ensures
            string_views(r@).no_duplicates(),
            string_views(r@).to_set() == creators(self@),
    {
        let mut out: Vec<String> = Vec::new();
        let mut i: usize = 0;
        while i < self.records.len()
            invariant
                i <= self@.len(),
                self@.len() == self.records@.len(),
                string_views(out@).no_duplicates(),
                forall|c: Seq<char>|
                    string_views(out@).contains(c) <==> (exists|j: int|
                        0 <= j < i && #[trigger] self@[j].created_by_package == c),
            decreases self@.len() - i,
        {
            let c = &self.record(i).created_by_package;
            let seen = contains_string(&out, c);
            let ghost before = out@;
            if !seen {
                out.push(c.clone());
                assert(string_views(out@) =~= string_views(before).push(c@));
            }
            assert(self@[i as int].created_by_package == c@);
            assert forall|x: Seq<char>|
                string_views(out@).contains(x) <==> (exists|j: int|
                    0 <= j < i + 1 && #[trigger] self@[j].created_by_package == x) by {
                if !seen {
                    let sb = string_views(before);
                    assert(string_views(out@)[sb.len() as int] == c@);
                    if sb.contains(x) {
                        let k = choose|k: int| 0 <= k < sb.len() && sb[k] == x;
                        assert(string_views(out@)[k] == x);
                    }
                    if string_views(out@).contains(x) {
                        let k = choose|k: int|
                            0 <= k < string_views(out@).len() && string_views(out@)[k] == x;
                        if k < sb.len() {
                            assert(sb[k] == x);
                        }
                    }
                }
                if x != c@ {
                    if exists|j: int| 0 <= j < i + 1 && #[trigger] self@[j].created_by_package == x {
                        let j = choose|j: int|
                            0 <= j < i + 1 && #[trigger] self@[j].created_by_package == x;
                        assert(j < i);
                    }
                } else {
                    assert(self@[i as int].created_by_package == x);
                }
            }
            i = i + 1;
        }
        assert(string_views(out@).to_set() =~= creators(self@));
        out
    }

    /// The number of records and the number of distinct creator packages.
    pub fn get_stats(&self) -> (r: (usize, usize))
        ensures
            r.0 == self@.len(),
            r.1 == creators(self@).len(),
    {
        let d = self.distinct_creators();
        proof {
            string_views(d@).unique_seq_to_set();
        }
        (self.records.len(), d.len())
    }

    /// The latest `last_accessed_at` of all records, or `None` when there are none.
    pub fn get_last_event_time(&self) -> (r: Option<i64>)
        ensures
            r is None <==> self@.len() == 0,
            r is Some ==> (exists|i: int|
                0 <= i < self@.len() && self@[i].last_accessed_at == r->0) && forall|i: int|
                0 <= i < self@.len() ==> self@[i].last_accessed_at <= r->0,
    {
        if self.records.len() == 0 {
            return None;
        }
        let mut best = self.record(0).last_accessed_at;
        let mut k: usize = 0;
        let mut i: usize = 1;
        while i < self.records.len()
            invariant
                1 <= i <= self@.len(),
                self@.len() == self.records@.len(),
                k < i,
                self@[k as int].last_accessed_at == best,
                forall|j: int| 0 <= j < i ==> self@[j].last_accessed_at <= best,
            decreases self@.len() - i,
        {
            let t = self.record(i).last_accessed_at;
            if t > best {
                best = t;
                k = i;
            }
            i = i + 1;
        }
        Some(best)
    }

    /// The paths of all records, in storage order.
    pub fn paths(&self) -> (r: Vec<String>)
        ensures
            r@.len() == self@.len(),
            forall|i: int| 0 <= i < self@.len() ==> #[trigger] r@[i]@ == self@[i].path,
    {
        let mut out: Vec<String> = Vec::new();
        let mut i: usize = 0;
        while i < self.records.len()
            invariant
                i <= self@.len(),
                self@.len() == self.records@.len(),
                out@.len() == i,
                forall|j: int| 0 <= j < i ==> #[trigger] out@[j]@ == self@[j].path,
            decreases self@.len() - i,
        {
            out.push(self.record(i).path.clone());
            i = i + 1;
        }
        out
    }

    /// Deletes the records of the given paths; returns how many were removed.
    pub fn delete_file_records(&mut self, paths: &Vec<String>) -> (r: usize)
        requires
            old(self).wf(),
        ensures
            final(self).wf(),
            final(self)@ == old(self)@.filter(
                |x: RecordView| !string_views(paths@).contains(x.path),
            ),
            r == old(self)@.len() - final(self)@.len(),
    {
        let ghost pred = |x: RecordView| !string_views(paths@).contains(x.path);
        let ghost s = self@;
        let mut kept: Vec<FileRecord> = Vec::new();
        let mut i: usize = 0;
        while i < self.records.len()
            invariant
                i <= s.len(),
                s == self@,
                self@.len() == self.records@.len(),
                pred == (|x: RecordView| !string_views(paths@).contains(x.path)),
                record_views(kept@) == s.subrange(0, i as int).filter(pred),
                kept@.len() <= i,
                unique_paths(s),
                unique_paths(record_views(kept@)),
                forall|a: int|
                    #![trigger kept@[a]]
                    0 <= a < kept@.len() ==> exists|j: int|
                        0 <= j < i && #[trigger] s[j].path == kept@[a]@.path,
            decreases s.len() - i,
        {
            let rec = self.record(i);
            let gone = contains_string(paths, &rec.path);
            proof {
                assert(s.subrange(0, i + 1) =~= s.subrange(0, i as int).push(s[i as int]));
                s.subrange(0, i as int).lemma_filter_push(s[i as int], pred);
            }
            let ghost before = kept@;
            assert(rec@ == s[i as int]);
            assert(rec.path@ == s[i as int].path);
            assert(gone == string_views(paths@).contains(s[i as int].path));
            assert(pred(s[i as int]) == !gone);
            if !gone {
                kept.push(rec.duplicate());
                assert(record_views(kept@) =~= record_views(before).push(s[i as int]));
                assert(record_views(kept@) =~= s.subrange(0, i + 1).filter(pred));
                assert forall|a: int| 0 <= a < before.len() implies kept@[a]@.path != s[i as int].path by {
                    let j = choose|j: int| 0 <= j < i && #[trigger] s[j].path == before[a]@.path;
                    assert(s[j].path != s[i as int].path);
                }
                assert(kept@[before.len() as int]@.path == s[i as int].path);
            } else {
                assert(record_views(kept@) =~= s.subrange(0, i + 1).filter(pred));
            }
            i = i + 1;
        }
        assert(s.subrange(0, s.len() as int) =~= s);
        let removed = self.records.len() - kept.len();
        proof {
            broadcast use vstd::seq_lib::group_filter_ensures;
        }
        self.records = kept;
        assert(self@ =~= record_views(kept@));
        removed
    }
}


/// `a` comes strictly before `b` in code-point (byte-wise UTF-8) order.
pub open spec fn lex_lt(a: Seq<char>, b: Seq<char>) -> bool
    decreases a.len(),
{
    if a.len() == 0 {
        b.len() > 0
    } else if b.len() == 0 {
        false
    } else if a[0] != b[0] {
        (a[0] as u32) < (b[0] as u32)
    } else {
        lex_lt(a.drop_first(), b.drop_first())
    }
}

proof fn lemma_lex_asym(a: Seq<char>, b: Seq<char>)
    requires
        lex_lt(a, b),
    ensures
        !lex_lt(b, a),
    decreases a.len(),
{
    if a.len() > 0 && b.len() > 0 && a[0] == b[0] {
        lemma_lex_asym(a.drop_first(), b.drop_first());
    }
}

proof fn lemma_lex_trans(a: Seq<char>, b: Seq<char>, c: Seq<char>)
    requires
        lex_lt(a, b),
        lex_lt(b, c),
    ensures
        lex_lt(a, c),
    decreases a.len(),
{
    if a.len() > 0 && b.len() > 0 && c.len() > 0 && a[0] == b[0] && b[0] == c[0] {
        lemma_lex_trans(a.drop_first(), b.drop_first(), c.drop_first());
    }
}

fn lex_less(a: &[char], b: &[char]) -> (r: bool)
    ensures
        r == lex_lt(a@, b@),
{
    let mut i: usize = 0;
    assert(a@.subrange(0, a@.len() as int) =~= a@);
    assert(b@.subrange(0, b@.len() as int) =~= b@);
    loop
        invariant
            i <= a@.len(),
            i <= b@.len(),
            lex_lt(a@, b@) == lex_lt(
                a@.subrange(i as int, a@.len() as int),
                b@.subrange(i as int, b@.len() as int),
            ),
        decreases a@.len() - i,
    {
        if i == a.len() {
            return i < b.len();
        }
        if i == b.len() {
            return false;
        }
        if a[i] != b[i] {
            return (a[i] as u32) < (b[i] as u32);
        }
        assert(a@.subrange(i as int, a@.len() as int).drop_first() =~= a@.subrange(
            i + 1,
            a@.len() as int,
        ));
        assert(b@.subrange(i as int, b@.len() as int).drop_first() =~= b@.subrange(
            i + 1,
            b@.len() as int,
        ));
        i = i + 1;
    }
}

/// Latest `last_accessed_at` first.
pub open spec fn sorted_recent(s: Seq<RecordView>) -> bool {
    forall|i: int, j: int| 0 <= i < j < s.len() ==> s[i].last_accessed_at >= s[j].last_accessed_at
}

/// Paths in ascending order.
pub open spec fn sorted_paths(s: Seq<RecordView>) -> bool {
    forall|i: int, j: int| 0 <= i < j < s.len() ==> !lex_lt(s[j].path, s[i].path)
}

proof fn lemma_multiset_insert<A>(s: Seq<A>, pos: int, x: A)
    requires
        0 <= pos <= s.len(),
    ensures
        s.insert(pos, x).to_multiset() == s.to_multiset().insert(x),
{
    let t = s.insert(pos, x);
    s.insert_ensures(pos, x);
    assert(t.remove(pos) =~= s);
    t.to_multiset_ensures();
    assert(t.to_multiset().count(x) > 0) by {
        assert(t[pos] == x);
        assert(t.contains(x));
    }
    assert(t.to_multiset() =~= s.to_multiset().insert(x));
}

/// Which records a query keeps.
enum Selection {
    All,
    PathContains(Vec<char>),
    CreatedBy(String),
    PathUnder(Vec<char>),
}

spec fn selects(sel: Selection, x: RecordView) -> bool {
    match sel {
        Selection::All => true,
        Selection::PathContains(p) => has_infix(x.path, p@),
        Selection::CreatedBy(p) => x.created_by_package == p@,
        Selection::PathUnder(p) => has_prefix(x.path, p@),
    }
}

pub open spec fn contains_filter(pattern: Seq<char>) -> spec_fn(RecordView) -> bool {
    |x: RecordView| has_infix(x.path, pattern)
}

pub open spec fn package_filter(package: Seq<char>) -> spec_fn(RecordView) -> bool {
    |x: RecordView| x.created_by_package == package
}

pub open spec fn directory_filter(dir: Seq<char>) -> spec_fn(RecordView) -> bool {
    |x: RecordView| has_prefix(x.path, trim_end_char(dir, '/'))
}

fn sort_recent(v: Vec<FileRecord>) -> (r: Vec<FileRecord>)
    ensures
        sorted_recent(record_views(r@)),
        record_views(r@).to_multiset() == record_views(v@).to_multiset(),
{
    let mut out: Vec<FileRecord> = Vec::new();
    let mut i: usize = 0;
    assert(record_views(out@) =~= record_views(v@.subrange(0, 0)));
    while i < v.len()
        invariant
            i <= v@.len(),
            sorted_recent(record_views(out@)),
            record_views(out@).to_multiset() == record_views(v@.subrange(0, i as int)).to_multiset(),
        decreases v@.len() - i,
    {
        let x = v[i].duplicate();
        let mut pos: usize = 0;
        while pos < out.len() && out[pos].last_accessed_at >= x.last_accessed_at
            invariant
                pos <= out@.len(),
                forall|a: int| 0 <= a < pos ==> out@[a].last_accessed_at >= x.last_accessed_at,
            decreases out@.len() - pos,
        {
            pos = pos + 1;
        }
        let ghost before = record_views(out@);
        let ghost xv = x@;
        proof {
            assert forall|a: int| 0 <= a < pos implies before[a].last_accessed_at >= xv.last_accessed_at by {
                assert(before[a] == out@[a]@);
            }
            assert forall|b: int| pos <= b < before.len() implies before[b].last_accessed_at < xv.last_accessed_at by {
                assert(before[pos as int] == out@[pos as int]@);
            }
        }
        out.insert(pos, x);
        proof {
            assert(record_views(out@) =~= before.insert(pos as int, xv));
            lemma_multiset_insert(before, pos as int, xv);
            before.insert_ensures(pos as int, xv);
            let t = before.insert(pos as int, xv);
            assert forall|a: int, b: int| 0 <= a < b < t.len() implies t[a].last_accessed_at >= t[b].last_accessed_at by {
                if a < pos && b > pos {
                    assert(t[b] == before[b - 1]);
                } else if a > pos {
                    assert(t[b] == before[b - 1]);
                    assert(t[a] == before[a - 1]);
                } else if b == pos as int {
                } else if a == pos as int {
                    assert(t[b] == before[b - 1]);
                }
            }
            assert(record_views(v@.subrange(0, i + 1)) =~= record_views(v@.subrange(0, i as int)).push(v@[i as int]@));
            record_views(v@.subrange(0, i as int)).to_multiset_ensures();
            before.insert_ensures(pos as int, x@);
        }
        i = i + 1;
    }
    assert(v@.subrange(0, v@.len() as int) =~= v@);
    out
}

fn sort_paths(v: Vec<FileRecord>) -> (r: Vec<FileRecord>)
    ensures
        sorted_paths(record_views(r@)),
        record_views(r@).to_multiset() == record_views(v@).to_multiset(),
{
    let mut out: Vec<FileRecord> = Vec::new();
    let mut i: usize = 0;
    assert(record_views(out@) =~= record_views(v@.subrange(0, 0)));
    while i < v.len()
        invariant
            i <= v@.len(),
            sorted_paths(record_views(out@)),
            record_views(out@).to_multiset() == record_views(v@.subrange(0, i as int)).to_multiset(),
        decreases v@.len() - i,
    {
        let x = v[i].duplicate();
        let xc = chars_of(x.path.as_str());
        let mut pos: usize = 0;
        loop
            invariant
                pos <= out@.len(),
                xc@ == x@.path,
                forall|a: int| 0 <= a < pos ==> !lex_lt(x@.path, #[trigger] out@[a]@.path),
            ensures
                pos <= out@.len(),
                forall|a: int| 0 <= a < pos ==> !lex_lt(x@.path, #[trigger] out@[a]@.path),
                pos < out@.len() ==> lex_lt(x@.path, out@[pos as int]@.path),
            decreases out@.len() - pos,
        {
            if pos >= out.len() {
                break;
            }
            let oc = chars_of(out[pos].path.as_str());
            assert(out@[pos as int]@.path == oc@);
            if lex_less(xc.as_slice(), oc.as_slice()) {
                break;
            }
            pos = pos + 1;
        }
        let ghost before = record_views(out@);
        proof {
            assert forall|b: int| pos <= b < before.len() implies !lex_lt(
                before[b].path,
                x@.path,
            ) by {
                assert(lex_lt(x@.path, before[pos as int].path));
                if lex_lt(before[b].path, x@.path) {
                    if b == pos {
                        lemma_lex_asym(x@.path, before[pos as int].path);
                    } else {
                        lemma_lex_trans(before[b].path, x@.path, before[pos as int].path);
                    }
                }
            }
        }
        out.insert(pos, x);
        proof {
            assert(record_views(out@) =~= before.insert(pos as int, x@));
            lemma_multiset_insert(before, pos as int, x@);
            assert(record_views(v@.subrange(0, i + 1)) =~= record_views(v@.subrange(0, i as int)).push(v@[i as int]@));
            record_views(v@.subrange(0, i as int)).to_multiset_ensures();
            before.insert_ensures(pos as int, x@);
        }
        i = i + 1;
    }
    assert(v@.subrange(0, v@.len() as int) =~= v@);
    out
}


fn selects_exec(sel: &Selection, x: &FileRecord) -> (r: bool)
    ensures
        r == selects(*sel, x@),
{
    match sel {
        Selection::All => true,
        Selection::PathContains(p) => {
            let c = chars_of(x.path.as_str());
            has_infix_chars(c.as_slice(), p.as_slice())
        },
        Selection::CreatedBy(p) => x.created_by_package == *p,
        Selection::PathUnder(p) => {
            let c = chars_of(x.path.as_str());
            assert(c@.subrange(0, c@.len() as int) =~= c@);
            has_prefix_at(c.as_slice(), 0, p.as_slice())
        },
    }
}

impl Database {
    /// Copies of the records that `sel` keeps, in storage order.
    fn select(&self, sel: &Selection) -> (r: Vec<FileRecord>)
        ensures
            record_views(r@) == self@.filter(|x: RecordView| selects(*sel, x)),
    {
        let ghost pred = |x: RecordView| selects(*sel, x);
        let ghost s = self@;
        let mut kept: Vec<FileRecord> = Vec::new();
        let mut i: usize = 0;
        assert(record_views(kept@) =~= s.subrange(0, 0).filter(pred)) by {
            reveal(Seq::filter);
        }
        while i < self.records.len()
            invariant
                i <= s.len(),
                s == self@,
                self@.len() == self.records@.len(),
                pred == (|x: RecordView| selects(*sel, x)),
                record_views(kept@) == s.subrange(0, i as int).filter(pred),
            decreases s.len() - i,
        {
            let rec = self.record(i);
            let keep = selects_exec(sel, rec);
            proof {
                assert(s.subrange(0, i + 1) =~= s.subrange(0, i as int).push(s[i as int]));
                s.subrange(0, i as int).lemma_filter_push(s[i as int], pred);
            }
            let ghost before = kept@;
            if keep {
                kept.push(rec.duplicate());
                assert(record_views(kept@) =~= record_views(before).push(s[i as int]));
            }
            assert(record_views(kept@) =~= s.subrange(0, i + 1).filter(pred));
            i = i + 1;
        }
        assert(s.subrange(0, s.len() as int) =~= s);
        kept
    }

    /// The records whose path contains `pattern`, in storage order.
    pub fn query_file(&self, pattern: &str) -> (r: Vec<FileRecord>)
        ensures
            record_views(r@) == self@.filter(contains_filter(pattern@)),
    {
        let sel = Selection::PathContains(chars_of(pattern));
        let r = self.select(&sel);
        assert((|x: RecordView| selects(sel, x)) =~= contains_filter(pattern@));
        r
    }

    /// The records created by `package`, most recently accessed first.
    pub fn query_package(&self, package: &str) -> (r: Vec<FileRecord>)
        ensures
            sorted_recent(record_views(r@)),
            record_views(r@).to_multiset() == self@.filter(package_filter(package@)).to_multiset(),
    {
        let sel = Selection::CreatedBy(package.to_owned());
        let r = self.select(&sel);
        assert((|x: RecordView| selects(sel, x)) =~= package_filter(package@));
        sort_recent(r)
    }

    /// The records whose path begins with `dir` (trailing slashes dropped),
    /// in ascending path order.
    pub fn query_directory(&self, dir: &str) -> (r: Vec<FileRecord>)
        ensures
            sorted_paths(record_views(r@)),
            record_views(r@).to_multiset() == self@.filter(directory_filter(dir@)).to_multiset(),
    {
        let d = chars_of(dir);
        let n = trim_end_char_len(d.as_slice(), '/');
        let base = slice_to_vec(&d.as_slice()[0..n]);
        let sel = Selection::PathUnder(base);
        let r = self.select(&sel);
        assert((|x: RecordView| selects(sel, x)) =~= directory_filter(dir@));
        sort_paths(r)
    }

    /// Every record, most recently accessed first.
    pub fn list_all(&self) -> (r: Vec<FileRecord>)
        ensures
            sorted_recent(record_views(r@)),
            record_views(r@).to_multiset() == self@.to_multiset(),
    {
        let sel = Selection::All;
        let r = self.select(&sel);
        proof {
            broadcast use vstd::seq_lib::group_filter_ensures;
            let f = self@.filter(|x: RecordView| selects(sel, x));
            self@.lemma_filter_len(|x: RecordView| selects(sel, x));
            assert(f =~= self@) by {
                reveal(Seq::filter);
                lemma_filter_all(self@, |x: RecordView| selects(sel, x));
            }
        }
        sort_recent(r)
    }
}

proof fn lemma_filter_all(s: Seq<RecordView>, pred: spec_fn(RecordView) -> bool)
    requires
        forall|x: RecordView| #[trigger] pred(x),
    ensures
        s.filter(pred) == s,
    decreases s.len(),
{
    reveal(Seq::filter);
    if s.len() > 0 {
        lemma_filter_all(s.drop_last(), pred);
        assert(s.drop_last().push(s.last()) =~= s);
    }
}


/// What opening a store file must do to its schema.
#[derive(Debug, Clone, Copy, PartialEq, Eq, Structural)]
pub enum Migration {
    /// The current schema is there: nothing.
    Ready,
    /// Only the legacy table `(path, package, process, first_seen, last_seen)`
    /// is there: convert its rows with `FileRecord::from_legacy`.
    FromLegacy,
    /// No table yet: create the current schema.
    Create,
}

/// The schema step for a store file, from whether it has the current
/// `created_by_package` column and whether it has the legacy table.
pub fn plan_migration(has_current_schema: bool, has_legacy_table: bool) -> (r: Migration)
    ensures
        r == if has_current_schema {
            Migration::Ready
        } else if has_legacy_table {
            Migration::FromLegacy
        } else {
            Migration::Create
        },
{
    if has_current_schema {
        Migration::Ready
    } else if has_legacy_table {
        Migration::FromLegacy
    } else {
        Migration::Create
    }
}

impl FileRecord {
    /// A legacy row as a record: its package and process become both the
    /// creator and the last accessor, `first_seen` the creation time and
    /// `last_seen` the last access time.
    pub fn from_legacy(path: String, package: String, process: String, first_seen: i64, last_seen: i64) -> (r:
        FileRecord)
        ensures
            r@ == (RecordView {
                path: path@,
                created_by_package: package@,
                created_by_process: process@,
                created_at: first_seen,
                last_accessed_by_package: package@,
                last_accessed_by_process: process@,
                last_accessed_at: last_seen,
            }),
    {
        FileRecord {
            path,
            created_by_package: package.clone(),
            created_by_process: process.clone(),
            created_at: first_seen,
            last_accessed_by_package: package,
            last_accessed_by_process: process,
            last_accessed_at: last_seen,
        }
    }
}

} // verus!
