//! What the cleanup commands decide: the kind of each target, how it is
//! removed, the totals shown before asking, and the answer to the prompt.

use vstd::prelude::*;
use crate::store::FileRecord;
use crate::text::{chars_of, trim_ws, trim_ws_bounds};

verus! {

/// A recorded path that still exists and may be deleted.
pub struct CleanTarget {
    pub record: FileRecord,
    pub size: u64,
    pub is_dir: bool,
    pub is_symlink: bool,
}

/// How a target is deleted.
#[derive(Debug, Clone, Copy, PartialEq, Eq, Structural)]
pub enum Removal {
    /// `remove_file`: a file or a link (never followed).
    File,
    /// `remove_dir_all`: a directory and everything below it.
    Tree,
}

impl CleanTarget {
    /// A target from what the file system says of the record's path: whether
    /// it is a link (its own metadata), whether it is a directory, and the
    /// size of its files. A link counts as neither directory nor size.
    pub fn from_record(record: FileRecord, is_symlink: bool, is_dir: bool, size: u64) -> (r:
        CleanTarget)
        ensures
            r.record@ == record@,
            r.is_symlink == is_symlink,
            r.is_dir == (!is_symlink && is_dir),
            r.size == if is_symlink {
                0
            } else {
                size
            },
    {
        CleanTarget {
            record,
            size: if is_symlink {
                0
            } else {
                size
            },
            is_dir: !is_symlink && is_dir,
            is_symlink,
        }
    }

    /// The label shown before a target.
    pub fn kind_label(&self) -> (r: &'static str)
        ensures
            r@ == if self.is_symlink {
                "link"@
            } else if self.is_dir {
                "dir "@
            } else {
                "file"@
            },
    {
        if self.is_symlink {
            "link"
        } else if self.is_dir {
            "dir "
        } else {
            "file"
        }
    }

    /// How this target is deleted.
    pub fn removal(&self) -> (r: Removal)
        ensures
            r == if !self.is_symlink && self.is_dir {
                Removal::Tree
            } else {
                Removal::File
            },
    {
        if !self.is_symlink && self.is_dir {
            Removal::Tree
        } else {
            Removal::File
        }
    }
}

/// The totals of a list of targets.
pub struct CleanSummary {
    pub total_size: u64,
    pub file_count: usize,
    pub dir_count: usize,
    pub symlink_count: usize,
}

pub open spec fn size_sum(s: Seq<CleanTarget>, n: int) -> int
    decreases n,
{
    if n <= 0 {
        0
    } else {
        size_sum(s, n - 1) + s[n - 1].size
    }
}

pub open spec fn dirs_in(s: Seq<CleanTarget>, n: int) -> int
    decreases n,
{
    if n <= 0 {
        0
    } else {
        dirs_in(s, n - 1) + if s[n - 1].is_dir {
            1int
        } else {
            0int
        }
    }
}

pub open spec fn links_in(s: Seq<CleanTarget>, n: int) -> int
    decreases n,
{
    if n <= 0 {
        0
    } else {
        links_in(s, n - 1) + if s[n - 1].is_symlink {
            1int
        } else {
            0int
        }
    }
}

pub open spec fn files_in(s: Seq<CleanTarget>, n: int) -> int
    decreases n,
{
    if n <= 0 {
        0
    } else {
        files_in(s, n - 1) + if !s[n - 1].is_dir && !s[n - 1].is_symlink {
            1int
        } else {
            0int
        }
    }
}

proof fn lemma_counts_bounded(s: Seq<CleanTarget>, n: int)
    requires
        0 <= n <= s.len(),
    ensures
        0 <= dirs_in(s, n) <= n,
        0 <= links_in(s, n) <= n,
        0 <= files_in(s, n) <= n,
        size_sum(s, n) >= 0,
    decreases n,
{
    if n > 0 {
        lemma_counts_bounded(s, n - 1);
    }
}

/// The totals of `targets`; the size saturates at `u64::MAX`.
pub fn summarize(targets: &Vec<CleanTarget>) -> (r: CleanSummary)
    ensures
        r.total_size == if size_sum(targets@, targets@.len() as int) > u64::MAX {
            u64::MAX as int
        } else {
            size_sum(targets@, targets@.len() as int)
        },
        r.dir_count == dirs_in(targets@, targets@.len() as int),
        r.symlink_count == links_in(targets@, targets@.len() as int),
        r.file_count == files_in(targets@, targets@.len() as int),
{
    let mut total: u64 = 0;
    let mut dirs: usize = 0;
    let mut links: usize = 0;
    let mut files: usize = 0;
    let mut i: usize = 0;
    while i < targets.len()
        invariant
            i <= targets@.len(),
            dirs == dirs_in(targets@, i as int),
            links == links_in(targets@, i as int),
            files == files_in(targets@, i as int),
            total == if size_sum(targets@, i as int) > u64::MAX {
                u64::MAX as int
            } else {
                size_sum(targets@, i as int)
            },
        decreases targets@.len() - i,
    {
        proof {
            lemma_counts_bounded(targets@, i as int);
            lemma_counts_bounded(targets@, i + 1);
        }
        let t = &targets[i];
        total = total.saturating_add(t.size);
        if t.is_dir {
            dirs = dirs + 1;
        }
        if t.is_symlink {
            links = links + 1;
        }
        if !t.is_dir && !t.is_symlink {
            files = files + 1;
        }
        i = i + 1;
    }
    CleanSummary { total_size: total, file_count: files, dir_count: dirs, symlink_count: links }
}

/// `c` is the letter `lower` in either case.
pub open spec fn is_letter(c: char, lower: char, upper: char) -> bool {
    c == lower || c == upper
}

/// The prompt's answer, trimmed, is `y` or `yes` in any case.
pub open spec fn is_yes(t: Seq<char>) -> bool {
    (t.len() == 1 && is_letter(t[0], 'y', 'Y')) || (t.len() == 3 && is_letter(t[0], 'y', 'Y')
        && is_letter(t[1], 'e', 'E') && is_letter(t[2], 's', 'S'))
}

/// Whether a line typed at the confirmation prompt agrees to delete.
pub fn is_confirmation(line: &str) -> (r: bool)
    ensures
        r == is_yes(trim_ws(line@)),
{
    let s = chars_of(line);
    let (a, b) = trim_ws_bounds(s.as_slice());
    let n = b - a;
    if n == 1 {
        return s[a] == 'y' || s[a] == 'Y';
    }
    if n == 3 {
        return (s[a] == 'y' || s[a] == 'Y') && (s[a + 1] == 'e' || s[a + 1] == 'E') && (s[a + 2]
            == 's' || s[a + 2] == 'S');
    }
    false
}

} // verus!
