//! The configuration: monitored directories, ignored processes and
//! packages, the default tracking depth; its defaults and its checks.

use vstd::prelude::*;
use crate::canon::{
    abs_base, configured_depth, dir_name, first_match, join_path, absolutise, is_absolute,
    lemma_first_match, match_dir, MonitoredDir,
};
use crate::store::{contains_string, string_views};
use crate::text::{
    chars_of, has_infix, has_infix_chars, has_prefix, has_prefix_at, has_suffix, has_suffix_chars,
    is_ws, is_ws_char, push_all, string_of,
};

verus! {

pub struct Config {
    pub monitored_dirs: Vec<MonitoredDir>,
    pub ignored_processes: Vec<String>,
    pub ignored_packages: Vec<String>,
    pub tracking_depth: u32,
    pub auto_prune: bool,
}

pub open spec fn default_process_names() -> Seq<Seq<char>> {
    seq!["nvim"@, "vim"@, "vi"@, "nano"@, "emacs"@, "code"@, "subl"@, "hx"@, "kate"@, "gedit"@, "cat"@, "bat"@, "less"@, "more"@, "head"@, "tail"@, "ls"@, "find"@, "fd"@, "rg"@, "grep"@, "ag"@, "file"@, "stat"@, "wc"@, "du"@, "tree"@, "bash"@, "zsh"@, "fish"@]
}

pub open spec fn default_config_text() -> Seq<char> {
    r#"# HDAS Configuration File

monitored_dirs = [
    ".cache",
    ".local",
    ".config",
]

ignored_processes = [
    "nvim", "vim", "vi", "nano", "emacs", "code", "subl", "hx", "kate", "gedit",
    "cat", "bat", "less", "more", "head", "tail",
    "ls", "find", "fd", "rg", "grep", "ag", "file", "stat", "wc", "du", "tree",
    "bash", "zsh", "fish",
]

# Packages to skip entirely (noisy apps like browsers)
ignored_packages = []

# How deep to track under monitored dirs (1 = app dir like ~/.cache/mozilla)
# Note: ~/.local/share, ~/.local/state, and ~/.local/lib automatically add +1 depth
tracking_depth = 1

auto_prune = true
"#@
}

pub fn default_monitored_dirs() -> (r: Vec<MonitoredDir>)
    ensures
        r@.len() == 3,
        r@[0].path@ == ".cache"@ && r@[0].depth is None,
        r@[1].path@ == ".local"@ && r@[1].depth is None,
        r@[2].path@ == ".config"@ && r@[2].depth is None,
{
    let mut v: Vec<MonitoredDir> = Vec::new();
    v.push(MonitoredDir { path: ".cache".to_owned(), depth: None });
    v.push(MonitoredDir { path: ".local".to_owned(), depth: None });
    v.push(MonitoredDir { path: ".config".to_owned(), depth: None });
    v
}

/// Editors, pagers, file tools and shells: their accesses are recorded but
/// never make them a creator.
pub fn default_ignored_processes() -> (r: Vec<String>)
    ensures
        string_views(r@) == default_process_names(),
{
    let mut v: Vec<String> = Vec::new();
    v.push("nvim".to_owned());
    v.push("vim".to_owned());
    v.push("vi".to_owned());
    v.push("nano".to_owned());
    v.push("emacs".to_owned());
    v.push("code".to_owned());
    v.push("subl".to_owned());
    v.push("hx".to_owned());
    v.push("kate".to_owned());
    v.push("gedit".to_owned());
    v.push("cat".to_owned());
    v.push("bat".to_owned());
    v.push("less".to_owned());
    v.push("more".to_owned());
    v.push("head".to_owned());
    v.push("tail".to_owned());
    v.push("ls".to_owned());
    v.push("find".to_owned());
    v.push("fd".to_owned());
    v.push("rg".to_owned());
    v.push("grep".to_owned());
    v.push("ag".to_owned());
    v.push("file".to_owned());
    v.push("stat".to_owned());
    v.push("wc".to_owned());
    v.push("du".to_owned());
    v.push("tree".to_owned());
    v.push("bash".to_owned());
    v.push("zsh".to_owned());
    v.push("fish".to_owned());
    assert(string_views(v@) =~= default_process_names());
    v
}

pub fn default_ignored_packages() -> (r: Vec<String>)
    ensures
        r@.len() == 0,
{
    Vec::new()
}

pub fn default_tracking_depth() -> (r: u32)
    ensures
        r == 1,
{
    1
}

pub fn default_auto_prune() -> (r: bool)
    ensures
        r,
{
    true
}

/// The text of a fresh configuration file.
pub fn default_config_content() -> (r: String)
    ensures
        r@ == default_config_text(),
{
    r#"# HDAS Configuration File

monitored_dirs = [
    ".cache",
    ".local",
    ".config",
]

ignored_processes = [
    "nvim", "vim", "vi", "nano", "emacs", "code", "subl", "hx", "kate", "gedit",
    "cat", "bat", "less", "more", "head", "tail",
    "ls", "find", "fd", "rg", "grep", "ag", "file", "stat", "wc", "du", "tree",
    "bash", "zsh", "fish",
]

# Packages to skip entirely (noisy apps like browsers)
ignored_packages = []

# How deep to track under monitored dirs (1 = app dir like ~/.cache/mozilla)
# Note: ~/.local/share, ~/.local/state, and ~/.local/lib automatically add +1 depth
tracking_depth = 1

auto_prune = true
"#.to_owned()
}


impl Default for Config {
    fn default() -> (r: Config)
        ensures
            r.monitored_dirs@.len() == 3,
            string_views(r.ignored_processes@) == default_process_names(),
            r.ignored_packages@.len() == 0,
            r.tracking_depth == 1,
            r.auto_prune,
    {
        Config {
            monitored_dirs: default_monitored_dirs(),
            ignored_processes: default_ignored_processes(),
            ignored_packages: default_ignored_packages(),
            tracking_depth: default_tracking_depth(),
            auto_prune: default_auto_prune(),
        }
    }
}

/// The cheap early test: the opened path begins with an absolute monitored
/// directory `d`, or mentions a relative one as `/.<name>/`, starts with
/// `.<name>/`, or ends with `/.<name>`.
pub open spec fn mentions_dir(path: Seq<char>, d: Seq<char>) -> bool {
    if is_absolute(d) {
        has_prefix(path, abs_base(d))
    } else {
        let n = dir_name(d);
        has_infix(path, seq!['/', '.'] + n + seq!['/']) || has_prefix(
            path,
            seq!['.'] + n + seq!['/'],
        ) || has_suffix(path, seq!['/', '.'] + n)
    }
}

pub open spec fn dir_paths(dirs: Seq<MonitoredDir>) -> Seq<Seq<char>> {
    dirs.map_values(|d: MonitoredDir| d.path@)
}

/// Where the configuration file of the user with home `home` lives.
pub open spec fn config_path_of(home: Seq<char>) -> Seq<char> {
    join_path(home, ".config/hdas/config.toml"@)
}

/// A user-typed path made absolute: `~` and `~/...` are taken from home,
/// other relative paths too.
pub open spec fn expanded(input: Seq<char>, home: Seq<char>) -> Seq<char> {
    if is_absolute(input) {
        input
    } else if has_prefix(input, seq!['~', '/']) {
        absolutise(input.subrange(2, input.len() as int), home)
    } else if input == seq!['~'] {
        home
    } else {
        join_path(home, input)
    }
}

fn join_chars(base: &Vec<char>, rel: &Vec<char>) -> (r: Vec<char>)
    ensures
        r@ == join_path(base@, rel@),
{
    let mut r: Vec<char> = Vec::new();
    push_all(&mut r, base.as_slice());
    if base.len() > 0 && base[base.len() - 1] != '/' {
        r.push('/');
    }
    push_all(&mut r, rel.as_slice());
    r
}

/// `expanded` on strings.
pub fn expand_user_path(input: &str, home: &str) -> (r: String)
    ensures
        r@ == expanded(input@, home@),
{
    let i = chars_of(input);
    let h = chars_of(home);
    if i.len() > 0 && i[0] == '/' {
        return string_of(i.as_slice());
    }
    if i.len() >= 2 && i[0] == '~' && i[1] == '/' {
        assert(i@.subrange(0, 2) =~= seq!['~', '/']);
        let rest = vstd::slice::slice_to_vec(&i.as_slice()[2..i.len()]);
        if rest.len() > 0 && rest[0] == '/' {
            return string_of(rest.as_slice());
        }
        return string_of(join_chars(&h, &rest).as_slice());
    }
    if i.len() == 1 && i[0] == '~' {
        assert(i@ =~= seq!['~']);
        return string_of(h.as_slice());
    }
    proof {
        if has_prefix(i@, seq!['~', '/']) {
            assert(i@[0] == i@.subrange(0, 2)[0]);
            assert(i@[1] == i@.subrange(0, 2)[1]);
        }
        if i@ == seq!['~'] {
            assert(i@.len() == 1);
        }
    }
    string_of(join_chars(&h, &i).as_slice())
}

impl Config {
    /// The configuration file of the user whose home is `home`.
    pub fn path(home: &str) -> (r: String)
        ensures
            r@ == config_path_of(home@),
    {
        let h = chars_of(home);
        let rel = chars_of(".config/hdas/config.toml");
        string_of(join_chars(&h, &rel).as_slice())
    }

    /// Whether `process` is one of the ignored process names.
    pub fn is_ignored_process(&self, process: &str) -> (r: bool)
        ensures
            r == string_views(self.ignored_processes@).contains(process@),
    {
        contains_string(&self.ignored_processes, &process.to_owned())
    }

    /// Whether `path` passes the cheap test against some monitored directory.
    pub fn is_monitored_path(&self, path: &str) -> (r: bool)
        ensures
            r == exists|i: int|
                0 <= i < self.monitored_dirs@.len() && mentions_dir(
                    path@,
                    #[trigger] self.monitored_dirs@[i].path@,
                ),
    {
        let p = chars_of(path);
        let mut i: usize = 0;
        while i < self.monitored_dirs.len()
            invariant
                i <= self.monitored_dirs@.len(),
                p@ == path@,
                forall|j: int|
                    0 <= j < i ==> !mentions_dir(path@, #[trigger] self.monitored_dirs@[j].path@),
            decreases self.monitored_dirs@.len() - i,
        {
            let d = chars_of(self.monitored_dirs[i].path.as_str());
            assert(p@.subrange(0, p@.len() as int) =~= p@);
            if d.len() > 0 && d[0] == '/' {
                let bl = crate::text::trim_end_char_len(d.as_slice(), '/');
                if has_prefix_at(p.as_slice(), 0, &d.as_slice()[0..bl]) {
                    return true;
                }
                i = i + 1;
                continue;
            }
            let ns = crate::text::trim_start_char_at(d.as_slice(), '.', 0);
            assert(d@.subrange(0, d@.len() as int) =~= d@);
            let name = &d.as_slice()[ns..d.len()];
            let mut a: Vec<char> = Vec::new();
            a.push('/');
            a.push('.');
            push_all(&mut a, name);
            let mut b: Vec<char> = Vec::new();
            b.push('.');
            push_all(&mut b, name);
            b.push('/');
            let mut c = a.clone();
            a.push('/');
            assert(a@ =~= seq!['/', '.'] + dir_name(d@) + seq!['/']);
            assert(b@ =~= seq!['.'] + dir_name(d@) + seq!['/']);
            assert(c@ =~= seq!['/', '.'] + dir_name(d@));
            assert(p@.subrange(0, p@.len() as int) =~= p@);
            if has_infix_chars(p.as_slice(), a.as_slice()) || has_prefix_at(p.as_slice(), 0, b.as_slice())
                || has_suffix_chars(p.as_slice(), c.as_slice()) {
                return true;
            }
            i = i + 1;
        }
        false
    }

    /// The ignored process names, each once.
    pub fn ignored_set(&self) -> (r: Vec<String>)
        ensures
            string_views(r@).no_duplicates(),
            string_views(r@).to_set() == string_views(self.ignored_processes@).to_set(),
    {
        let v = &self.ignored_processes;
        let mut out: Vec<String> = Vec::new();
        let mut i: usize = 0;
        while i < v.len()
            invariant
                i <= v@.len(),
                string_views(out@).no_duplicates(),
                forall|x: Seq<char>|
                    string_views(out@).contains(x) <==> (exists|j: int| 0 <= j < i && #[trigger] v@[j]@ == x),
            decreases v@.len() - i,
        {
            let ghost before = out@;
            if !contains_string(&out, &v[i]) {
                out.push(v[i].clone());
                assert(string_views(out@) =~= string_views(before).push(v@[i as int]@));
            }
            assert forall|x: Seq<char>|
                string_views(out@).contains(x) <==> (exists|j: int| 0 <= j < i + 1 && #[trigger] v@[j]@ == x) by {
                let sb = string_views(before);
                if sb.contains(x) {
                    let k = choose|k: int| 0 <= k < sb.len() && sb[k] == x;
                    assert(string_views(out@)[k] == x);
                }
                if string_views(out@).contains(x) {
                    let k = choose|k: int|
                        0 <= k < string_views(out@).len() && string_views(out@)[k] == x;
                    if k < sb.len() {
                        assert(sb[k] == x);
                    }
                }
                if v@[i as int]@ == x && string_views(out@).len() > sb.len() {
                    assert(string_views(out@)[sb.len() as int] == x);
                }
            }
            i = i + 1;
        }
        assert forall|x: Seq<char>| string_views(v@).contains(x) implies string_views(out@).contains(x) by {
            let k = choose|k: int| 0 <= k < string_views(v@).len() && string_views(v@)[k] == x;
            assert(v@[k]@ == x);
        }
        assert forall|x: Seq<char>| string_views(out@).contains(x) implies string_views(v@).contains(x) by {
            let k = choose|k: int| 0 <= k < i && #[trigger] v@[k]@ == x;
            assert(string_views(v@)[k] == x);
        }
        assert(string_views(out@).to_set() =~= string_views(v@).to_set());
        out
    }
}


/// Above this depth a configuration is reported as unusual.
pub const HIGH_DEPTH: u32 = 5;

/// Something `Config::validate` reports.
pub enum ConfigIssue {
    /// A monitored directory listed again (an error).
    DuplicateDir(String),
    /// An ignored process listed again.
    DuplicateProcess(String),
    /// An ignored process name that is empty or holds `/` or white space.
    BadProcessName(String),
    /// An ignored package name that is empty or holds `/` or white space.
    BadPackageName(String),
    /// The default tracking depth is above `HIGH_DEPTH`.
    HighDepth(u32),
    /// A directory's own depth is above `HIGH_DEPTH`.
    HighDirDepth(String, u32),
}

pub enum IssueView {
    DuplicateDir(Seq<char>),
    DuplicateProcess(Seq<char>),
    BadProcessName(Seq<char>),
    BadPackageName(Seq<char>),
    HighDepth(u32),
    HighDirDepth(Seq<char>, u32),
}

impl View for ConfigIssue {
    type V = IssueView;

    open spec fn view(&self) -> IssueView {
        match self {
            ConfigIssue::DuplicateDir(p) => IssueView::DuplicateDir(p@),
            ConfigIssue::DuplicateProcess(p) => IssueView::DuplicateProcess(p@),
            ConfigIssue::BadProcessName(p) => IssueView::BadProcessName(p@),
            ConfigIssue::BadPackageName(p) => IssueView::BadPackageName(p@),
            ConfigIssue::HighDepth(d) => IssueView::HighDepth(*d),
            ConfigIssue::HighDirDepth(p, d) => IssueView::HighDirDepth(p@, *d),
        }
    }
}

impl ConfigIssue {
    /// Whether the issue makes the configuration invalid (the others are warnings).
    pub fn is_error(&self) -> (r: bool)
        ensures
            r == (self is DuplicateDir),
    {
        match self {
            ConfigIssue::DuplicateDir(_) => true,
            _ => false,
        }
    }
}

pub open spec fn issue_views(v: Seq<ConfigIssue>) -> Seq<IssueView> {
    v.map_values(|x: ConfigIssue| x@)
}

/// The issues `f` gives for indices `0..n`, in order.
pub open spec fn collect(n: int, f: spec_fn(int) -> Option<IssueView>) -> Seq<IssueView>
    decreases n,
{
    if n <= 0 {
        Seq::empty()
    } else {
        match f(n - 1) {
            Some(x) => collect(n - 1, f).push(x),
            None => collect(n - 1, f),
        }
    }
}

/// `names[i]` appeared before index `i`.
pub open spec fn repeated(names: Seq<Seq<char>>, i: int) -> bool {
    exists|j: int| 0 <= j < i && names[j] == names[i]
}

/// A process or package name must be non-empty and hold no `/` or white space.
pub open spec fn bad_name(n: Seq<char>) -> bool {
    n.len() == 0 || exists|k: int| 0 <= k < n.len() && (n[k] == '/' || is_ws(#[trigger] n[k]))
}

pub open spec fn dup_dir_issue(c: Config) -> spec_fn(int) -> Option<IssueView> {
    |i: int|
        if repeated(dir_paths(c.monitored_dirs@), i) {
            Some(IssueView::DuplicateDir(dir_paths(c.monitored_dirs@)[i]))
        } else {
            None
        }
}

pub open spec fn dup_process_issue(c: Config) -> spec_fn(int) -> Option<IssueView> {
    |i: int|
        if repeated(string_views(c.ignored_processes@), i) {
            Some(IssueView::DuplicateProcess(string_views(c.ignored_processes@)[i]))
        } else {
            None
        }
}

pub open spec fn bad_process_issue(c: Config) -> spec_fn(int) -> Option<IssueView> {
    |i: int|
        if bad_name(string_views(c.ignored_processes@)[i]) {
            Some(IssueView::BadProcessName(string_views(c.ignored_processes@)[i]))
        } else {
            None
        }
}

pub open spec fn bad_package_issue(c: Config) -> spec_fn(int) -> Option<IssueView> {
    |i: int|
        if bad_name(string_views(c.ignored_packages@)[i]) {
            Some(IssueView::BadPackageName(string_views(c.ignored_packages@)[i]))
        } else {
            None
        }
}

pub open spec fn dir_depth_issue(c: Config) -> spec_fn(int) -> Option<IssueView> {
    |i: int|
        match c.monitored_dirs@[i].depth {
            Some(d) => if d > HIGH_DEPTH {
                Some(IssueView::HighDirDepth(c.monitored_dirs@[i].path@, d))
            } else {
                None
            },
            None => None,
        }
}

/// Every issue of `c`, in the order `validate` reports them.
pub open spec fn issues_of(c: Config) -> Seq<IssueView> {
    collect(c.monitored_dirs@.len() as int, dup_dir_issue(c)) + collect(
        c.ignored_processes@.len() as int,
        dup_process_issue(c),
    ) + collect(c.ignored_processes@.len() as int, bad_process_issue(c)) + collect(
        c.ignored_packages@.len() as int,
        bad_package_issue(c),
    ) + if c.tracking_depth > HIGH_DEPTH {
        seq![IssueView::HighDepth(c.tracking_depth)]
    } else {
        Seq::empty()
    } + collect(c.monitored_dirs@.len() as int, dir_depth_issue(c))
}

fn is_repeated(names: &Vec<String>, i: usize) -> (r: bool)
    requires
        i < names@.len(),
    ensures
        r == repeated(string_views(names@), i as int),
{
    let mut j: usize = 0;
    while j < i
        invariant
            i < names@.len(),
            j <= i,
            forall|k: int| 0 <= k < j ==> names@[k]@ != names@[i as int]@,
        decreases i - j,
    {
        if names[j] == names[i] {
            assert(string_views(names@)[j as int] == string_views(names@)[i as int]);
            return true;
        }
        j = j + 1;
    }
    assert forall|k: int| 0 <= k < i implies string_views(names@)[k] != string_views(names@)[i as int] by {
        assert(string_views(names@)[k] == names@[k]@);
    }
    false
}

fn is_bad_name(n: &String) -> (r: bool)
    ensures
        r == bad_name(n@),
{
    let c = chars_of(n.as_str());
    if c.len() == 0 {
        return true;
    }
    let mut k: usize = 0;
    while k < c.len()
        invariant
            k <= c@.len(),
            c@ == n@,
            forall|j: int| 0 <= j < k ==> !(c@[j] == '/' || is_ws(#[trigger] c@[j])),
        decreases c@.len() - k,
    {
        if c[k] == '/' || is_ws_char(c[k]) {
            return true;
        }
        k = k + 1;
    }
    false
}

impl Config {
    /// The problems of this configuration: repeated monitored directories
    /// (errors), then repeated ignored processes, malformed process and
    /// package names, and unusually high depths (warnings).
    pub fn validate(&self) -> (r: Vec<ConfigIssue>)
        ensures
            issue_views(r@) == issues_of(*self),
    {
        let mut out: Vec<ConfigIssue> = Vec::new();
        let ghost c = *self;
        let dirs = &self.monitored_dirs;
        let mut paths: Vec<String> = Vec::new();
        let mut i: usize = 0;
        while i < dirs.len()
            invariant
                i <= dirs@.len(),
                dirs@ == c.monitored_dirs@,
                string_views(paths@) == dir_paths(dirs@).subrange(0, i as int),
            decreases dirs@.len() - i,
        {
            let ghost before = paths@;
            paths.push(dirs[i].path.clone());
            assert(dir_paths(dirs@)[i as int] == dirs@[i as int].path@);
            assert(string_views(paths@) =~= string_views(before).push(dirs@[i as int].path@));
            assert(string_views(paths@) =~= dir_paths(dirs@).subrange(0, i + 1));
            i = i + 1;
        }
        assert(string_views(paths@) =~= dir_paths(dirs@));
        let ghost f = dup_dir_issue(c);
        i = 0;
        assert(issue_views(out@) =~= collect(0, f));
        while i < paths.len()
            invariant
                i <= paths@.len(),
                string_views(paths@) == dir_paths(c.monitored_dirs@),
                f == dup_dir_issue(c),
                issue_views(out@) == collect(i as int, f),
            decreases paths@.len() - i,
        {
            let ghost before = out@;
            if is_repeated(&paths, i) {
                out.push(ConfigIssue::DuplicateDir(paths[i].clone()));
                assert(issue_views(out@) =~= issue_views(before).push(f(i as int)->0));
            }
            i = i + 1;
        }
        let ghost dir_part = issue_views(out@);
        let procs = &self.ignored_processes;
        let ghost g = dup_process_issue(c);
        i = 0;
        assert(issue_views(out@) =~= dir_part + collect(0, g));
        while i < procs.len()
            invariant
                i <= procs@.len(),
                procs@ == c.ignored_processes@,
                g == dup_process_issue(c),
                issue_views(out@) == dir_part + collect(i as int, g),
            decreases procs@.len() - i,
        {
            let ghost before = out@;
            if is_repeated(procs, i) {
                out.push(ConfigIssue::DuplicateProcess(procs[i].clone()));
                assert(issue_views(out@) =~= issue_views(before).push(g(i as int)->0));
            }
            i = i + 1;
        }
        let ghost dup_part = issue_views(out@);
        let ghost h = bad_process_issue(c);
        i = 0;
        assert(issue_views(out@) =~= dup_part + collect(0, h));
        while i < procs.len()
            invariant
                i <= procs@.len(),
                procs@ == c.ignored_processes@,
                h == bad_process_issue(c),
                issue_views(out@) == dup_part + collect(i as int, h),
            decreases procs@.len() - i,
        {
            let ghost before = out@;
            if is_bad_name(&procs[i]) {
                out.push(ConfigIssue::BadProcessName(procs[i].clone()));
                assert(issue_views(out@) =~= issue_views(before).push(h(i as int)->0));
            }
            i = i + 1;
        }
        let ghost proc_part = issue_views(out@);
        let pkgs = &self.ignored_packages;
        let ghost q = bad_package_issue(c);
        i = 0;
        assert(issue_views(out@) =~= proc_part + collect(0, q));
        while i < pkgs.len()
            invariant
                i <= pkgs@.len(),
                pkgs@ == c.ignored_packages@,
                q == bad_package_issue(c),
                issue_views(out@) == proc_part + collect(i as int, q),
            decreases pkgs@.len() - i,
        {
            let ghost before = out@;
            if is_bad_name(&pkgs[i]) {
                out.push(ConfigIssue::BadPackageName(pkgs[i].clone()));
                assert(issue_views(out@) =~= issue_views(before).push(q(i as int)->0));
            }
            i = i + 1;
        }
        let ghost pkg_part = issue_views(out@);
        if self.tracking_depth > HIGH_DEPTH {
            out.push(ConfigIssue::HighDepth(self.tracking_depth));
        }
        let ghost depth_part = issue_views(out@);
        assert(depth_part =~= pkg_part + if c.tracking_depth > HIGH_DEPTH {
            seq![IssueView::HighDepth(c.tracking_depth)]
        } else {
            Seq::empty()
        });
        let ghost e = dir_depth_issue(c);
        i = 0;
        assert(issue_views(out@) =~= depth_part + collect(0, e));
        while i < dirs.len()
            invariant
                i <= dirs@.len(),
                dirs@ == c.monitored_dirs@,
                e == dir_depth_issue(c),
                issue_views(out@) == depth_part + collect(i as int, e),
            decreases dirs@.len() - i,
        {
            let ghost before = out@;
            match dirs[i].depth {
                Some(d) => {
                    if d > HIGH_DEPTH {
                        out.push(ConfigIssue::HighDirDepth(dirs[i].path.clone(), d));
                        assert(issue_views(out@) =~= issue_views(before).push(e(i as int)->0));
                    }
                },
                None => {},
            }
            i = i + 1;
        }
        assert(issue_views(out@) =~= issues_of(c));
        out
    }
}

/// The monitored directory that `expanded` lies under (the first in the
/// configured order, as the canonicaliser picks it) and its configured
/// depth; `(None, None)` when there is none.
pub fn find_matching_dir(expanded: &str, home: &str, config: &Config) -> (r: (
    Option<String>,
    Option<u32>,
))
    ensures
        ({
            let k = first_match(expanded@, home@, config.monitored_dirs@, 0);
            if k < config.monitored_dirs@.len() {
                crate::text::opt_view(r.0) == Some(config.monitored_dirs@[k].path@) && r.1 == Some(
                    configured_depth(config.monitored_dirs@[k], config.tracking_depth) as u32,
                )
            } else {
                r.0 is None && r.1 is None
            }
        }),
{
    let p = chars_of(expanded);
    let h = chars_of(home);
    let dirs = &config.monitored_dirs;
    proof {
        lemma_first_match(p@, h@, dirs@, 0);
    }
    let mut k: usize = 0;
    while k < dirs.len()
        invariant
            k <= dirs@.len(),
            dirs@ == config.monitored_dirs@,
            p@ == expanded@,
            h@ == home@,
            first_match(p@, h@, dirs@, 0) == first_match(p@, h@, dirs@, k as int),
        decreases dirs@.len() - k,
    {
        let d = chars_of(dirs[k].path.as_str());
        if match_dir(&p, &h, &d).is_some() {
            let depth = match dirs[k].depth {
                Some(x) => x,
                None => config.tracking_depth,
            };
            assert(first_match(p@, h@, dirs@, k as int) == k);
            let out = dirs[k].path.clone();
            assert(out@ == config.monitored_dirs@[k as int].path@);
            assert(depth == configured_depth(config.monitored_dirs@[k as int], config.tracking_depth));
            return (Some(out), Some(depth));
        }
        k = k + 1;
    }
    (None, None)
}

} // verus!
