//! The package-manager adapter: which manager the host has, how to ask it
//! for installed packages and for the owner of a path, and how to read its
//! answers.

use vstd::prelude::*;
use crate::store::{contains_string, string_views};
use crate::text::{
    chars_of, has_infix, has_infix_chars, has_prefix_at, is_digit, nested_views,
    slice_string, split_on, split_on_exec, str_eq, trim_ws, trim_ws_bounds, ws_tokens,
    ws_tokens_exec,
};

verus! {

/// The package managers the adapter knows, in detection order.
#[derive(Debug, Clone, Copy, PartialEq, Eq, Structural)]
pub enum PkgMgr {
    Pacman,
    Dpkg,
    Rpm,
    Xbps,
    Apk,
}

/// The binary whose presence on `PATH` reveals the manager.
pub open spec fn probe_name(m: PkgMgr) -> Seq<char> {
    match m {
        PkgMgr::Pacman => "pacman"@,
        PkgMgr::Dpkg => "dpkg"@,
        PkgMgr::Rpm => "rpm"@,
        PkgMgr::Xbps => "xbps-query"@,
        PkgMgr::Apk => "apk"@,
    }
}

/// The manager detected from the binaries found on `PATH`: the first of
/// pacman, dpkg, rpm, xbps, apk whose binary was found.
pub open spec fn detected(found: Seq<Seq<char>>) -> Option<PkgMgr> {
    if found.contains(probe_name(PkgMgr::Pacman)) {
        Some(PkgMgr::Pacman)
    } else if found.contains(probe_name(PkgMgr::Dpkg)) {
        Some(PkgMgr::Dpkg)
    } else if found.contains(probe_name(PkgMgr::Rpm)) {
        Some(PkgMgr::Rpm)
    } else if found.contains(probe_name(PkgMgr::Xbps)) {
        Some(PkgMgr::Xbps)
    } else if found.contains(probe_name(PkgMgr::Apk)) {
        Some(PkgMgr::Apk)
    } else {
        None
    }
}

/// The package names of the manager itself.
pub open spec fn manager_names(m: PkgMgr) -> Seq<Seq<char>> {
    match m {
        PkgMgr::Pacman => seq!["pacman"@],
        PkgMgr::Dpkg => seq!["dpkg"@, "apt"@],
        PkgMgr::Rpm => seq!["rpm"@, "dnf"@, "yum"@],
        PkgMgr::Xbps => seq!["xbps-install"@],
        PkgMgr::Apk => seq!["apk"@],
    }
}

/// The listing command of each manager, program first.
pub open spec fn list_argv(m: PkgMgr) -> Seq<Seq<char>> {
    match m {
        PkgMgr::Pacman => seq!["pacman"@, "-Qq"@],
        PkgMgr::Dpkg => seq!["dpkg-query"@, "-W"@, "-f"@, "${Package}\\n"@],
        PkgMgr::Rpm => seq!["rpm"@, "-qa"@, "--qf"@, "%{NAME}\\n"@],
        PkgMgr::Xbps => seq!["xbps-query"@, "-l"@],
        PkgMgr::Apk => seq!["apk"@, "list"@, "--installed"@, "-q"@],
    }
}

/// The ownership query of each manager, program first, the path to follow.
pub open spec fn owner_argv(m: PkgMgr) -> Seq<Seq<char>> {
    match m {
        PkgMgr::Pacman => seq!["pacman"@, "-Qo"@],
        PkgMgr::Dpkg => seq!["dpkg"@, "-S"@],
        PkgMgr::Rpm => seq!["rpm"@, "-qf"@, "--qf"@, "%{NAME}"@],
        PkgMgr::Xbps => seq!["xbps-query"@, "-o"@],
        PkgMgr::Apk => seq!["apk"@, "info"@, "--who-owns"@],
    }
}

pub open spec fn str_views(v: Seq<&str>) -> Seq<Seq<char>> {
    v.map_values(|s: &str| s@)
}

/// Index of the last `-` that a digit follows, at or before `n - 1`; or -1.
pub open spec fn version_dash(s: Seq<char>, n: int) -> int
    decreases n,
{
    if n <= 0 || n > s.len() {
        -1
    } else if s[n - 1] == '-' && n < s.len() && is_digit(s[n]) {
        n - 1
    } else {
        version_dash(s, n - 1)
    }
}

/// A `name-version` token without its version: cut at the last `-` that a
/// digit follows, or kept whole when there is none.
pub open spec fn strip_version(s: Seq<char>) -> Seq<char> {
    let k = version_dash(s, s.len() as int);
    if k >= 0 {
        s.subrange(0, k)
    } else {
        s
    }
}

/// The package that one line of the installed-package listing names.
pub open spec fn line_entry(m: PkgMgr, line: Seq<char>) -> Option<Seq<char>> {
    match m {
        PkgMgr::Xbps => {
            let toks = ws_tokens(line);
            if toks.len() >= 2 {
                Some(strip_version(toks[1]))
            } else {
                None
            }
        },
        PkgMgr::Apk => {
            let t = trim_ws(line);
            if t.len() > 0 {
                Some(strip_version(t))
            } else {
                None
            }
        },
        _ => {
            let t = trim_ws(line);
            if t.len() > 0 {
                Some(t)
            } else {
                None
            }
        },
    }
}

/// The package names in the installed-package listing `text`.
pub open spec fn installed_names(m: PkgMgr, text: Seq<char>) -> Set<Seq<char>> {
    Set::new(
        |n: Seq<char>|
            exists|i: int|
                0 <= i < split_on(text, '\n').len() && line_entry(
                    m,
                    #[trigger] split_on(text, '\n')[i],
                ) == Some(n),
    )
}

/// Index of the first occurrence of `p` in `s` at or after `i`, or `s.len()`.
pub open spec fn find_sub(s: Seq<char>, p: Seq<char>, i: int) -> int
    decreases s.len() - i,
{
    if i < 0 || i + p.len() > s.len() {
        s.len() as int
    } else if p.len() == 0 || s.subrange(i, i + p.len()) == p {
        i
    } else {
        find_sub(s, p, i + 1)
    }
}

pub open spec fn owned_by_marker() -> Seq<char> {
    seq!['i', 's', ' ', 'o', 'w', 'n', 'e', 'd', ' ', 'b', 'y', ' ']
}

pub open spec fn not_owned_marker() -> Seq<char> {
    seq!['n', 'o', 't', ' ', 'o', 'w', 'n', 'e', 'd']
}

pub open spec fn nonempty(s: Seq<char>) -> Option<Seq<char>> {
    if s.len() > 0 {
        Some(s)
    } else {
        None
    }
}

/// The owner that the manager's answer to an ownership query names.
pub open spec fn owner_from(m: PkgMgr, success: bool, text: Seq<char>) -> Option<Seq<char>> {
    if !success {
        None
    } else {
        match m {
            PkgMgr::Pacman => {
                let toks = ws_tokens(text);
                if toks.len() >= 5 {
                    Some(toks[4])
                } else {
                    None
                }
            },
            PkgMgr::Dpkg => nonempty(trim_ws(split_on(split_on(text, '\n')[0], ':')[0])),
            PkgMgr::Rpm => {
                let t = trim_ws(text);
                if has_infix(t, not_owned_marker()) {
                    None
                } else {
                    nonempty(t)
                }
            },
            PkgMgr::Xbps => nonempty(
                strip_version(trim_ws(split_on(split_on(text, '\n')[0], ':')[0])),
            ),
            PkgMgr::Apk => {
                let k = find_sub(text, owned_by_marker(), 0);
                if k + owned_by_marker().len() > text.len() {
                    None
                } else {
                    nonempty(
                        strip_version(
                            trim_ws(text.subrange(k + owned_by_marker().len(), text.len() as int)),
                        ),
                    )
                }
            },
        }
    }
}

fn strip_version_chars(s: &[char]) -> (r: String)
    ensures
        r@ == strip_version(s@),
{
    let mut n = s.len();
    while n > 0 && !(s[n - 1] == '-' && n < s.len() && '0' <= s[n] && s[n] <= '9')
        invariant
            n <= s@.len(),
            version_dash(s@, s@.len() as int) == version_dash(s@, n as int),
        decreases n,
    {
        n = n - 1;
    }
    if n > 0 {
        slice_string(s, 0, n - 1)
    } else {
        assert(s@.subrange(0, s@.len() as int) =~= s@);
        slice_string(s, 0, s.len())
    }
}

/// `strip_version` on a string.
pub fn strip_version_str(s: &str) -> (r: String)
    ensures
        r@ == strip_version(s@),
{
    let c = chars_of(s);
    strip_version_chars(c.as_slice())
}

fn trimmed(s: &[char]) -> (r: Vec<char>)
    ensures
        r@ == trim_ws(s@),
{
    let (a, b) = trim_ws_bounds(s);
    vstd::slice::slice_to_vec(&s[a..b])
}

fn line_entry_exec(m: PkgMgr, line: &[char]) -> (r: Option<String>)
    ensures
        crate::text::opt_view(r) == line_entry(m, line@),
{
    match m {
        PkgMgr::Xbps => {
            let toks = ws_tokens_exec(line);
            if toks.len() >= 2 {
                assert(nested_views(toks@)[1] == toks@[1]@);
                Some(strip_version_chars(toks[1].as_slice()))
            } else {
                None
            }
        },
        PkgMgr::Apk => {
            let t = trimmed(line);
            if t.len() > 0 {
                Some(strip_version_chars(t.as_slice()))
            } else {
                None
            }
        },
        _ => {
            let t = trimmed(line);
            if t.len() > 0 {
                Some(crate::text::string_of(t.as_slice()))
            } else {
                None
            }
        },
    }
}

fn find_sub_exec(s: &[char], p: &[char]) -> (r: usize)
    ensures
        r == find_sub(s@, p@, 0),
{
    let mut i: usize = 0;
    loop
        invariant
            i <= s@.len(),
            find_sub(s@, p@, 0) == find_sub(s@, p@, i as int),
        decreases s@.len() - i,
    {
        if p.len() > s.len() - i {
            return s.len();
        }
        if p.len() == 0 {
            return i;
        }
        if has_prefix_at(s, i, p) {
            assert(s@.subrange(i as int, s@.len() as int).subrange(0, p@.len() as int)
                =~= s@.subrange(i as int, i + p@.len()));
            return i;
        }
        assert(s@.subrange(i as int, s@.len() as int).subrange(0, p@.len() as int)
            =~= s@.subrange(i as int, i + p@.len()));
        i = i + 1;
    }
}

fn first_field(text: &[char]) -> (r: Vec<char>)
    ensures
        r@ == trim_ws(split_on(split_on(text@, '\n')[0], ':')[0]),
{
    let lines = split_on_exec(text, '\n');
    assert(nested_views(lines@)[0] == lines@[0]@);
    let fields = split_on_exec(lines[0].as_slice(), ':');
    assert(nested_views(fields@)[0] == fields@[0]@);
    trimmed(fields[0].as_slice())
}

impl PkgMgr {
    /// The managers in detection order.
    pub fn candidates() -> (r: Vec<PkgMgr>)
        ensures
            r@ == seq![PkgMgr::Pacman, PkgMgr::Dpkg, PkgMgr::Rpm, PkgMgr::Xbps, PkgMgr::Apk],
    {
        let r = vec![PkgMgr::Pacman, PkgMgr::Dpkg, PkgMgr::Rpm, PkgMgr::Xbps, PkgMgr::Apk];
        assert(r@ =~= seq![PkgMgr::Pacman, PkgMgr::Dpkg, PkgMgr::Rpm, PkgMgr::Xbps, PkgMgr::Apk]);
        r
    }

    /// The binary whose presence on `PATH` reveals this manager.
    pub fn probe_binary(&self) -> (r: &'static str)
        ensures
            r@ == probe_name(*self),
    {
        match self {
            PkgMgr::Pacman => "pacman",
            PkgMgr::Dpkg => "dpkg",
            PkgMgr::Rpm => "rpm",
            PkgMgr::Xbps => "xbps-query",
            PkgMgr::Apk => "apk",
        }
    }

    /// The manager to use, given the names of the binaries found on `PATH`.
    pub fn detect(found: &Vec<String>) -> (r: Option<PkgMgr>)
        ensures
            r == detected(string_views(found@)),
    {
        let all = PkgMgr::candidates();
        let mut i: usize = 0;
        while i < all.len()
            invariant
                all@ == seq![PkgMgr::Pacman, PkgMgr::Dpkg, PkgMgr::Rpm, PkgMgr::Xbps, PkgMgr::Apk],
                i <= 5,
                forall|j: int| 0 <= j < i ==> !string_views(found@).contains(probe_name(#[trigger] all@[j])),
            decreases 5 - i,
        {
            let m = all[i];
            let name = m.probe_binary();
            let mut k: usize = 0;
            let mut hit = false;
            while k < found.len()
                invariant
                    k <= found@.len(),
                    hit ==> string_views(found@).contains(name@),
                    !hit ==> forall|j: int| 0 <= j < k ==> found@[j]@ != name@,
                decreases found@.len() - k,
            {
                if str_eq(found[k].as_str(), name) {
                    assert(string_views(found@)[k as int] == name@);
                    hit = true;
                }
                k = k + 1;
            }
            if hit {
                return Some(m);
            }
            assert forall|j: int| 0 <= j < string_views(found@).len() implies string_views(found@)[j] != name@ by {
                assert(string_views(found@)[j] == found@[j]@);
            }
            i = i + 1;
        }
        None
    }

    /// The package names of this manager itself.
    pub fn manager_package_names(&self) -> (r: Vec<&'static str>)
        ensures
            str_views(r@) == manager_names(*self),
    {
        let r: Vec<&'static str> = match self {
            PkgMgr::Pacman => vec!["pacman"],
            PkgMgr::Dpkg => vec!["dpkg", "apt"],
            PkgMgr::Rpm => vec!["rpm", "dnf", "yum"],
            PkgMgr::Xbps => vec!["xbps-install"],
            PkgMgr::Apk => vec!["apk"],
        };
        assert(str_views(r@) =~= manager_names(*self));
        r
    }

    /// The short name of this manager.
    pub fn name(&self) -> (r: &'static str)
        ensures
            r@ == match *self {
                PkgMgr::Pacman => "pacman"@,
                PkgMgr::Dpkg => "dpkg"@,
                PkgMgr::Rpm => "rpm"@,
                PkgMgr::Xbps => "xbps"@,
                PkgMgr::Apk => "apk"@,
            },
    {
        match self {
            PkgMgr::Pacman => "pacman",
            PkgMgr::Dpkg => "dpkg",
            PkgMgr::Rpm => "rpm",
            PkgMgr::Xbps => "xbps",
            PkgMgr::Apk => "apk",
        }
    }

    /// Whether `pkg` is the package manager itself.
    pub fn is_self_package(&self, pkg: &str) -> (r: bool)
        ensures
            r == manager_names(*self).contains(pkg@),
    {
        let names = self.manager_package_names();
        let mut i: usize = 0;
        while i < names.len()
            invariant
                i <= names@.len(),
                str_views(names@) == manager_names(*self),
                forall|j: int| 0 <= j < i ==> names@[j]@ != pkg@,
            decreases names@.len() - i,
        {
            if str_eq(names[i], pkg) {
                assert(str_views(names@)[i as int] == pkg@);
                return true;
            }
            i = i + 1;
        }
        assert forall|j: int| 0 <= j < manager_names(*self).len() implies manager_names(*self)[j] != pkg@ by {
            assert(str_views(names@)[j] == names@[j]@);
        }
        false
    }

    /// The command that lists the installed packages, program first.
    pub fn list_command(&self) -> (r: Vec<&'static str>)
        ensures
            str_views(r@) == list_argv(*self),
    {
        let r: Vec<&'static str> = match self {
            PkgMgr::Pacman => vec!["pacman", "-Qq"],
            PkgMgr::Dpkg => vec!["dpkg-query", "-W", "-f", "${Package}\\n"],
            PkgMgr::Rpm => vec!["rpm", "-qa", "--qf", "%{NAME}\\n"],
            PkgMgr::Xbps => vec!["xbps-query", "-l"],
            PkgMgr::Apk => vec!["apk", "list", "--installed", "-q"],
        };
        assert(str_views(r@) =~= list_argv(*self));
        r
    }

    /// The command that asks for the owner of a path, program first; the
    /// path goes last.
    pub fn owner_command(&self) -> (r: Vec<&'static str>)
        ensures
            str_views(r@) == owner_argv(*self),
    {
        let r: Vec<&'static str> = match self {
            PkgMgr::Pacman => vec!["pacman", "-Qo"],
            PkgMgr::Dpkg => vec!["dpkg", "-S"],
            PkgMgr::Rpm => vec!["rpm", "-qf", "--qf", "%{NAME}"],
            PkgMgr::Xbps => vec!["xbps-query", "-o"],
            PkgMgr::Apk => vec!["apk", "info", "--who-owns"],
        };
        assert(str_views(r@) =~= owner_argv(*self));
        r
    }

    /// The distinct package names in the output of the listing command.
    pub fn parse_installed(&self, text: &str) -> (r: Vec<String>)
        ensures
            string_views(r@).no_duplicates(),
            string_views(r@).to_set() == installed_names(*self, text@),
    {
        let t = chars_of(text);
        let lines = split_on_exec(t.as_slice(), '\n');
        let mut out: Vec<String> = Vec::new();
        let mut i: usize = 0;
        while i < lines.len()
            invariant
                i <= lines@.len(),
                t@ == text@,
                nested_views(lines@) == split_on(text@, '\n'),
                string_views(out@).no_duplicates(),
                forall|x: Seq<char>|
                    string_views(out@).contains(x) <==> (exists|j: int|
                        0 <= j < i && line_entry(*self, #[trigger] split_on(text@, '\n')[j])
                            == Some(x)),
            decreases lines@.len() - i,
        {
            assert(nested_views(lines@)[i as int] == lines@[i as int]@);
            let e = line_entry_exec(*self, lines[i].as_slice());
            let ghost before = out@;
            let ghost line = split_on(text@, '\n')[i as int];
            match e {
                Some(name) => {
                    if !contains_string(&out, &name) {
                        out.push(name);
                        assert(string_views(out@) =~= string_views(before).push(
                            line_entry(*self, line)->0,
                        ));
                    }
                },
                None => {},
            }
            assert forall|x: Seq<char>|
                string_views(out@).contains(x) <==> (exists|j: int|
                    0 <= j < i + 1 && line_entry(*self, #[trigger] split_on(text@, '\n')[j])
                        == Some(x)) by {
                let sb = string_views(before);
                if sb.contains(x) {
                    let k = choose|k: int| 0 <= k < sb.len() && sb[k] == x;
                    assert(string_views(out@)[k] == x);
                }
                if string_views(out@).contains(x) {
                    let k = choose|k: int|
                        0 <= k < string_views(out@).len() && string_views(out@)[k] == x;
                    if k < sb.len() {
                        assert(sb[k] == x);
                    }
                }
                if line_entry(*self, line) == Some(x) {
                    if string_views(out@).len() > sb.len() {
                        assert(string_views(out@)[sb.len() as int] == x);
                    }
                }
            }
            i = i + 1;
        }
        assert(string_views(out@).to_set() =~= installed_names(*self, text@));
        out
    }

    /// The owner named in the answer to the ownership query; `success` is
    /// whether the command exited with status zero.
    pub fn parse_owner(&self, success: bool, text: &str) -> (r: Option<String>)
        ensures
            crate::text::opt_view(r) == owner_from(*self, success, text@),
    {
        if !success {
            return None;
        }
        let t = chars_of(text);
        match self {
            PkgMgr::Pacman => {
                let toks = ws_tokens_exec(t.as_slice());
                if toks.len() >= 5 {
                    assert(nested_views(toks@)[4] == toks@[4]@);
                    Some(crate::text::string_of(toks[4].as_slice()))
                } else {
                    None
                }
            },
            PkgMgr::Dpkg => {
                let f = first_field(t.as_slice());
                if f.len() > 0 {
                    Some(crate::text::string_of(f.as_slice()))
                } else {
                    None
                }
            },
            PkgMgr::Rpm => {
                let f = trimmed(t.as_slice());
                let m: Vec<char> = vec!['n', 'o', 't', ' ', 'o', 'w', 'n', 'e', 'd'];
                assert(m@ =~= not_owned_marker());
                if has_infix_chars(f.as_slice(), m.as_slice()) || f.len() == 0 {
                    None
                } else {
                    Some(crate::text::string_of(f.as_slice()))
                }
            },
            PkgMgr::Xbps => {
                let f = first_field(t.as_slice());
                let n = strip_version_chars(f.as_slice());
                if !n.as_str().is_empty() {
                    Some(n)
                } else {
                    None
                }
            },
            PkgMgr::Apk => {
                let m: Vec<char> = vec!['i', 's', ' ', 'o', 'w', 'n', 'e', 'd', ' ', 'b', 'y', ' '];
                assert(m@ =~= owned_by_marker());
                let k = find_sub_exec(t.as_slice(), m.as_slice());
                if k > t.len() || m.len() > t.len() - k {
                    return None;
                }
                let rest = trimmed(&t.as_slice()[k + m.len()..t.len()]);
                let n = strip_version_chars(rest.as_slice());
                if !n.as_str().is_empty() {
                    Some(n)
                } else {
                    None
                }
            },
        }
    }
}

} // verus!
