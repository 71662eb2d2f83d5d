//! The path canonicaliser: decides whether an opened path lies under a
//! monitored directory and truncates it to the configured depth.

use vstd::prelude::*;
use vstd::slice::slice_to_vec;
use crate::text::{lemma_find_from, chars_of, find_char, find_from, has_prefix, has_prefix_at, push_all, opt_view, string_of, trim_end_char, trim_end_char_len, trim_start_char, trim_start_char_at, chars_eq};

verus! {

/// A monitored directory: absolute (`/etc`) or relative to the home
/// directory (`.cache`), with an optional depth of its own.
pub struct MonitoredDir {
    pub path: String,
    pub depth: Option<u32>,
}

/// `PathBuf::push` of a relative path onto `base`.
pub open spec fn join_path(base: Seq<char>, rel: Seq<char>) -> Seq<char> {
    if base.len() == 0 {
        rel
    } else if base.last() == '/' {
        base + rel
    } else {
        base + seq!['/'] + rel
    }
}

pub open spec fn is_absolute(s: Seq<char>) -> bool {
    s.len() > 0 && s[0] == '/'
}

/// An opened path made absolute: relative paths are taken from `home`.
pub open spec fn absolutise(f: Seq<char>, home: Seq<char>) -> Seq<char> {
    if is_absolute(f) {
        f
    } else {
        join_path(home, f)
    }
}

/// The name of a relative monitored directory, without its leading dots.
pub open spec fn dir_name(d: Seq<char>) -> Seq<char> {
    trim_start_char(d, '.')
}

/// What a path relative to home must begin with to lie under `d`.
pub open spec fn dir_prefix(d: Seq<char>) -> Seq<char> {
    seq!['.'] + dir_name(d) + seq!['/']
}

/// An absolute monitored directory without its trailing slashes.
pub open spec fn abs_base(d: Seq<char>) -> Seq<char> {
    trim_end_char(d, '/')
}

/// `p` with the home prefix and the slashes after it removed.
pub open spec fn rel_of(p: Seq<char>, home: Seq<char>) -> Seq<char> {
    trim_start_char(p.subrange(home.len() as int, p.len() as int), '/')
}

/// Absolute path `p` lies under monitored directory `d`.
pub open spec fn dir_matches(p: Seq<char>, home: Seq<char>, d: Seq<char>) -> bool {
    if is_absolute(d) {
        p == abs_base(d) || has_prefix(p, abs_base(d) + seq!['/'])
    } else {
        has_prefix(p, home) && has_prefix(rel_of(p, home), dir_prefix(d))
    }
}

/// The part of `p` below monitored directory `d` (when `dir_matches`).
pub open spec fn remainder(p: Seq<char>, home: Seq<char>, d: Seq<char>) -> Seq<char> {
    if is_absolute(d) {
        if p == abs_base(d) {
            Seq::empty()
        } else {
            p.subrange(abs_base(d).len() as int + 1, p.len() as int)
        }
    } else {
        rel_of(p, home).subrange(dir_prefix(d).len() as int, rel_of(p, home).len() as int)
    }
}

/// The first path component of `s`.
pub open spec fn first_component(s: Seq<char>) -> Seq<char> {
    s.subrange(0, find_from(s, '/', 0))
}

/// Paths under `~/.local/share`, `~/.local/state` and `~/.local/lib` keep one
/// more component: the per-application directories live one level deeper.
pub open spec fn is_umbrella(d: Seq<char>, rem: Seq<char>) -> bool {
    !is_absolute(d) && dir_name(d) == seq!['l', 'o', 'c', 'a', 'l'] && {
        let c = first_component(rem);
        c == seq!['s', 'h', 'a', 'r', 'e'] || c == seq!['s', 't', 'a', 't', 'e'] || c == seq![
            'l',
            'i',
            'b',
        ]
    }
}

/// The depth configured for `dir`: its own, else the default.
pub open spec fn configured_depth(dir: MonitoredDir, default_depth: u32) -> int {
    match dir.depth {
        Some(x) => x as int,
        None => default_depth as int,
    }
}

pub open spec fn effective_depth(dir: MonitoredDir, default_depth: u32, rem: Seq<char>) -> int {
    let c = configured_depth(dir, default_depth);
    if c > 0 && is_umbrella(dir.path@, rem) {
        c + 1
    } else {
        c
    }
}

/// Index just past the `n`th component of `s` that starts at `i`.
pub open spec fn comp_end(s: Seq<char>, n: int, i: int) -> int
    decreases n,
{
    let j = find_from(s, '/', i);
    if n <= 1 || j >= s.len() {
        j
    } else {
        comp_end(s, n - 1, j + 1)
    }
}

/// The first `n` (at least one) components of `s`, joined by `/`.
pub open spec fn take_components(s: Seq<char>, n: int) -> Seq<char> {
    s.subrange(0, comp_end(s, n, 0))
}

/// The canonical path of `p` under the matching directory `dir`.
pub open spec fn result_for(
    p: Seq<char>,
    home: Seq<char>,
    dir: MonitoredDir,
    default_depth: u32,
) -> Seq<char> {
    let d = dir.path@;
    let rem = remainder(p, home, d);
    let n = effective_depth(dir, default_depth, rem);
    if n == 0 {
        p
    } else if is_absolute(d) {
        if p == abs_base(d) {
            abs_base(d)
        } else {
            abs_base(d) + seq!['/'] + take_components(rem, n)
        }
    } else {
        home + seq!['/', '.'] + dir_name(d) + seq!['/'] + take_components(rem, n)
    }
}

/// Index of the first directory at or after `k` that `p` lies under, or `dirs.len()`.
pub open spec fn first_match(p: Seq<char>, home: Seq<char>, dirs: Seq<MonitoredDir>, k: int) -> int
    decreases dirs.len() - k,
{
    if k < 0 || k >= dirs.len() {
        dirs.len() as int
    } else if dir_matches(p, home, dirs[k].path@) {
        k
    } else {
        first_match(p, home, dirs, k + 1)
    }
}

/// The canonical path of opened path `f`, or `None` when it is not monitored.
pub open spec fn canonical(
    f: Seq<char>,
    home: Seq<char>,
    dirs: Seq<MonitoredDir>,
    default_depth: u32,
) -> Option<Seq<char>> {
    let p = absolutise(f, home);
    let k = first_match(p, home, dirs, 0);
    if k < dirs.len() {
        Some(result_for(p, home, dirs[k], default_depth))
    } else {
        None
    }
}

fn absolutise_chars(f: &Vec<char>, home: &Vec<char>) -> (r: Vec<char>)
    ensures
        r@ == absolutise(f@, home@),
{
    if f.len() > 0 && f[0] == '/' {
        return f.clone();
    }
    let mut r: Vec<char> = Vec::new();
    push_all(&mut r, home.as_slice());
    if home.len() > 0 && home[home.len() - 1] != '/' {
        r.push('/');
    }
    push_all(&mut r, f.as_slice());
    r
}


/// Where the remainder of `p` below `d` starts, when `p` lies under `d`.
pub(crate) fn match_dir(p: &Vec<char>, h: &Vec<char>, d: &Vec<char>) -> (r: Option<usize>)
    ensures
        r is Some <==> dir_matches(p@, h@, d@),
        r is Some ==> r->0 <= p@.len() && remainder(p@, h@, d@) == p@.subrange(
            r->0 as int,
            p@.len() as int,
        ),
{
    assert(p@.subrange(0, p@.len() as int) =~= p@);
    if d.len() > 0 && d[0] == '/' {
        let bl = trim_end_char_len(d.as_slice(), '/');
        let base = &d.as_slice()[0..bl];
        assert(base@ == abs_base(d@));
        if chars_eq(p.as_slice(), base) {
            assert(p@.subrange(p@.len() as int, p@.len() as int) =~= Seq::<char>::empty());
            return Some(p.len());
        }
        let pre = has_prefix_at(p.as_slice(), 0, base);
        if pre && p.len() > bl && p[bl] == '/' {
            assert(p@.subrange(0, bl + 1) =~= base@ + seq!['/']) by {
                assert(p@.subrange(0, bl as int) == base@);
            }
            return Some(bl + 1);
        }
        proof {
            if has_prefix(p@, abs_base(d@) + seq!['/']) {
                let b2 = abs_base(d@) + seq!['/'];
                assert(p@.subrange(0, bl + 1) == b2);
                assert(p@.subrange(0, bl as int) =~= b2.subrange(0, bl as int));
                assert(b2.subrange(0, bl as int) =~= base@);
                assert(p@.subrange(0, p@.len() as int).subrange(0, bl as int) =~= base@);
                assert(pre);
                assert(p@[bl as int] == b2[bl as int]);
                assert(false);
            }
            assert(p@ != abs_base(d@));
        }
        None
    } else {
        if !has_prefix_at(p.as_slice(), 0, h.as_slice()) {
            return None;
        }
        let r0 = trim_start_char_at(p.as_slice(), '/', h.len());
        assert(rel_of(p@, h@) == p@.subrange(r0 as int, p@.len() as int));
        assert(!is_absolute(d@));
        let ns = trim_start_char_at(d.as_slice(), '.', 0);
        assert(d@.subrange(0, d@.len() as int) =~= d@);
        let mut pre: Vec<char> = Vec::new();
        pre.push('.');
        push_all(&mut pre, &d.as_slice()[ns..d.len()]);
        pre.push('/');
        assert(pre@ =~= dir_prefix(d@));
        if has_prefix_at(p.as_slice(), r0, pre.as_slice()) {
            assert(pre.len() <= p.len() - r0);
            assert(remainder(p@, h@, d@) =~= p@.subrange(r0 + pre@.len(), p@.len() as int));
            Some(r0 + pre.len())
        } else {
            assert(!has_prefix(rel_of(p@, h@), dir_prefix(d@)));
            assert(!dir_matches(p@, h@, d@));
            None
        }
    }
}

fn comp_end_exec(s: &[char], n: u64) -> (r: usize)
    requires
        n >= 1,
    ensures
        r == comp_end(s@, n as int, 0),
        r <= s@.len(),
{
    let mut i: usize = 0;
    let mut m: u64 = n;
    loop
        invariant
            i <= s@.len(),
            m >= 1,
            comp_end(s@, n as int, 0) == comp_end(s@, m as int, i as int),
        decreases m,
    {
        let j = find_char(s, '/', i);
        proof {
            lemma_find_from(s@, '/', i as int);
        }
        if m <= 1 || j >= s.len() {
            return j;
        }
        i = j + 1;
        m = m - 1;
    }
}

fn is_umbrella_exec(d: &Vec<char>, rem: &Vec<char>) -> (r: bool)
    ensures
        r == is_umbrella(d@, rem@),
{
    if d.len() > 0 && d[0] == '/' {
        return false;
    }
    let ns = trim_start_char_at(d.as_slice(), '.', 0);
    assert(d@.subrange(0, d@.len() as int) =~= d@);
    let local: Vec<char> = vec!['l', 'o', 'c', 'a', 'l'];
    if !chars_eq(&d.as_slice()[ns..d.len()], local.as_slice()) {
        assert(local@ =~= seq!['l', 'o', 'c', 'a', 'l']);
        return false;
    }
    let j = find_char(rem.as_slice(), '/', 0);
    proof {
        lemma_find_from(rem@, '/', 0);
    }
    let first = &rem.as_slice()[0..j];
    let share: Vec<char> = vec!['s', 'h', 'a', 'r', 'e'];
    let state: Vec<char> = vec!['s', 't', 'a', 't', 'e'];
    let lib: Vec<char> = vec!['l', 'i', 'b'];
    assert(share@ =~= seq!['s', 'h', 'a', 'r', 'e']);
    assert(state@ =~= seq!['s', 't', 'a', 't', 'e']);
    assert(lib@ =~= seq!['l', 'i', 'b']);
    assert(local@ =~= seq!['l', 'o', 'c', 'a', 'l']);
    chars_eq(first, share.as_slice()) || chars_eq(first, state.as_slice()) || chars_eq(
        first,
        lib.as_slice(),
    )
}

/// The canonical path of `p` under `dir`, whose remainder starts at `rs`.
fn result_chars(
    p: &Vec<char>,
    h: &Vec<char>,
    dir: &MonitoredDir,
    d: &Vec<char>,
    default_depth: u32,
    rs: usize,
) -> (r: Vec<char>)
    requires
        d@ == dir.path@,
        dir_matches(p@, h@, d@),
        rs <= p@.len(),
        remainder(p@, h@, d@) == p@.subrange(rs as int, p@.len() as int),
    ensures
        r@ == result_for(p@, h@, *dir, default_depth),
{
    let rem = slice_to_vec(&p.as_slice()[rs..p.len()]);
    let conf: u64 = match dir.depth {
        Some(x) => x as u64,
        None => default_depth as u64,
    };
    let n: u64 = if conf > 0 && is_umbrella_exec(d, &rem) {
        conf + 1
    } else {
        conf
    };
    if n == 0 {
        return p.clone();
    }
    let cut = comp_end_exec(rem.as_slice(), n);
    let taken = &rem.as_slice()[0..cut];
    let mut r: Vec<char> = Vec::new();
    if d.len() > 0 && d[0] == '/' {
        let bl = trim_end_char_len(d.as_slice(), '/');
        let base = &d.as_slice()[0..bl];
        if chars_eq(p.as_slice(), base) {
            push_all(&mut r, base);
            return r;
        }
        push_all(&mut r, base);
        r.push('/');
        push_all(&mut r, taken);
        r
    } else {
        let ns = trim_start_char_at(d.as_slice(), '.', 0);
        assert(d@.subrange(0, d@.len() as int) =~= d@);
        push_all(&mut r, h.as_slice());
        r.push('/');
        r.push('.');
        push_all(&mut r, &d.as_slice()[ns..d.len()]);
        r.push('/');
        push_all(&mut r, taken);
        assert(r@ =~= h@ + seq!['/', '.'] + dir_name(d@) + seq!['/'] + take_components(rem@, n as int));
        r
    }
}

/// The canonical path under which an opened file is recorded, or `None`
/// when it lies under no monitored directory.
///
/// A relative `full_path` is taken from `home`. The first monitored
/// directory (in the configured order) that the path lies under decides;
/// its depth, or `depth` when it has none, gives how many components below
/// it are kept (0 keeps the whole path).
pub fn get_tracked_path(
    full_path: &str,
    home: &str,
    monitored_dirs: &Vec<MonitoredDir>,
    depth: u32,
) -> (r: Option<String>)
    ensures
        opt_view(r) == canonical(full_path@, home@, monitored_dirs@, depth),
{
    let f = chars_of(full_path);
    let h = chars_of(home);
    let p = absolutise_chars(&f, &h);
    let mut k: usize = 0;
    while k < monitored_dirs.len()
        invariant
            k <= monitored_dirs@.len(),
            p@ == absolutise(full_path@, home@),
            h@ == home@,
            first_match(p@, h@, monitored_dirs@, 0) == first_match(p@, h@, monitored_dirs@, k as int),
        decreases monitored_dirs@.len() - k,
    {
        let dir = &monitored_dirs[k];
        let d = chars_of(dir.path.as_str());
        match match_dir(&p, &h, &d) {
            Some(rs) => {
                let r = result_chars(&p, &h, dir, &d, depth, rs);
                return Some(string_of(r.as_slice()));
            },
            None => {},
        }
        k = k + 1;
    }
    None
}


pub proof fn lemma_first_match(p: Seq<char>, home: Seq<char>, dirs: Seq<MonitoredDir>, k: int)
    requires
        0 <= k <= dirs.len(),
    ensures
        k <= first_match(p, home, dirs, k) <= dirs.len(),
        first_match(p, home, dirs, k) < dirs.len() ==> dir_matches(
            p,
            home,
            dirs[first_match(p, home, dirs, k)].path@,
        ),
        forall|j: int|
            k <= j < first_match(p, home, dirs, k) ==> !dir_matches(
                p,
                home,
                #[trigger] dirs[j].path@,
            ),
    decreases dirs.len() - k,
{
    if k < dirs.len() && !dir_matches(p, home, dirs[k].path@) {
        lemma_first_match(p, home, dirs, k + 1);
    }
}

/// Number of `/` in `s`.
pub open spec fn slash_count(s: Seq<char>) -> int
    decreases s.len(),
{
    if s.len() == 0 {
        0
    } else {
        slash_count(s.drop_last()) + if s.last() == '/' {
            1int
        } else {
            0int
        }
    }
}

/// Number of `/`-separated components of `s`.
pub open spec fn component_count(s: Seq<char>) -> int {
    slash_count(s) + 1
}

proof fn lemma_slash_count_concat(a: Seq<char>, b: Seq<char>)
    ensures
        slash_count(a + b) == slash_count(a) + slash_count(b),
    decreases b.len(),
{
    if b.len() > 0 {
        assert((a + b).drop_last() =~= a + b.drop_last());
        lemma_slash_count_concat(a, b.drop_last());
    } else {
        assert(a + b =~= a);
    }
}

proof fn lemma_slash_count_nonneg(s: Seq<char>)
    ensures
        slash_count(s) >= 0,
    decreases s.len(),
{
    if s.len() > 0 {
        lemma_slash_count_nonneg(s.drop_last());
    }
}

proof fn lemma_slash_count_none(s: Seq<char>)
    requires
        forall|j: int| 0 <= j < s.len() ==> s[j] != '/',
    ensures
        slash_count(s) == 0,
    decreases s.len(),
{
    if s.len() > 0 {
        lemma_slash_count_none(s.drop_last());
    }
}

proof fn lemma_slash_count_split(s: Seq<char>, i: int, j: int, k: int)
    requires
        0 <= i <= j <= k <= s.len(),
    ensures
        slash_count(s.subrange(i, k)) == slash_count(s.subrange(i, j)) + slash_count(
            s.subrange(j, k),
        ),
{
    assert(s.subrange(i, k) =~= s.subrange(i, j) + s.subrange(j, k));
    lemma_slash_count_concat(s.subrange(i, j), s.subrange(j, k));
}

proof fn lemma_comp_end(s: Seq<char>, n: int, i: int)
    requires
        n >= 1,
        0 <= i <= s.len(),
    ensures
        find_from(s, '/', i) <= comp_end(s, n, i) <= s.len(),
        comp_end(s, n, i) < s.len() ==> s[comp_end(s, n, i)] == '/',
        slash_count(s.subrange(i, comp_end(s, n, i))) == if n - 1 <= slash_count(
            s.subrange(i, s.len() as int),
        ) {
            n - 1
        } else {
            slash_count(s.subrange(i, s.len() as int))
        },
    decreases n,
{
    let j = find_from(s, '/', i);
    lemma_find_from(s, '/', i);
    lemma_slash_count_none(s.subrange(i, j));
    lemma_slash_count_nonneg(s.subrange(i, s.len() as int));
    if j < s.len() {
        lemma_slash_count_nonneg(s.subrange(j + 1, s.len() as int));
    }
    if n <= 1 || j >= s.len() {
        if j >= s.len() {
            assert(s.subrange(i, j) =~= s.subrange(i, s.len() as int));
        } else {
            lemma_slash_count_split(s, i, j, s.len() as int);
        }
    } else {
        lemma_comp_end(s, n - 1, j + 1);
        lemma_find_from(s, '/', j + 1);
        let m = comp_end(s, n - 1, j + 1);
        lemma_slash_count_split(s, i, j, m);
        lemma_slash_count_split(s, j, j + 1, m);
        lemma_slash_count_split(s, i, j, s.len() as int);
        lemma_slash_count_split(s, j, j + 1, s.len() as int);
        assert(s.subrange(j, j + 1).drop_last() =~= Seq::<char>::empty());
        assert(slash_count(Seq::<char>::empty()) == 0);
        assert(s.subrange(j, j + 1).last() == '/');
        assert(slash_count(s.subrange(j, j + 1)) == 1);
    }
}

proof fn lemma_find_from_prefix(s: Seq<char>, c: char, m: int, i: int)
    requires
        0 <= i <= m <= s.len(),
    ensures
        find_from(s.subrange(0, m), c, i) == if find_from(s, c, i) < m {
            find_from(s, c, i)
        } else {
            m
        },
    decreases m - i,
{
    lemma_find_from(s, c, i);
    if i < m && s[i] != c {
        lemma_find_from_prefix(s, c, m, i + 1);
    }
}

proof fn lemma_comp_end_prefix(s: Seq<char>, n: int, i: int)
    requires
        n >= 1,
        0 <= i <= s.len(),
    ensures
        comp_end(s.subrange(0, comp_end(s, n, i)), n, i) == comp_end(s, n, i),
    decreases n,
{
    let m = comp_end(s, n, i);
    let t = s.subrange(0, m);
    let j = find_from(s, '/', i);
    lemma_comp_end(s, n, i);
    lemma_find_from(s, '/', i);
    lemma_find_from_prefix(s, '/', m, i);
    if n <= 1 || j >= s.len() {
    } else {
        let m2 = comp_end(s, n - 1, j + 1);
        lemma_comp_end(s, n - 1, j + 1);
        lemma_comp_end_prefix(s, n - 1, j + 1);
        assert(t =~= s.subrange(0, m2));
    }
}

/// Taking `n` components of what `take_components` kept keeps all of it.
proof fn lemma_take_components_idem(s: Seq<char>, n: int)
    requires
        n >= 1,
    ensures
        take_components(take_components(s, n), n) == take_components(s, n),
{
    lemma_comp_end(s, n, 0);
    lemma_find_from(s, '/', 0);
    lemma_comp_end_prefix(s, n, 0);
    let m = comp_end(s, n, 0);
    let t = take_components(s, n);
    assert(t == s.subrange(0, m));
    assert(comp_end(t, n, 0) == m);
    assert(t.subrange(0, m) =~= t);
}

proof fn lemma_take_components_first(s: Seq<char>, n: int)
    requires
        n >= 1,
    ensures
        first_component(take_components(s, n)) == first_component(s),
{
    lemma_comp_end(s, n, 0);
    lemma_find_from(s, '/', 0);
    let m = comp_end(s, n, 0);
    lemma_find_from_prefix(s, '/', m, 0);
    assert(take_components(s, n).subrange(0, find_from(s, '/', 0)) =~= s.subrange(
        0,
        find_from(s, '/', 0),
    ));
}

/// Within its own components, a depth of `n` keeps exactly `n` of them.
proof fn lemma_take_components_count(s: Seq<char>, n: int)
    requires
        n >= 1,
        component_count(s) >= n,
    ensures
        component_count(take_components(s, n)) == n,
{
    lemma_comp_end(s, n, 0);
    assert(s.subrange(0, s.len() as int) =~= s);
}

/// P is tracked at depth zero: the opened path is recorded whole.
pub proof fn lemma_depth_zero_keeps_path(
    f: Seq<char>,
    home: Seq<char>,
    dirs: Seq<MonitoredDir>,
    default_depth: u32,
)
    requires
        first_match(absolutise(f, home), home, dirs, 0) < dirs.len(),
        configured_depth(dirs[first_match(absolutise(f, home), home, dirs, 0)], default_depth)
            == 0,
    ensures
        canonical(f, home, dirs, default_depth) == Some(absolutise(f, home)),
{
}

/// At a depth `d > 0` (outside the `~/.local` umbrella directories), a path
/// with at least `d` components below its monitored directory is recorded
/// as that directory followed by exactly `d` components.
pub proof fn lemma_depth_keeps_components(
    f: Seq<char>,
    home: Seq<char>,
    dirs: Seq<MonitoredDir>,
    default_depth: u32,
)
    requires
        first_match(absolutise(f, home), home, dirs, 0) < dirs.len(),
        ({
            let p = absolutise(f, home);
            let dir = dirs[first_match(p, home, dirs, 0)];
            let rem = remainder(p, home, dir.path@);
            &&& configured_depth(dir, default_depth) > 0
            &&& !is_umbrella(dir.path@, rem)
            &&& component_count(rem) >= configured_depth(dir, default_depth)
            &&& (is_absolute(dir.path@) ==> p != abs_base(dir.path@))
        }),
    ensures
        ({
            let p = absolutise(f, home);
            let dir = dirs[first_match(p, home, dirs, 0)];
            let d = dir.path@;
            let base = if is_absolute(d) {
                abs_base(d) + seq!['/']
            } else {
                home + seq!['/', '.'] + dir_name(d) + seq!['/']
            };
            exists|t: Seq<char>|
                canonical(f, home, dirs, default_depth) == Some(base + t) && component_count(t)
                    == configured_depth(dir, default_depth)
        }),
{
    let p = absolutise(f, home);
    let dir = dirs[first_match(p, home, dirs, 0)];
    let rem = remainder(p, home, dir.path@);
    let n = configured_depth(dir, default_depth);
    lemma_take_components_count(rem, n);
    let t = take_components(rem, n);
    let d = dir.path@;
    if is_absolute(d) {
        assert(result_for(p, home, dir, default_depth) == abs_base(d) + seq!['/'] + t);
    } else {
        assert(result_for(p, home, dir, default_depth) =~= home + seq!['/', '.'] + dir_name(d)
            + seq!['/'] + t);
    }
}


/// Below `home`, `p` goes on with exactly one `/` (or ends there).
pub open spec fn home_separated(p: Seq<char>, home: Seq<char>) -> bool {
    has_prefix(p, home) ==> (p.len() == home.len() || (p[home.len() as int] == '/' && (p.len()
        == home.len() + 1 || p[home.len() as int + 1] != '/')))
}

/// `r` is `p` itself or a directory above it.
pub open spec fn is_ancestor_or_self(r: Seq<char>, p: Seq<char>) -> bool {
    r == p || has_prefix(p, r + seq!['/'])
}

proof fn lemma_take_is_ancestor(p: Seq<char>, a: Seq<char>, rem: Seq<char>, n: int)
    requires
        p == a + rem,
        n >= 1,
    ensures
        is_ancestor_or_self(a + take_components(rem, n), p),
{
    lemma_comp_end(rem, n, 0);
    lemma_find_from(rem, '/', 0);
    let m = comp_end(rem, n, 0);
    let r = a + take_components(rem, n);
    if m == rem.len() {
        assert(r =~= p);
    } else {
        assert(p.subrange(0, (r + seq!['/']).len() as int) =~= r + seq!['/']);
    }
}

proof fn lemma_trim_one_slash(s: Seq<char>)
    requires
        s.len() >= 1,
        s[0] == '/',
        s.len() == 1 || s[1] != '/',
    ensures
        trim_start_char(s, '/') == s.drop_first(),
{
    let t = s.drop_first();
    if t.len() > 0 {
        assert(t[0] != '/');
    }
    assert(trim_start_char(t, '/') == t);
}

/// Whenever a path is tracked, the tracked path is the opened path (made
/// absolute) or one of its ancestor directories; in particular a prefix of it.
pub proof fn lemma_tracked_is_ancestor(
    p: Seq<char>,
    home: Seq<char>,
    dirs: Seq<MonitoredDir>,
    default_depth: u32,
)
    requires
        is_absolute(p),
        home_separated(p, home),
        canonical(p, home, dirs, default_depth) is Some,
    ensures
        is_ancestor_or_self(canonical(p, home, dirs, default_depth)->0, p),
        has_prefix(p, canonical(p, home, dirs, default_depth)->0),
{
    let k = first_match(p, home, dirs, 0);
    lemma_first_match(p, home, dirs, 0);
    let dir = dirs[k];
    let d = dir.path@;
    let rem = remainder(p, home, d);
    let n = effective_depth(dir, default_depth, rem);
    let r = result_for(p, home, dir, default_depth);
    assert(absolutise(p, home) == p);
    if n == 0 {
    } else if is_absolute(d) {
        if p != abs_base(d) {
            let a = abs_base(d) + seq!['/'];
            assert(p =~= a + rem);
            lemma_take_is_ancestor(p, a, rem, n);
        }
    } else {
        let hl = home.len() as int;
        let tail = p.subrange(hl, p.len() as int);
        if p.len() == hl + 1 {
            assert(tail =~= seq!['/']);
            assert(trim_start_char(tail.drop_first(), '/') == tail.drop_first());
        }
        assert(p.len() > hl + 1);
        assert(tail[0] == '/' && tail[1] != '/');
        lemma_trim_one_slash(tail);
        let rel = rel_of(p, home);
        assert(rel =~= p.subrange(hl + 1, p.len() as int));
        let a = home + seq!['/', '.'] + dir_name(d) + seq!['/'];
        assert(a =~= p.subrange(0, hl + 1) + dir_prefix(d));
        assert(p =~= a + rem);
        lemma_take_is_ancestor(p, a, rem, n);
        assert(r =~= a + take_components(rem, n));
    }
    if r != p {
        assert(p.subrange(0, r.len() as int) =~= p.subrange(0, r.len() as int + 1).subrange(
            0,
            r.len() as int,
        ));
        assert((r + seq!['/']).subrange(0, r.len() as int) =~= r);
        assert(p.subrange(0, r.len() as int) =~= r);
    } else {
        assert(p.subrange(0, p.len() as int) =~= p);
    }
}

proof fn lemma_trim_prefix_mono(a: Seq<char>, b: Seq<char>, x: Seq<char>)
    requires
        has_prefix(b, a),
        has_prefix(trim_start_char(a, '/'), x),
        x.len() > 0,
    ensures
        has_prefix(trim_start_char(b, '/'), x),
    decreases a.len(),
{
    if a.len() > 0 && a[0] == '/' {
        assert(b[0] == a[0]);
        assert(b.drop_first().subrange(0, a.drop_first().len() as int) =~= a.drop_first());
        lemma_trim_prefix_mono(a.drop_first(), b.drop_first(), x);
    } else {
        if a.len() > 0 {
            assert(b[0] == a.subrange(0, a.len() as int)[0]);
        }
        assert(b.subrange(0, x.len() as int) =~= a.subrange(0, x.len() as int));
    }
}

/// A directory that `r` lies under also holds every path below `r`.
proof fn lemma_matches_mono(r: Seq<char>, p: Seq<char>, home: Seq<char>, e: Seq<char>)
    requires
        has_prefix(p, r + seq!['/']),
        dir_matches(r, home, e),
    ensures
        dir_matches(p, home, e),
{
    let rs = r + seq!['/'];
    assert(p.subrange(0, r.len() as int) =~= rs.subrange(0, r.len() as int));
    assert(rs.subrange(0, r.len() as int) =~= r);
    if is_absolute(e) {
        let b = abs_base(e) + seq!['/'];
        if r == abs_base(e) {
            assert(rs =~= b);
        } else {
            assert(p.subrange(0, b.len() as int) =~= r.subrange(0, b.len() as int));
        }
    } else {
        let hl = home.len() as int;
        assert(p.subrange(0, hl) =~= r.subrange(0, hl));
        let ta = r.subrange(hl, r.len() as int);
        let tb = p.subrange(hl, p.len() as int);
        assert(tb.subrange(0, ta.len() as int) =~= ta);
        lemma_trim_prefix_mono(ta, tb, dir_prefix(e));
    }
}

proof fn lemma_first_match_eq(p: Seq<char>, home: Seq<char>, dirs: Seq<MonitoredDir>, i: int, k: int)
    requires
        0 <= i <= k < dirs.len(),
        forall|j: int| i <= j < k ==> !dir_matches(p, home, #[trigger] dirs[j].path@),
        dir_matches(p, home, dirs[k].path@),
    ensures
        first_match(p, home, dirs, i) == k,
    decreases k - i,
{
    if i < k {
        lemma_first_match_eq(p, home, dirs, i + 1, k);
    }
}

proof fn lemma_trim_end_prefix(s: Seq<char>, c: char)
    ensures
        has_prefix(s, trim_end_char(s, c)),
    decreases s.len(),
{
    if s.len() > 0 && s.last() == c {
        lemma_trim_end_prefix(s.drop_last(), c);
        let t = trim_end_char(s.drop_last(), c);
        assert(s.subrange(0, t.len() as int) =~= s.drop_last().subrange(0, t.len() as int));
    } else {
        assert(s.subrange(0, s.len() as int) =~= s);
    }
}

/// Canonicalising a tracked path again gives the same tracked path.
pub proof fn lemma_canonical_idempotent(
    p: Seq<char>,
    home: Seq<char>,
    dirs: Seq<MonitoredDir>,
    default_depth: u32,
)
    requires
        is_absolute(p),
        home.len() == 0 || is_absolute(home),
        home_separated(p, home),
        canonical(p, home, dirs, default_depth) is Some,
    ensures
        canonical(canonical(p, home, dirs, default_depth)->0, home, dirs, default_depth)
            == canonical(p, home, dirs, default_depth),
{
    lemma_tracked_is_ancestor(p, home, dirs, default_depth);
    let r = canonical(p, home, dirs, default_depth)->0;
    if r == p {
        return;
    }
    let k = first_match(p, home, dirs, 0);
    lemma_first_match(p, home, dirs, 0);
    let dir = dirs[k];
    let d = dir.path@;
    let rem = remainder(p, home, d);
    let n = effective_depth(dir, default_depth, rem);
    assert(n != 0);
    let t = take_components(rem, n);
    lemma_take_components_idem(rem, n);
    lemma_comp_end(rem, n, 0);
    lemma_find_from(rem, '/', 0);
    if is_absolute(d) {
        let b = abs_base(d);
        assert(p != b);
        assert(r == b + seq!['/'] + t);
        lemma_trim_end_prefix(d, '/');
        if b.len() > 0 {
            assert(b[0] == d[0]);
        }
        assert(is_absolute(r));
        assert(r.subrange(0, b.len() as int + 1) =~= b + seq!['/']);
        assert(dir_matches(r, home, d));
        assert(remainder(r, home, d) =~= t);
        assert(effective_depth(dir, default_depth, t) == n);
        assert(result_for(r, home, dir, default_depth) =~= r);
    } else {
        let a = home + seq!['/', '.'] + dir_name(d) + seq!['/'];
        assert(r == a + t);
        assert(r[0] == '/') by {
            if home.len() > 0 {
                assert(r[0] == home[0]);
            }
        }
        assert(r.subrange(0, home.len() as int) =~= home);
        let tail = r.subrange(home.len() as int, r.len() as int);
        assert(tail =~= seq!['/'] + dir_prefix(d) + t);
        lemma_trim_one_slash(tail);
        assert(rel_of(r, home) =~= dir_prefix(d) + t);
        assert(rel_of(r, home).subrange(0, dir_prefix(d).len() as int) =~= dir_prefix(d));
        assert(dir_matches(r, home, d));
        assert(remainder(r, home, d) =~= t);
        lemma_take_components_first(rem, n);
        assert(effective_depth(dir, default_depth, t) == n);
        assert(result_for(r, home, dir, default_depth) =~= r);
    }
    assert forall|j: int| 0 <= j < k implies !dir_matches(r, home, #[trigger] dirs[j].path@) by {
        if dir_matches(r, home, dirs[j].path@) {
            lemma_matches_mono(r, p, home, dirs[j].path@);
        }
    }
    lemma_first_match_eq(r, home, dirs, 0, k);
}

} // verus!
