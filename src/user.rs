//! Whose home directory the collector works for: when run through sudo,
//! the invoking user's entry of the password database.

use vstd::prelude::*;
use crate::text::{
    chars_eq, chars_of, nested_views, parse_u32, parse_u32_exec, split_on, split_on_exec,
    string_of,
};

verus! {

pub struct UserInfo {
    pub home: String,
    pub uid: Option<u32>,
    pub gid: Option<u32>,
}

/// A line of text without one trailing carriage return (`str::lines`).
pub open spec fn strip_cr(l: Seq<char>) -> Seq<char> {
    if l.len() > 0 && l.last() == '\r' {
        l.drop_last()
    } else {
        l
    }
}

/// The `:`-separated fields of line `i` of `passwd`.
pub open spec fn passwd_fields(passwd: Seq<char>, i: int) -> Seq<Seq<char>> {
    split_on(strip_cr(split_on(passwd, '\n')[i]), ':')
}

/// Line `i` is the entry of `user`: six fields or more, the first the name.
pub open spec fn is_entry(passwd: Seq<char>, user: Seq<char>, i: int) -> bool {
    passwd_fields(passwd, i).len() >= 6 && passwd_fields(passwd, i)[0] == user
}

/// Index of the first line at or after `i` that is the entry of `user`, or
/// the number of lines.
pub open spec fn entry_index(passwd: Seq<char>, user: Seq<char>, i: int) -> int
    decreases split_on(passwd, '\n').len() - i,
{
    if i < 0 || i >= split_on(passwd, '\n').len() {
        split_on(passwd, '\n').len() as int
    } else if is_entry(passwd, user, i) {
        i
    } else {
        entry_index(passwd, user, i + 1)
    }
}

/// Home, uid and gid of the user the collector works for: the `sudo`
/// user's password entry when there is one, else the home directory the
/// environment gives, else `/tmp`.
pub open spec fn user_of(
    sudo_user: Option<Seq<char>>,
    passwd: Option<Seq<char>>,
    home_dir: Option<Seq<char>>,
) -> (Seq<char>, Option<u32>, Option<u32>) {
    let found = match (sudo_user, passwd) {
        (Some(u), Some(p)) => {
            let k = entry_index(p, u, 0);
            if k < split_on(p, '\n').len() {
                let f = passwd_fields(p, k);
                Some((f[5], parse_u32(f[2]), parse_u32(f[3])))
            } else {
                None
            }
        },
        _ => None,
    };
    match found {
        Some(e) => e,
        None => match home_dir {
            Some(h) => (h, None, None),
            None => (seq!['/', 't', 'm', 'p'], None, None),
        },
    }
}

pub open spec fn opt_str(o: Option<&str>) -> Option<Seq<char>> {
    match o {
        Some(s) => Some(s@),
        None => None,
    }
}

fn find_entry(passwd: &str, user: &str) -> (r: Option<UserInfo>)
    ensures
        ({
            let k = entry_index(passwd@, user@, 0);
            if k < split_on(passwd@, '\n').len() {
                let f = passwd_fields(passwd@, k);
                r matches Some(u) && u.home@ == f[5] && u.uid == parse_u32(f[2]) && u.gid
                    == parse_u32(f[3])
            } else {
                r is None
            }
        }),
{
    let t = chars_of(passwd);
    let u = chars_of(user);
    let lines = split_on_exec(t.as_slice(), '\n');
    let mut i: usize = 0;
    while i < lines.len()
        invariant
            i <= lines@.len(),
            t@ == passwd@,
            u@ == user@,
            nested_views(lines@) == split_on(passwd@, '\n'),
            entry_index(passwd@, user@, 0) == entry_index(passwd@, user@, i as int),
        decreases lines@.len() - i,
    {
        assert(nested_views(lines@)[i as int] == lines@[i as int]@);
        let l = &lines[i];
        let n = if l.len() > 0 && l[l.len() - 1] == '\r' {
            l.len() - 1
        } else {
            l.len()
        };
        assert(l@.subrange(0, n as int) =~= strip_cr(l@));
        let fields = split_on_exec(&l.as_slice()[0..n], ':');
        if fields.len() >= 6 && chars_eq(fields[0].as_slice(), u.as_slice()) {
            assert(nested_views(fields@)[0] == fields@[0]@);
            assert(nested_views(fields@)[2] == fields@[2]@);
            assert(nested_views(fields@)[3] == fields@[3]@);
            assert(nested_views(fields@)[5] == fields@[5]@);
            return Some(
                UserInfo {
                    home: string_of(fields[5].as_slice()),
                    uid: parse_u32_exec(fields[2].as_slice()),
                    gid: parse_u32_exec(fields[3].as_slice()),
                },
            );
        }
        proof {
            if fields@.len() >= 6 {
                assert(nested_views(fields@)[0] == fields@[0]@);
            }
        }
        i = i + 1;
    }
    None
}

/// See `user_of`.
pub fn get_user_info(sudo_user: Option<&str>, passwd: Option<&str>, home_dir: Option<&str>) -> (r:
    UserInfo)
    ensures
        (r.home@, r.uid, r.gid) == user_of(opt_str(sudo_user), opt_str(passwd), opt_str(home_dir)),
{
    match (sudo_user, passwd) {
        (Some(u), Some(p)) => match find_entry(p, u) {
            Some(e) => {
                return e;
            },
            None => {},
        },
        _ => {},
    }
    match home_dir {
        Some(h) => UserInfo { home: h.to_owned(), uid: None, gid: None },
        None => {
            let v: Vec<char> = vec!['/', 't', 'm', 'p'];
            assert(v@ =~= seq!['/', 't', 'm', 'p']);
            UserInfo { home: string_of(v.as_slice()), uid: None, gid: None }
        },
    }
}

/// The home directory of `get_user_info`.
pub fn get_user_home(sudo_user: Option<&str>, passwd: Option<&str>, home_dir: Option<&str>) -> (r:
    String)
    ensures
        r@ == user_of(opt_str(sudo_user), opt_str(passwd), opt_str(home_dir)).0,
{
    get_user_info(sudo_user, passwd, home_dir).home
}

} // verus!
