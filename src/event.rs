//! Events from the kernel probe: decoding the fixed-layout record, and the
//! per-event decisions of the collector.

use vstd::prelude::*;
use vstd::utf8::{decode_utf8, valid_utf8};
use crate::canon::{canonical, get_tracked_path};
use crate::config::{mentions_dir, Config};
use crate::resolve::PackageInfo;
use crate::store::{contains_string, string_views, unknown_name, unknown_string};
use crate::text::{chars_of, opt_view, slice_string, trim_end_char, trim_end_char_len};

verus! {

/// Bytes of the process short name in a record.
pub const COMM_LEN: usize = 16;

/// Bytes of the path in a record.
pub const FILENAME_LEN: usize = 256;

/// Size of one record: the pid, then the name, then the path.
pub const EVENT_SIZE: usize = 276;

/// One decoded record of the probe.
pub struct RawEvent {
    pub pid: u32,
    pub comm: String,
    pub filename: String,
}

/// Relies on `std::str::from_utf8`: it succeeds exactly on well-formed
/// UTF-8, and then holds the decoded characters.
#[verifier::external_body]
fn utf8_text(b: &[u8]) -> (r: Option<String>)
    ensures
        r is Some <==> valid_utf8(b@),
        r is Some ==> r->0@ == decode_utf8(b@),
{
    std::str::from_utf8(b).ok().map(|s| s.to_owned())
}

/// A NUL-padded text field: its UTF-8 text (or `unknown` when it is not
/// UTF-8) without trailing NULs.
pub open spec fn field_text(b: Seq<u8>) -> Seq<char> {
    trim_end_char(if valid_utf8(b) { decode_utf8(b) } else { unknown_name() }, '\0')
}

/// The pid stored in the first four bytes (least significant first).
pub open spec fn pid_of(b: Seq<u8>) -> u32 {
    (b[0] as int + b[1] as int * 0x100 + b[2] as int * 0x10000 + b[3] as int * 0x1000000) as u32
}

fn field_string(b: &[u8]) -> (r: String)
    ensures
        r@ == field_text(b@),
{
    let t = match utf8_text(b) {
        Some(s) => s,
        None => unknown_string(),
    };
    let c = chars_of(t.as_str());
    let n = trim_end_char_len(c.as_slice(), '\0');
    slice_string(c.as_slice(), 0, n)
}

/// Decodes one record; `None` unless `data` holds exactly `EVENT_SIZE` bytes.
pub fn decode_event(data: &[u8]) -> (r: Option<RawEvent>)
    ensures
        r is Some <==> data@.len() == EVENT_SIZE,
        r matches Some(e) ==> {
            &&& e.pid == pid_of(data@)
            &&& e.comm@ == field_text(data@.subrange(4, 4 + COMM_LEN))
            &&& e.filename@ == field_text(data@.subrange(4 + COMM_LEN, EVENT_SIZE as int))
        },
{
    if data.len() != EVENT_SIZE {
        return None;
    }
    let pid: u32 = data[0] as u32 + data[1] as u32 * 0x100 + data[2] as u32 * 0x10000 + data[3] as u32
        * 0x1000000;
    let comm = field_string(&data[4..20]);
    let filename = field_string(&data[20..276]);
    Some(RawEvent { pid, comm, filename })
}

/// The canonical path an opened file is recorded under: `None` when it
/// fails the cheap early test or lies under no monitored directory.
pub open spec fn event_path(c: Config, home: Seq<char>, filename: Seq<char>) -> Option<Seq<char>> {
    if exists|i: int|
        0 <= i < c.monitored_dirs@.len() && mentions_dir(filename, #[trigger] c.monitored_dirs@[i].path@) {
        canonical(filename, home, c.monitored_dirs@, c.tracking_depth)
    } else {
        None
    }
}

pub fn tracked_path_for_event(config: &Config, home: &str, filename: &str) -> (r: Option<String>)
    ensures
        opt_view(r) == event_path(*config, home@, filename@),
{
    if !config.is_monitored_path(filename) {
        return None;
    }
    get_tracked_path(filename, home, &config.monitored_dirs, config.tracking_depth)
}

/// How an attributed access is committed.
pub struct Commit {
    /// The accessor is an ignored process: touch only.
    pub ignored_process: bool,
    /// `~` for an ignored process, `^` for a package found through an
    /// ancestor, `+` otherwise.
    pub marker: char,
}

/// What to do with an attributed access: nothing when its package is
/// ignored, else commit it with `Commit`.
pub fn plan_commit(config: &Config, info: &PackageInfo) -> (r: Option<Commit>)
    ensures
        r is None <==> string_views(config.ignored_packages@).contains(info.package@),
        r matches Some(c) ==> {
            &&& c.ignored_process == string_views(config.ignored_processes@).contains(
                info.process@,
            )
            &&& c.marker == if c.ignored_process {
                '~'
            } else if info.via_parent {
                '^'
            } else {
                '+'
            }
        },
{
    if contains_string(&config.ignored_packages, &info.package) {
        return None;
    }
    let ignored = contains_string(&config.ignored_processes, &info.process);
    let marker = if ignored {
        '~'
    } else if info.via_parent {
        '^'
    } else {
        '+'
    };
    Some(Commit { ignored_process: ignored, marker })
}


/// The collector's next move on one opened file.
pub enum EventAction {
    /// Nothing is recorded for this event.
    Drop,
    /// Ask whether the store already has this canonical path.
    CheckRecorded(String),
    /// Resolve the package responsible (the ancestry walk).
    Resolve(String),
    /// Commit the access of this canonical path as `Commit` says.
    Commit(String, Commit),
}

/// One step of handling an opened file, given what is known so far: the
/// canonical path comes first (no path, no event); a path already in the
/// store is dropped before any ancestry walk; then an ignored package is
/// dropped; anything else is committed.
pub fn next_action(
    config: &Config,
    home: &str,
    filename: &str,
    recorded: Option<bool>,
    info: Option<&PackageInfo>,
) -> (r: EventAction)
    ensures
        match event_path(*config, home@, filename@) {
            None => r is Drop,
            Some(p) => match recorded {
                None => r matches EventAction::CheckRecorded(q) && q@ == p,
                Some(true) => r is Drop,
                Some(false) => match info {
                    None => r matches EventAction::Resolve(q) && q@ == p,
                    Some(i) => if string_views(config.ignored_packages@).contains(i.package@) {
                        r is Drop
                    } else {
                        r matches EventAction::Commit(q, c) && q@ == p && c.ignored_process
                            == string_views(config.ignored_processes@).contains(i.process@)
                            && c.marker == if c.ignored_process {
                            '~'
                        } else if i.via_parent {
                            '^'
                        } else {
                            '+'
                        }
                    },
                },
            },
        },
{
    let path = match tracked_path_for_event(config, home, filename) {
        Some(p) => p,
        None => return EventAction::Drop,
    };
    match recorded {
        None => EventAction::CheckRecorded(path),
        Some(true) => EventAction::Drop,
        Some(false) => match info {
            None => EventAction::Resolve(path),
            Some(i) => match plan_commit(config, i) {
                Some(c) => EventAction::Commit(path, c),
                None => EventAction::Drop,
            },
        },
    }
}

} // verus!
