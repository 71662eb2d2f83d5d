//! The ancestry resolver: finds the nearest process, from the caller up
//! through its ancestors, whose executable an installed package owns.
//!
//! Reading `/proc` and asking the package manager happen outside: the walk
//! is a state machine that names the next lookup it needs (`Probe`) and
//! takes its answer (`Reply`). Its contracts are stated against any
//! process table (`ProcWorld`) that answers the lookups.

use vstd::prelude::*;
use crate::store::{unknown_name, unknown_string};
use crate::text::{
    chars_of, has_suffix, has_suffix_chars, opt_view, parse_u32, parse_u32_exec, slice_string,
    trim_ws, trim_ws_bounds, ws_tokens, ws_tokens_exec, nested_views,
};

verus! {

/// How many ancestors the walk examines.
pub const MAX_DEPTH: u32 = 10;

/// Who is held responsible for an access.
pub struct PackageInfo {
    pub package: String,
    pub process: String,
    pub via_parent: bool,
}

pub struct InfoView {
    pub package: Seq<char>,
    pub process: Seq<char>,
    pub via_parent: bool,
}

impl View for PackageInfo {
    type V = InfoView;

    open spec fn view(&self) -> InfoView {
        InfoView { package: self.package@, process: self.process@, via_parent: self.via_parent }
    }
}

/// What the process table and the package manager answer: the target of
/// `/proc/<pid>/exe`, the text of `/proc/<pid>/stat` and `/proc/<pid>/comm`,
/// and the package owning an executable path (`None` where a lookup fails).
pub ghost struct ProcWorld {
    pub exe: spec_fn(u32) -> Option<Seq<char>>,
    pub stat: spec_fn(u32) -> Option<Seq<char>>,
    pub comm: spec_fn(u32) -> Option<Seq<char>>,
    pub owner: spec_fn(Seq<char>) -> Option<Seq<char>>,
}

pub open spec fn deleted_marker() -> Seq<char> {
    seq![' ', '(', 'd', 'e', 'l', 'e', 't', 'e', 'd', ')']
}

/// An executable path without the ` (deleted)` marker the kernel appends
/// to unlinked executables.
pub open spec fn strip_deleted(e: Seq<char>) -> Seq<char> {
    if has_suffix(e, deleted_marker()) {
        e.subrange(0, e.len() - deleted_marker().len())
    } else {
        e
    }
}

/// Index of the last `c` before `n`, or -1.
pub open spec fn rfind_before(s: Seq<char>, c: char, n: int) -> int
    decreases n,
{
    if n <= 0 || n > s.len() {
        -1
    } else if s[n - 1] == c {
        n - 1
    } else {
        rfind_before(s, c, n - 1)
    }
}

/// The parent pid in the text of `/proc/<pid>/stat`: the second
/// white-space separated field after the last `)`, which ends the command
/// name (itself free to hold spaces and parentheses).
pub open spec fn parse_ppid(st: Seq<char>) -> Option<u32> {
    let k = rfind_before(st, ')', st.len() as int);
    if k < 0 {
        None
    } else {
        let toks = ws_tokens(st.subrange(k + 1, st.len() as int));
        if toks.len() >= 2 {
            parse_u32(toks[1])
        } else {
            None
        }
    }
}

pub open spec fn owner_of(w: ProcWorld, pid: u32) -> Option<Seq<char>> {
    match (w.exe)(pid) {
        Some(e) => (w.owner)(strip_deleted(e)),
        None => None,
    }
}

pub open spec fn ppid_of(w: ProcWorld, pid: u32) -> Option<u32> {
    match (w.stat)(pid) {
        Some(st) => parse_ppid(st),
        None => None,
    }
}

pub open spec fn comm_of(w: ProcWorld, pid: u32) -> Seq<char> {
    match (w.comm)(pid) {
        Some(c) => trim_ws(c),
        None => unknown_name(),
    }
}

/// The sentinel answer: no package found.
pub open spec fn unknown_info(comm: Seq<char>) -> InfoView {
    InfoView { package: unknown_name(), process: comm, via_parent: false }
}

/// The walk above `cur`, which sits `depth` levels above the caller;
/// `visited` holds ancestors already found to be unowned.
pub open spec fn walk(
    w: ProcWorld,
    comm: Seq<char>,
    cur: u32,
    depth: int,
    visited: Set<u32>,
) -> InfoView
    decreases MAX_DEPTH - depth,
{
    if depth >= MAX_DEPTH {
        unknown_info(comm)
    } else {
        match ppid_of(w, cur) {
            Some(pp) => if pp <= 1 {
                unknown_info(comm)
            } else if visited.contains(pp) {
                walk(w, comm, pp, depth + 1, visited)
            } else {
                match owner_of(w, pp) {
                    Some(pkg) => InfoView { package: pkg, process: comm_of(w, pp), via_parent: true },
                    None => walk(w, comm, pp, depth + 1, visited.insert(pp)),
                }
            },
            None => unknown_info(comm),
        }
    }
}

/// The package responsible for an access by process `pid` named `comm`.
pub open spec fn resolve(w: ProcWorld, pid: u32, comm: Seq<char>) -> InfoView {
    match owner_of(w, pid) {
        Some(pkg) => InfoView { package: pkg, process: comm, via_parent: false },
        None => walk(w, comm, pid, 0, Set::empty()),
    }
}

/// `strip_deleted` on a string.
pub fn strip_deleted_marker(e: &str) -> (r: String)
    ensures
        r@ == strip_deleted(e@),
{
    let c = chars_of(e);
    let m: Vec<char> = vec![' ', '(', 'd', 'e', 'l', 'e', 't', 'e', 'd', ')'];
    assert(m@ =~= deleted_marker());
    if has_suffix_chars(c.as_slice(), m.as_slice()) {
        slice_string(c.as_slice(), 0, c.len() - m.len())
    } else {
        assert(c@.subrange(0, c@.len() as int) =~= c@);
        slice_string(c.as_slice(), 0, c.len())
    }
}

/// The parent pid in the text of a `stat` file: see `parse_ppid`.
pub fn get_ppid(stat: &str) -> (r: Option<u32>)
    ensures
        r == parse_ppid(stat@),
{
    let s = chars_of(stat);
    let mut n = s.len();
    while n > 0 && s[n - 1] != ')'
        invariant
            n <= s@.len(),
            rfind_before(s@, ')', s@.len() as int) == rfind_before(s@, ')', n as int),
        decreases n,
    {
        n = n - 1;
    }
    if n == 0 {
        return None;
    }
    let toks = ws_tokens_exec(&s.as_slice()[n..s.len()]);
    if toks.len() >= 2 {
        assert(nested_views(toks@)[1] == toks@[1]@);
        parse_u32_exec(toks[1].as_slice())
    } else {
        None
    }
}

/// The text of a `comm` file without surrounding white space.
pub fn trim_comm(c: &str) -> (r: String)
    ensures
        r@ == trim_ws(c@),
{
    let s = chars_of(c);
    let (a, b) = trim_ws_bounds(s.as_slice());
    slice_string(s.as_slice(), a, b)
}


/// `chain[0]` is a process and each later entry the parent (a pid above 1)
/// of the one before it.
pub open spec fn is_ancestry(w: ProcWorld, chain: Seq<u32>) -> bool {
    forall|i: int|
        0 <= i < chain.len() - 1 ==> ppid_of(w, #[trigger] chain[i]) == Some(chain[i + 1])
            && chain[i + 1] > 1
}

proof fn lemma_walk_unowned(w: ProcWorld, comm: Seq<char>, chain: Seq<u32>, i: int, v: Set<u32>)
    requires
        is_ancestry(w, chain),
        chain.len() >= MAX_DEPTH + 1,
        0 <= i <= MAX_DEPTH,
        forall|j: int| 0 < j <= MAX_DEPTH ==> owner_of(w, #[trigger] chain[j]) is None,
    ensures
        walk(w, comm, chain[i], i, v) == unknown_info(comm),
    decreases MAX_DEPTH - i,
{
    if i < MAX_DEPTH {
        assert(ppid_of(w, chain[i]) == Some(chain[i + 1]));
        assert(owner_of(w, chain[i + 1]) is None);
        lemma_walk_unowned(w, comm, chain, i + 1, v);
        lemma_walk_unowned(w, comm, chain, i + 1, v.insert(chain[i + 1]));
    }
}

/// A process whose ancestry holds `MAX_DEPTH + 1` ancestors, none of them
/// (nor the process) owned by a package, resolves to the unknown sentinel.
pub proof fn lemma_unowned_chain_is_unknown(w: ProcWorld, chain: Seq<u32>, comm: Seq<char>)
    requires
        chain.len() == MAX_DEPTH + 2,
        is_ancestry(w, chain),
        forall|j: int| 0 <= j < chain.len() ==> owner_of(w, #[trigger] chain[j]) is None,
    ensures
        resolve(w, chain[0], comm) == unknown_info(comm),
{
    assert(owner_of(w, chain[0]) is None);
    lemma_walk_unowned(w, comm, chain, 0, Set::empty());
}

proof fn lemma_walk_owned(
    w: ProcWorld,
    comm: Seq<char>,
    chain: Seq<u32>,
    i: int,
    k: int,
    v: Set<u32>,
)
    requires
        is_ancestry(w, chain),
        0 <= i < k <= MAX_DEPTH,
        k < chain.len(),
        forall|j: int| 0 < j < k ==> owner_of(w, #[trigger] chain[j]) is None,
        owner_of(w, chain[k]) is Some,
        forall|p: u32| v.contains(p) ==> owner_of(w, p) is None,
    ensures
        walk(w, comm, chain[i], i, v) == (InfoView {
            package: owner_of(w, chain[k])->0,
            process: comm_of(w, chain[k]),
            via_parent: true,
        }),
    decreases k - i,
{
    assert(ppid_of(w, chain[i]) == Some(chain[i + 1]));
    let pp = chain[i + 1];
    if v.contains(pp) {
        assert(owner_of(w, pp) is None);
        lemma_walk_owned(w, comm, chain, i + 1, k, v);
    } else if i + 1 < k {
        assert(owner_of(w, pp) is None);
        lemma_walk_owned(w, comm, chain, i + 1, k, v.insert(pp));
    }
}

/// When the process and its ancestors below ancestor `k` (1 <= k <=
/// MAX_DEPTH) are unowned and ancestor `k` is owned, the walk reports that
/// package, through a parent, under ancestor `k`'s command name.
pub proof fn lemma_owned_ancestor_found(
    w: ProcWorld,
    chain: Seq<u32>,
    k: int,
    comm: Seq<char>,
)
    requires
        1 <= k <= MAX_DEPTH,
        k < chain.len(),
        is_ancestry(w, chain),
        forall|j: int| 0 <= j < k ==> owner_of(w, #[trigger] chain[j]) is None,
        owner_of(w, chain[k]) is Some,
    ensures
        resolve(w, chain[0], comm) == (InfoView {
            package: owner_of(w, chain[k])->0,
            process: comm_of(w, chain[k]),
            via_parent: true,
        }),
{
    assert(owner_of(w, chain[0]) is None);
    lemma_walk_owned(w, comm, chain, 0, k, Set::empty());
}


/// A lookup the walk needs next.
pub enum Probe {
    /// Read the target of `/proc/<pid>/exe`.
    Exe(u32),
    /// Ask the package manager which package owns this executable path.
    Owner(String),
    /// Read `/proc/<pid>/stat`.
    Stat(u32),
    /// Read `/proc/<pid>/comm`.
    Comm(u32),
}

/// The answer to a `Probe` of the same kind (`None` where it failed).
pub enum Reply {
    Exe(Option<String>),
    Owner(Option<String>),
    Stat(Option<String>),
    Comm(Option<String>),
}

pub enum Step {
    Ask(Probe),
    Done(PackageInfo),
}

pub enum ProbeView {
    Exe(u32),
    Owner(Seq<char>),
    Stat(u32),
    Comm(u32),
}

pub open spec fn probe_view(p: Probe) -> ProbeView {
    match p {
        Probe::Exe(x) => ProbeView::Exe(x),
        Probe::Owner(x) => ProbeView::Owner(x@),
        Probe::Stat(x) => ProbeView::Stat(x),
        Probe::Comm(x) => ProbeView::Comm(x),
    }
}

/// `r` is what `w` answers to `p`.
pub open spec fn answers(w: ProcWorld, p: ProbeView, r: Reply) -> bool {
    match (p, r) {
        (ProbeView::Exe(pid), Reply::Exe(o)) => opt_view(o) == (w.exe)(pid),
        (ProbeView::Owner(e), Reply::Owner(o)) => opt_view(o) == (w.owner)(e),
        (ProbeView::Stat(pid), Reply::Stat(o)) => opt_view(o) == (w.stat)(pid),
        (ProbeView::Comm(pid), Reply::Comm(o)) => opt_view(o) == (w.comm)(pid),
        _ => false,
    }
}

enum Phase {
    SelfExe,
    SelfOwner,
    ParentStat,
    ParentExe,
    ParentOwner,
    ParentComm,
    Finished,
}

/// One resolution in progress.
pub struct PidTreeWalk {
    comm: String,
    pid: u32,
    current: u32,
    depth: u32,
    visited: Vec<u32>,
    phase: Phase,
    parent: u32,
    path: String,
    package: String,
}

/// One step of the walk keeps its promise: for every process table that
/// gave `reply` to the pending lookup, a `Done` step carries the outcome,
/// and an `Ask` step leaves the outcome unchanged.
pub open spec fn step_ok(old: PidTreeWalk, new: PidTreeWalk, reply: Reply, r: Step) -> bool {
    &&& (r matches Step::Ask(p) ==> new.pending() == probe_view(p))
    &&& progress(old, new, reply, r)
    &&& forall|w: ProcWorld|
        #[trigger] answers(w, old.pending(), reply) ==> match r {
            Step::Done(info) => info@ == old.outcome(w),
            Step::Ask(_) => new.outcome(w) == old.outcome(w),
        }
}

/// The parent pid in a `stat` reply is missing, unreadable, or at most 1.
pub open spec fn no_parent(reply: Reply) -> bool {
    match reply {
        Reply::Stat(Some(st)) => parse_ppid(st@) is None || parse_ppid(st@)->0 <= 1,
        Reply::Stat(None) => true,
        _ => false,
    }
}

/// One step moves the walk forward: an `Ask` leaves fewer steps (so the
/// walk ends within the bound `start` sets), the owner lookups still to
/// come never grow and an owner lookup uses one up; a `Done` leaves none.
/// The caller's own executable is looked up before anything else, an
/// owner of it ends the walk, and a missing parent (or one of pid 1 or
/// below) ends it too.
pub open spec fn progress(old: PidTreeWalk, new: PidTreeWalk, reply: Reply, r: Step) -> bool {
    &&& (r is Ask ==> 0 <= new.steps_left() < old.steps_left())
    &&& (r is Done ==> new.steps_left() == 0 && new.owner_budget() == 0)
    &&& new.owner_budget() <= old.owner_budget()
    &&& ((r matches Step::Ask(Probe::Owner(_))) ==> new.owner_budget() < old.owner_budget())
    &&& (old.asks_own_exe() && (reply matches Reply::Exe(Some(_))) ==> (r matches Step::Ask(
        Probe::Owner(_),
    )) && new.asks_own_owner())
    &&& (old.asks_own_owner() && (reply matches Reply::Owner(Some(_))) ==> r is Done)
    &&& (old.asks_parent_stat() && no_parent(reply) ==> r is Done)
}

impl PidTreeWalk {
    /// The walk waits for the caller's own executable.
    pub closed spec fn asks_own_exe(&self) -> bool {
        self.phase is SelfExe
    }

    /// The walk waits for the owner of the caller's own executable.
    pub closed spec fn asks_own_owner(&self) -> bool {
        self.phase is SelfOwner
    }

    /// The walk waits for the `stat` of the process whose parent comes next.
    pub closed spec fn asks_parent_stat(&self) -> bool {
        self.phase is ParentStat
    }

    /// An upper bound on the steps the walk still takes.
    pub closed spec fn steps_left(&self) -> int {
        let level = 4 * (MAX_DEPTH - self.depth);
        match self.phase {
            Phase::SelfExe => 4 * MAX_DEPTH + 2,
            Phase::SelfOwner => 4 * MAX_DEPTH + 1,
            Phase::ParentStat => level,
            Phase::ParentExe => level - 1,
            Phase::ParentOwner => level - 2,
            Phase::ParentComm => 1,
            Phase::Finished => 0,
        }
    }

    /// An upper bound on the owner lookups the walk still asks for.
    pub closed spec fn owner_budget(&self) -> int {
        match self.phase {
            Phase::SelfExe => MAX_DEPTH + 1,
            Phase::SelfOwner => MAX_DEPTH as int,
            Phase::ParentStat => MAX_DEPTH - self.depth,
            Phase::ParentExe => MAX_DEPTH - self.depth,
            Phase::ParentOwner => MAX_DEPTH - self.depth - 1,
            Phase::ParentComm => 0,
            Phase::Finished => 0,
        }
    }

    pub closed spec fn wf(&self) -> bool {
        &&& self.depth <= MAX_DEPTH
        &&& ((self.phase is SelfExe || self.phase is SelfOwner) ==> self.visited@.len() == 0)
        &&& (self.phase is ParentStat ==> self.depth < MAX_DEPTH)
        &&& ((self.phase is ParentExe || self.phase is ParentOwner) ==> self.depth < MAX_DEPTH
            && self.parent > 1 && !self.visited@.to_set().contains(self.parent))
    }

    /// The lookup this walk waits for.
    pub closed spec fn pending(&self) -> ProbeView {
        match self.phase {
            Phase::SelfExe => ProbeView::Exe(self.pid),
            Phase::SelfOwner => ProbeView::Owner(self.path@),
            Phase::ParentStat => ProbeView::Stat(self.current),
            Phase::ParentExe => ProbeView::Exe(self.parent),
            Phase::ParentOwner => ProbeView::Owner(self.path@),
            Phase::ParentComm => ProbeView::Comm(self.parent),
            Phase::Finished => ProbeView::Exe(self.pid),
        }
    }

    /// The result this walk reaches when `w` answers its lookups.
    pub closed spec fn outcome(&self, w: ProcWorld) -> InfoView {
        let comm = self.comm@;
        let v = self.visited@.to_set();
        match self.phase {
            Phase::SelfExe => resolve(w, self.pid, comm),
            Phase::SelfOwner => match (w.owner)(self.path@) {
                Some(pkg) => InfoView { package: pkg, process: comm, via_parent: false },
                None => walk(w, comm, self.pid, 0, Set::empty()),
            },
            Phase::ParentStat => walk(w, comm, self.current, self.depth as int, v),
            Phase::ParentExe => match owner_of(w, self.parent) {
                Some(pkg) => InfoView {
                    package: pkg,
                    process: comm_of(w, self.parent),
                    via_parent: true,
                },
                None => walk(w, comm, self.parent, self.depth + 1, v.insert(self.parent)),
            },
            Phase::ParentOwner => match (w.owner)(self.path@) {
                Some(pkg) => InfoView {
                    package: pkg,
                    process: comm_of(w, self.parent),
                    via_parent: true,
                },
                None => walk(w, comm, self.parent, self.depth + 1, v.insert(self.parent)),
            },
            Phase::ParentComm => InfoView {
                package: self.package@,
                process: comm_of(w, self.parent),
                via_parent: true,
            },
            Phase::Finished => unknown_info(comm),
        }
    }

    /// Starts resolving an access by process `pid` named `comm`; the first
    /// step asks for the executable of `pid`.
    pub fn start(pid: u32, comm: &str) -> (r: (PidTreeWalk, Step))
        ensures
            r.0.wf(),
            r.1 == Step::Ask(Probe::Exe(pid)),
            r.0.pending() == ProbeView::Exe(pid),
            r.0.asks_own_exe(),
            r.0.steps_left() == 4 * MAX_DEPTH + 2,
            r.0.owner_budget() == MAX_DEPTH + 1,
            forall|w: ProcWorld| #[trigger] r.0.outcome(w) == resolve(w, pid, comm@),
    {
        let walk = PidTreeWalk {
            comm: comm.to_owned(),
            pid,
            current: pid,
            depth: 0,
            visited: Vec::new(),
            phase: Phase::SelfExe,
            parent: 0,
            path: String::new(),
            package: String::new(),
        };
        (walk, Step::Ask(Probe::Exe(pid)))
    }

    fn finish(&mut self, package: String, process: String, via_parent: bool) -> (r: Step)
        requires
            old(self).depth <= MAX_DEPTH,
        ensures
            final(self).wf(),
            final(self).phase is Finished,
            r == Step::Done(PackageInfo { package, process, via_parent }),
    {
        self.phase = Phase::Finished;
        Step::Done(PackageInfo { package, process, via_parent })
    }

    fn unknown(&mut self) -> (r: Step)
        requires
            old(self).depth <= MAX_DEPTH,
        ensures
            final(self).wf(),
            final(self).phase is Finished,
            r is Done && r->Done_0@ == unknown_info(old(self).comm@),
    {
        let c = self.comm.clone();
        self.finish(unknown_string(), c, false)
    }

    /// Moves one level up from `current`, or ends the walk at the depth limit.
    fn climb(&mut self) -> (r: Step)
        requires
            old(self).depth <= MAX_DEPTH,
        ensures
            final(self).wf(),
            old(self).depth >= MAX_DEPTH ==> r is Done && final(self).phase is Finished
                && r->Done_0@ == unknown_info(old(self).comm@),
            old(self).depth < MAX_DEPTH ==> r == Step::Ask(Probe::Stat(old(self).current))
                && final(self).phase is ParentStat && final(self).current == old(self).current
                && final(self).depth == old(self).depth && final(self).comm == old(self).comm
                && final(self).visited == old(self).visited,
    {
        if self.depth >= MAX_DEPTH {
            return self.unknown();
        }
        self.phase = Phase::ParentStat;
        Step::Ask(Probe::Stat(self.current))
    }

    fn is_visited(&self, p: u32) -> (r: bool)
        ensures
            r == self.visited@.to_set().contains(p),
    {
        let mut i: usize = 0;
        while i < self.visited.len()
            invariant
                i <= self.visited@.len(),
                forall|j: int| 0 <= j < i ==> self.visited@[j] != p,
            decreases self.visited@.len() - i,
        {
            if self.visited[i] == p {
                assert(self.visited@.contains(p));
                return true;
            }
            i = i + 1;
        }
        false
    }

    /// Marks `parent` as unowned and moves up to it.
    fn past_parent(&mut self) -> (r: Step)
        requires
            old(self).depth < MAX_DEPTH,
        ensures
            final(self).wf(),
            old(self).depth + 1 >= MAX_DEPTH ==> r is Done && final(self).phase is Finished
                && r->Done_0@ == unknown_info(old(self).comm@),
            old(self).depth + 1 < MAX_DEPTH ==> r == Step::Ask(Probe::Stat(old(self).parent))
                && final(self).phase is ParentStat && final(self).current == old(self).parent
                && final(self).depth == old(self).depth + 1 && final(self).comm == old(self).comm
                && final(self).visited@.to_set() == old(self).visited@.to_set().insert(
                old(self).parent,
            ),
    {
        let ghost before = self.visited@;
        self.visited.push(self.parent);
        proof {
            assert(self.visited@ == before.push(old(self).parent));
            before.lemma_push_to_set_commute(old(self).parent);
        }
        self.current = self.parent;
        self.depth = self.depth + 1;
        self.climb()
    }

    /// Takes the answer to the pending lookup and moves on.
    ///
    /// For every process table `w` that gave this answer, the walk's
    /// outcome is unchanged, and a `Done` step carries that outcome; the
    /// step moves the walk forward as `progress` states.
    pub fn advance(&mut self, reply: Reply) -> (r: Step)
        requires
            old(self).wf(),
        ensures
            final(self).wf(),
            step_ok(*old(self), *final(self), reply, r),
    {
        match self.phase {
            Phase::SelfExe => self.on_self_exe(reply),
            Phase::SelfOwner => self.on_self_owner(reply),
            Phase::ParentStat => self.on_parent_stat(reply),
            Phase::ParentExe => self.on_parent_exe(reply),
            Phase::ParentOwner => self.on_parent_owner(reply),
            Phase::ParentComm => self.on_parent_comm(reply),
            Phase::Finished => self.unknown(),
        }
    }

    fn on_self_exe(&mut self, reply: Reply) -> (r: Step)
        requires
            old(self).wf(),
            old(self).phase is SelfExe,
        ensures
            final(self).wf(),
            step_ok(*old(self), *final(self), reply, r),
    {
        match &reply {
            Reply::Exe(Some(e)) => {
                self.path = strip_deleted_marker(e.as_str());
                self.phase = Phase::SelfOwner;
                proof {
                    assert forall|w: ProcWorld| #[trigger]
                        answers(w, ProbeView::Exe(self.pid), reply) implies owner_of(
                        w,
                        self.pid,
                    ) == (w.owner)(self.path@) by {
                        assert((w.exe)(self.pid) == Some(e@));
                    }
                }
                Step::Ask(Probe::Owner(self.path.clone()))
            },
            Reply::Exe(None) => {
                self.current = self.pid;
                self.depth = 0;
                let r = self.climb();
                assert(self.visited@.to_set() =~= Set::<u32>::empty());
                r
            },
            _ => self.unknown(),
        }
    }

    fn on_self_owner(&mut self, reply: Reply) -> (r: Step)
        requires
            old(self).wf(),
            old(self).phase is SelfOwner,
        ensures
            final(self).wf(),
            step_ok(*old(self), *final(self), reply, r),
    {
        match &reply {
            Reply::Owner(Some(pkg)) => {
                let c = self.comm.clone();
                self.finish(pkg.clone(), c, false)
            },
            Reply::Owner(None) => {
                self.current = self.pid;
                self.depth = 0;
                let r = self.climb();
                assert(self.visited@.to_set() =~= Set::<u32>::empty());
                r
            },
            _ => self.unknown(),
        }
    }

    fn on_parent_stat(&mut self, reply: Reply) -> (r: Step)
        requires
            old(self).wf(),
            old(self).phase is ParentStat,
        ensures
            final(self).wf(),
            step_ok(*old(self), *final(self), reply, r),
    {
        let ghost cur = self.current;
        let ghost s0 = *self;
        let ppid = match &reply {
            Reply::Stat(Some(st)) => get_ppid(st.as_str()),
            _ => None,
        };
        proof {
            assert forall|w: ProcWorld| #[trigger]
                answers(w, ProbeView::Stat(cur), reply) implies ppid_of(w, cur) == ppid by {
                match reply {
                    Reply::Stat(Some(st)) => {
                        assert((w.stat)(cur) == Some(st@));
                    },
                    _ => {},
                }
            }
        }
        match ppid {
            Some(pp) => {
                if pp <= 1 {
                    self.unknown()
                } else if self.is_visited(pp) {
                    self.current = pp;
                    self.depth = self.depth + 1;
                    proof {
                        assert forall|w: ProcWorld|
                            self.depth >= MAX_DEPTH implies #[trigger] walk(
                            w,
                            self.comm@,
                            pp,
                            self.depth as int,
                            self.visited@.to_set(),
                        ) == unknown_info(self.comm@) by {}
                    }
                    let r = self.climb();
                    proof {
                        assert forall|w: ProcWorld| #[trigger]
                            answers(w, ProbeView::Stat(cur), reply) implies walk(
                            w,
                            s0.comm@,
                            cur,
                            s0.depth as int,
                            s0.visited@.to_set(),
                        ) == walk(w, s0.comm@, pp, s0.depth + 1, s0.visited@.to_set()) by {
                            assert(ppid_of(w, cur) == Some(pp));
                            assert(s0.visited@.to_set().contains(pp));
                        }
                    }
                    r
                } else {
                    self.parent = pp;
                    self.phase = Phase::ParentExe;
                    Step::Ask(Probe::Exe(pp))
                }
            },
            None => self.unknown(),
        }
    }

    fn on_parent_exe(&mut self, reply: Reply) -> (r: Step)
        requires
            old(self).wf(),
            old(self).phase is ParentExe,
        ensures
            final(self).wf(),
            step_ok(*old(self), *final(self), reply, r),
    {
        match &reply {
            Reply::Exe(Some(e)) => {
                self.path = strip_deleted_marker(e.as_str());
                self.phase = Phase::ParentOwner;
                Step::Ask(Probe::Owner(self.path.clone()))
            },
            Reply::Exe(None) => self.past_parent(),
            _ => self.unknown(),
        }
    }

    fn on_parent_owner(&mut self, reply: Reply) -> (r: Step)
        requires
            old(self).wf(),
            old(self).phase is ParentOwner,
        ensures
            final(self).wf(),
            step_ok(*old(self), *final(self), reply, r),
    {
        match &reply {
            Reply::Owner(Some(pkg)) => {
                self.package = pkg.clone();
                self.phase = Phase::ParentComm;
                Step::Ask(Probe::Comm(self.parent))
            },
            Reply::Owner(None) => self.past_parent(),
            _ => self.unknown(),
        }
    }

    fn on_parent_comm(&mut self, reply: Reply) -> (r: Step)
        requires
            old(self).wf(),
            old(self).phase is ParentComm,
        ensures
            final(self).wf(),
            step_ok(*old(self), *final(self), reply, r),
    {
        let process = match &reply {
            Reply::Comm(Some(c)) => trim_comm(c.as_str()),
            _ => unknown_string(),
        };
        let pkg = self.package.clone();
        proof {
            assert forall|w: ProcWorld| #[trigger]
                answers(w, ProbeView::Comm(self.parent), reply) implies process@ == comm_of(
                w,
                self.parent,
            ) by {
                match reply {
                    Reply::Comm(Some(c)) => {
                        assert((w.comm)(self.parent) == Some(c@));
                    },
                    _ => {},
                }
            }
        }
        self.finish(pkg, process, true)
    }
}

} // verus!
