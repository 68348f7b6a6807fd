//! Finding the foreground command of a terminal: a walk down its process
//! tree that skips shells and helper processes. The walk is a state
//! machine: it names the next fact about the process table it needs, the
//! caller reads it and hands it back.
use vstd::prelude::*;
use crate::session::{dup_opt_string, dup_strings, listed};
use crate::text::{chars_of, contains_str, opt_view, parse_i64, parse_u32, spec_parse_i64, spec_parse_u32, split_whitespace, str_eq, views, words};
use vstd::utf8::{decode_utf8, valid_utf8};

verus! {

/// Whether `comm` is one of the configured shell names.
pub fn is_shell(comm: &str, shell_names: &Vec<String>) -> (b: bool)
    ensures
        b == listed(shell_names@, comm@),
{
    contains_str(shell_names, comm)
}

/// Whether `comm` is one of the configured helper process names.
pub fn is_helper(comm: &str, helper_names: &Vec<String>) -> (b: bool)
    ensures
        b == listed(helper_names@, comm@),
{
    contains_str(helper_names, comm)
}

/// A fact about the process table the walk asks for.
#[derive(Debug, Clone, Copy, PartialEq, Eq, Structural)]
pub enum WalkQuery {
    /// Whether the process exists.
    Exists(u32),
    /// The process's children.
    Children(u32),
    /// Field 8 of the process's `stat`: its terminal's foreground group.
    Tpgid(u32),
    /// The process's command name (`comm`, trimmed).
    Comm(u32),
    /// The process's command line and working directory.
    Capture(u32),
}

/// The value of a fact about the process table.
pub enum ProcFact {
    Exists(bool),
    Children(Seq<u32>),
    Tpgid(Option<i64>),
    Comm(Option<Seq<char>>),
    Capture(Option<Seq<Seq<char>>>, Option<Seq<char>>),
}

/// The answer to a query, as read by the caller.
#[derive(Debug)]
pub enum WalkAnswer {
    Exists(bool),
    Children(Vec<u32>),
    Tpgid(Option<i64>),
    Comm(Option<String>),
    Capture(Option<Vec<String>>, Option<String>),
}

/// The fact an answer states.
pub open spec fn answer_fact(a: WalkAnswer) -> ProcFact {
    match a {
        WalkAnswer::Exists(b) => ProcFact::Exists(b),
        WalkAnswer::Children(v) => ProcFact::Children(v@),
        WalkAnswer::Tpgid(t) => ProcFact::Tpgid(t),
        WalkAnswer::Comm(c) => ProcFact::Comm(
            match c {
                Some(s) => Some(s@),
                None => None,
            },
        ),
        WalkAnswer::Capture(cmd, cwd) => ProcFact::Capture(
            match cmd {
                Some(v) => Some(views(v@)),
                None => None,
            },
            match cwd {
                Some(s) => Some(s@),
                None => None,
            },
        ),
    }
}

/// A process table: the fact that answers each query.
pub type ProcModel = spec_fn(WalkQuery) -> ProcFact;

/// Whether the answer kind fits the query kind.
pub open spec fn answer_fits(q: WalkQuery, f: ProcFact) -> bool {
    match q {
        WalkQuery::Exists(_) => f is Exists,
        WalkQuery::Children(_) => f is Children,
        WalkQuery::Tpgid(_) => f is Tpgid,
        WalkQuery::Comm(_) => f is Comm,
        WalkQuery::Capture(_) => f is Capture,
    }
}

/// Whether a process table is consistent: each query gets a fact of its kind.
pub open spec fn model_wf(m: ProcModel) -> bool {
    forall|q: WalkQuery| #[trigger] answer_fits(q, m(q))
}

pub open spec fn m_exists(m: ProcModel, p: u32) -> bool {
    match m(WalkQuery::Exists(p)) {
        ProcFact::Exists(b) => b,
        _ => false,
    }
}

pub open spec fn m_children(m: ProcModel, p: u32) -> Seq<u32> {
    match m(WalkQuery::Children(p)) {
        ProcFact::Children(c) => c,
        _ => seq![],
    }
}

/// The foreground process group as a pid: 0 when unknown or out of range.
pub open spec fn m_tpgid(m: ProcModel, p: u32) -> u32 {
    match m(WalkQuery::Tpgid(p)) {
        ProcFact::Tpgid(Some(t)) => if 0 <= t <= u32::MAX {
            t as u32
        } else {
            0
        },
        _ => 0,
    }
}

pub open spec fn m_comm(m: ProcModel, p: u32) -> Option<Seq<char>> {
    match m(WalkQuery::Comm(p)) {
        ProcFact::Comm(c) => c,
        _ => None,
    }
}

/// A process's command line and working directory, empty when unreadable.
pub open spec fn m_capture(m: ProcModel, p: u32) -> (Seq<Seq<char>>, Seq<char>) {
    match m(WalkQuery::Capture(p)) {
        ProcFact::Capture(cmd, cwd) => (
            match cmd {
                Some(v) => v,
                None => seq![],
            },
            match cwd {
                Some(s) => s,
                None => seq![],
            },
        ),
        _ => (seq![], seq![]),
    }
}

/// Whether a command name is neither a shell nor a helper.
pub open spec fn is_real(c: Seq<char>, shells: Seq<String>, helpers: Seq<String>) -> bool {
    !listed(shells, c) && !listed(helpers, c)
}

/// The foreground process of a childless process, when it is a real
/// command (not a shell, helper, or kitty's `__atexit__`).
pub open spec fn fg_result(m: ProcModel, tp: u32, shells: Seq<String>, helpers: Seq<String>) -> Option<
    (Seq<Seq<char>>, Seq<char>),
> {
    if tp > 0 {
        match m_comm(m, tp) {
            Some(c) => if is_real(c, shells, helpers) && c != "__atexit__"@ {
                Some(m_capture(m, tp))
            } else {
                None
            },
            None => None,
        }
    } else {
        None
    }
}

/// The first child, from index `j` on, whose command name is readable and
/// real.
pub open spec fn first_real_child(
    m: ProcModel,
    ch: Seq<u32>,
    j: int,
    shells: Seq<String>,
    helpers: Seq<String>,
) -> Option<u32>
    decreases ch.len() - j,
{
    if j < 0 || j >= ch.len() {
        None
    } else if m_comm(m, ch[j]) is Some && is_real(m_comm(m, ch[j])->0, shells, helpers) {
        Some(ch[j])
    } else {
        first_real_child(m, ch, j + 1, shells, helpers)
    }
}

/// The child the walk descends to: the foreground child; else the first
/// real child (kitty starts helper processes beside the real child); else
/// the first child.
pub open spec fn pick_next(m: ProcModel, ch: Seq<u32>, tp: u32, shells: Seq<String>, helpers: Seq<String>) -> u32 {
    if tp > 0 && ch.contains(tp) {
        tp
    } else {
        match first_real_child(m, ch, 0, shells, helpers) {
            Some(c) => c,
            None => ch[0],
        }
    }
}

/// The walk from a chosen child: an unreadable name ends it; a shell or
/// helper is descended into; anything else is the result.
pub open spec fn from_next(
    m: ProcModel,
    next: u32,
    depth: nat,
    max_depth: nat,
    shells: Seq<String>,
    helpers: Seq<String>,
) -> Option<(Seq<Seq<char>>, Seq<char>)>
    decreases max_depth - depth, 0nat,
{
    if depth >= max_depth {
        None
    } else {
        match m_comm(m, next) {
            None => None,
            Some(c) => if is_real(c, shells, helpers) {
                Some(m_capture(m, next))
            } else {
                resolve_from(m, next, depth + 1, max_depth, shells, helpers)
            },
        }
    }
}

/// The walk from a process with known children and foreground group.
pub open spec fn from_children(
    m: ProcModel,
    ch: Seq<u32>,
    tp: u32,
    depth: nat,
    max_depth: nat,
    shells: Seq<String>,
    helpers: Seq<String>,
) -> Option<(Seq<Seq<char>>, Seq<char>)>
    decreases max_depth - depth, 1nat,
{
    if depth >= max_depth {
        None
    } else if ch.len() == 0 {
        fg_result(m, tp, shells, helpers)
    } else {
        from_next(m, pick_next(m, ch, tp, shells, helpers), depth, max_depth, shells, helpers)
    }
}

/// The foreground command (argument list, working directory) under
/// process `cur`, walking at most `max_depth - depth` more levels: a
/// missing process ends the walk; a childless process yields its terminal's
/// foreground process when that is a real command; otherwise the walk moves
/// to the chosen child (see `pick_next` and `from_next`).
pub open spec fn resolve_from(
    m: ProcModel,
    cur: u32,
    depth: nat,
    max_depth: nat,
    shells: Seq<String>,
    helpers: Seq<String>,
) -> Option<(Seq<Seq<char>>, Seq<char>)>
    decreases max_depth - depth, 2nat,
{
    if depth >= max_depth {
        None
    } else if !m_exists(m, cur) {
        None
    } else {
        from_children(m, m_children(m, cur), m_tpgid(m, cur), depth, max_depth, shells, helpers)
    }
}

/// Whether `v` holds `x`.
pub fn vec_contains_u32(v: &Vec<u32>, x: u32) -> (b: bool)
    ensures
        b == v@.contains(x),
{
    let mut i: usize = 0;
    while i < v.len()
        invariant
            i <= v.len(),
            forall|k: int| 0 <= k < i ==> v@[k] != x,
        decreases v.len() - i,
    {
        if v[i] == x {
            return true;
        }
        i = i + 1;
    }
    false
}

/// A captured command line and working directory, empty where unreadable.
pub fn capture_result(cmd: Option<Vec<String>>, cwd: Option<String>) -> (r: (Vec<String>, String))
    ensures
        views(r.0@) == match cmd {
            Some(v) => views(v@),
            None => seq![],
        },
        r.1@ == match cwd {
            Some(s) => s@,
            None => seq![],
        },
{
    let c = match cmd {
        Some(v) => v,
        None => Vec::new(),
    };
    assert(views(c@) == match cmd {
        Some(v) => views(v@),
        None => Seq::<Seq<char>>::empty(),
    }) by {
        if cmd is None {
            assert(views(c@) =~= Seq::<Seq<char>>::empty());
        }
    }
    let d = match cwd {
        Some(s) => s,
        None => String::new(),
    };
    (c, d)
}

/// Order of the phases within one level of the walk: each step moves to a
/// lower rank, except a candidate scan, which moves along the children.
pub open spec fn phase_rank(p: WalkPhase) -> nat {
    match p {
        WalkPhase::CheckExists => 8,
        WalkPhase::ReadChildren => 7,
        WalkPhase::ReadTpgid => 6,
        WalkPhase::ScanCandidates => 5,
        WalkPhase::ReadNextComm => 4,
        WalkPhase::ReadForegroundComm => 3,
        WalkPhase::CaptureForeground => 2,
        WalkPhase::CaptureNext => 1,
        WalkPhase::Finished => 0,
    }
}

/// Whether walk `b` is strictly further along than walk `a`: one level
/// deeper, or a lower phase at the same level, or further along the scan.
pub open spec fn advanced(a: ProcWalk, b: ProcWalk) -> bool {
    &&& b.max_depth == a.max_depth
    &&& {
        ||| b.depth > a.depth
        ||| b.depth == a.depth && phase_rank(b.phase) < phase_rank(a.phase)
        ||| b.depth == a.depth && a.phase == WalkPhase::ScanCandidates && b.phase == a.phase
            && b.children.len() == a.children.len() && b.scan > a.scan
    }
}

/// Where the walk stands.
#[derive(Debug, Clone, Copy, PartialEq, Eq, Structural)]
pub enum WalkPhase {
    CheckExists,
    ReadChildren,
    ReadTpgid,
    ReadForegroundComm,
    CaptureForeground,
    ScanCandidates,
    ReadNextComm,
    CaptureNext,
    Finished,
}

/// What the walk needs next, or its result.
#[derive(Debug)]
pub enum WalkStep {
    Ask(WalkQuery),
    Done(Option<(Vec<String>, String)>),
}

/// A walk down the process tree of a terminal.
#[derive(Debug)]
pub struct ProcWalk {
    pub phase: WalkPhase,
    pub current: u32,
    pub depth: u32,
    pub max_depth: u32,
    pub children: Vec<u32>,
    pub tpgid: u32,
    pub scan: usize,
    pub next: u32,
    pub result: Option<(Vec<String>, String)>,
    pub shells: Vec<String>,
    pub helpers: Vec<String>,
}

/// Views of an optional result.
pub open spec fn result_view(r: Option<(Vec<String>, String)>) -> Option<(Seq<Seq<char>>, Seq<char>)> {
    match r {
        Some((cmd, cwd)) => Some((views(cmd@), cwd@)),
        None => None,
    }
}

impl ProcWalk {
    /// Whether the walk's bookkeeping is consistent with its phase.
    pub open spec fn wf(self) -> bool {
        &&& self.depth <= self.max_depth
        &&& self.phase != WalkPhase::Finished ==> self.depth < self.max_depth
        &&& self.phase == WalkPhase::ReadForegroundComm ==> self.tpgid > 0
        &&& self.phase == WalkPhase::ScanCandidates ==> {
            &&& self.children.len() > 0
            &&& self.scan < self.children.len()
            &&& !(self.tpgid > 0 && self.children@.contains(self.tpgid))
        }
    }

    /// The query the walk waits on (meaningless once finished).
    pub open spec fn pending(self) -> WalkQuery {
        match self.phase {
            WalkPhase::CheckExists => WalkQuery::Exists(self.current),
            WalkPhase::ReadChildren => WalkQuery::Children(self.current),
            WalkPhase::ReadTpgid => WalkQuery::Tpgid(self.current),
            WalkPhase::ReadForegroundComm => WalkQuery::Comm(self.tpgid),
            WalkPhase::CaptureForeground => WalkQuery::Capture(self.tpgid),
            WalkPhase::ScanCandidates => WalkQuery::Comm(self.children@[self.scan as int]),
            WalkPhase::ReadNextComm => WalkQuery::Comm(self.next),
            WalkPhase::CaptureNext => WalkQuery::Capture(self.next),
            WalkPhase::Finished => WalkQuery::Exists(0),
        }
    }

    /// The result the walk reaches from here when every query is answered
    /// from process table `m`.
    pub open spec fn outcome(self, m: ProcModel) -> Option<(Seq<Seq<char>>, Seq<char>)> {
        let sh = self.shells@;
        let he = self.helpers@;
        let d = self.depth as nat;
        let md = self.max_depth as nat;
        match self.phase {
            WalkPhase::CheckExists => resolve_from(m, self.current, d, md, sh, he),
            WalkPhase::ReadChildren => from_children(
                m,
                m_children(m, self.current),
                m_tpgid(m, self.current),
                d,
                md,
                sh,
                he,
            ),
            WalkPhase::ReadTpgid => from_children(m, self.children@, m_tpgid(m, self.current), d, md, sh, he),
            WalkPhase::ReadForegroundComm => fg_result(m, self.tpgid, sh, he),
            WalkPhase::CaptureForeground => Some(m_capture(m, self.tpgid)),
            WalkPhase::ScanCandidates => from_next(
                m,
                match first_real_child(m, self.children@, self.scan as int, sh, he) {
                    Some(c) => c,
                    None => self.children@[0],
                },
                d,
                md,
                sh,
                he,
            ),
            WalkPhase::ReadNextComm => from_next(m, self.next, d, md, sh, he),
            WalkPhase::CaptureNext => Some(m_capture(m, self.next)),
            WalkPhase::Finished => result_view(self.result),
        }
    }

    /// Starts a walk below process `pid`, at most `max_depth` levels deep,
    /// skipping the given shell and helper names.
    pub fn start(pid: u32, max_depth: u32, shell_names: &Vec<String>, helper_names: &Vec<String>) -> (w: Self)
        ensures
            w.wf(),
            w.shells@ == shell_names@,
            w.helpers@ == helper_names@,
            forall|m: ProcModel| #[trigger] w.outcome(m) == resolve_from(
                m,
                pid,
                0,
                max_depth as nat,
                shell_names@,
                helper_names@,
            ),
    {
        let phase = if max_depth == 0 { WalkPhase::Finished } else { WalkPhase::CheckExists };
        ProcWalk {
            phase,
            current: pid,
            depth: 0,
            max_depth,
            children: Vec::new(),
            tpgid: 0,
            scan: 0,
            next: 0,
            result: None,
            shells: dup_strings(shell_names),
            helpers: dup_strings(helper_names),
        }
    }

    /// The query to answer next, or the walk's result.
    pub fn step(&self) -> (s: WalkStep)
        requires
            self.wf(),
        ensures
            match s {
                WalkStep::Ask(q) => self.phase != WalkPhase::Finished && q == self.pending(),
                WalkStep::Done(r) => self.phase == WalkPhase::Finished && forall|m: ProcModel|
                    #[trigger] self.outcome(m) == result_view(r),
            },
    {
        match self.phase {
            WalkPhase::CheckExists => WalkStep::Ask(WalkQuery::Exists(self.current)),
            WalkPhase::ReadChildren => WalkStep::Ask(WalkQuery::Children(self.current)),
            WalkPhase::ReadTpgid => WalkStep::Ask(WalkQuery::Tpgid(self.current)),
            WalkPhase::ReadForegroundComm => WalkStep::Ask(WalkQuery::Comm(self.tpgid)),
            WalkPhase::CaptureForeground => WalkStep::Ask(WalkQuery::Capture(self.tpgid)),
            WalkPhase::ScanCandidates => WalkStep::Ask(WalkQuery::Comm(self.children[self.scan])),
            WalkPhase::ReadNextComm => WalkStep::Ask(WalkQuery::Comm(self.next)),
            WalkPhase::CaptureNext => WalkStep::Ask(WalkQuery::Capture(self.next)),
            WalkPhase::Finished => {
                let r = match &self.result {
                    Some((cmd, cwd)) => Some((dup_strings(cmd), cwd.clone())),
                    None => None,
                };
                WalkStep::Done(r)
            },
        }
    }

    fn finish(&mut self, r: Option<(Vec<String>, String)>)
        ensures
            final(self).phase == WalkPhase::Finished,
            final(self).result == r,
            final(self).shells == old(self).shells,
            final(self).helpers == old(self).helpers,
            final(self).depth == old(self).depth,
            final(self).max_depth == old(self).max_depth,
    {
        self.phase = WalkPhase::Finished;
        self.result = r;
    }

    /// Takes the answer to the pending query and advances the walk. When the
    /// answer is the fact a consistent process table `m` gives, the walk's
    /// outcome under `m` is unchanged; an answer of the wrong kind ends the
    /// walk without a result.
    pub fn answer(&mut self, a: WalkAnswer)
        requires
            old(self).wf(),
        ensures
            final(self).wf(),
            final(self).shells@ == old(self).shells@,
            final(self).helpers@ == old(self).helpers@,
            old(self).phase == WalkPhase::Finished ==> *final(self) == *old(self),
            old(self).phase != WalkPhase::Finished ==> advanced(*old(self), *final(self)),
            old(self).phase != WalkPhase::Finished && !answer_fits(old(self).pending(), answer_fact(a))
                ==> final(self).phase == WalkPhase::Finished && final(self).result is None,
            forall|m: ProcModel|
                model_wf(m) && old(self).phase != WalkPhase::Finished && answer_fact(a) == m(
                    old(self).pending(),
                ) ==> #[trigger] final(self).outcome(m) == old(self).outcome(m),
    {
        let ghost pre = *self;
        let ghost fa = answer_fact(a);
        let ghost q = pre.pending();
        let ghost sh = pre.shells@;
        let ghost he = pre.helpers@;
        let ghost d = pre.depth as nat;
        let ghost md = pre.max_depth as nat;
        match (self.phase, a) {
            (WalkPhase::CheckExists, WalkAnswer::Exists(b)) => {
                if b {
                    self.phase = WalkPhase::ReadChildren;
                } else {
                    self.finish(None);
                }
                assert forall|m: ProcModel| model_wf(m) && fa == m(q) implies #[trigger] self.outcome(m)
                    == pre.outcome(m) by {
                    assert(m_exists(m, pre.current) == b);
                }
            },
            (WalkPhase::ReadChildren, WalkAnswer::Children(v)) => {
                self.children = v;
                self.phase = WalkPhase::ReadTpgid;
                assert forall|m: ProcModel| model_wf(m) && fa == m(q) implies #[trigger] self.outcome(m)
                    == pre.outcome(m) by {
                    assert(m_children(m, pre.current) == self.children@);
                }
            },
            (WalkPhase::ReadTpgid, WalkAnswer::Tpgid(t)) => {
                let tp: u32 = match t {
                    Some(x) => if 0 <= x && x <= 0xffff_ffff {
                        x as u32
                    } else {
                        0
                    },
                    None => 0,
                };
                self.tpgid = tp;
                if self.children.len() == 0 {
                    if tp > 0 {
                        self.phase = WalkPhase::ReadForegroundComm;
                    } else {
                        self.finish(None);
                    }
                } else if tp > 0 && vec_contains_u32(&self.children, tp) {
                    self.next = tp;
                    self.phase = WalkPhase::ReadNextComm;
                } else {
                    self.scan = 0;
                    self.phase = WalkPhase::ScanCandidates;
                }
                assert forall|m: ProcModel| model_wf(m) && fa == m(q) implies #[trigger] self.outcome(m)
                    == pre.outcome(m) by {
                    assert(m_tpgid(m, pre.current) == tp);
                }
            },
            (WalkPhase::ReadForegroundComm, WalkAnswer::Comm(c)) => {
                let fg = match &c {
                    Some(name) => !contains_str(&self.shells, name.as_str()) && !str_eq(
                        name.as_str(),
                        "__atexit__",
                    ) && !contains_str(&self.helpers, name.as_str()),
                    None => false,
                };
                if fg {
                    self.phase = WalkPhase::CaptureForeground;
                } else {
                    self.finish(None);
                }
                assert forall|m: ProcModel| model_wf(m) && fa == m(q) implies #[trigger] self.outcome(m)
                    == pre.outcome(m) by {
                    assert(m_comm(m, pre.tpgid) == match c {
                        Some(s) => Some(s@),
                        None => None,
                    });
                }
            },
            (WalkPhase::CaptureForeground, WalkAnswer::Capture(cmd, cwd)) => {
                let ghost gcmd = cmd;
                let ghost gcwd = cwd;
                let r = capture_result(cmd, cwd);
                self.finish(Some(r));
                assert forall|m: ProcModel| model_wf(m) && fa == m(q) implies #[trigger] self.outcome(m)
                    == pre.outcome(m) by {
                    assert(m(WalkQuery::Capture(pre.tpgid)) == answer_fact(WalkAnswer::Capture(gcmd, gcwd)));
                }
            },
            (WalkPhase::ScanCandidates, WalkAnswer::Comm(c)) => {
                let is_cmd = match &c {
                    Some(name) => !contains_str(&self.shells, name.as_str()) && !contains_str(
                        &self.helpers,
                        name.as_str(),
                    ),
                    None => false,
                };
                if is_cmd {
                    self.next = self.children[self.scan];
                    self.phase = WalkPhase::ReadNextComm;
                } else if self.scan + 1 < self.children.len() {
                    self.scan = self.scan + 1;
                } else {
                    self.next = self.children[0];
                    self.phase = WalkPhase::ReadNextComm;
                }
                assert forall|m: ProcModel| model_wf(m) && fa == m(q) implies #[trigger] self.outcome(m)
                    == pre.outcome(m) by {
                    let ch = pre.children@;
                    assert(m_comm(m, ch[pre.scan as int]) == match c {
                        Some(s) => Some(s@),
                        None => None,
                    });
                    assert(first_real_child(m, ch, pre.scan as int, sh, he) == if is_cmd {
                        Some(ch[pre.scan as int])
                    } else {
                        first_real_child(m, ch, pre.scan + 1, sh, he)
                    });
                }
            },
            (WalkPhase::ReadNextComm, WalkAnswer::Comm(c)) => {
                let ghost gc = c;
                match &c {
                    None => {
                        self.finish(None);
                    },
                    Some(name) => {
                        let is_cmd = !contains_str(&self.shells, name.as_str()) && !contains_str(
                            &self.helpers,
                            name.as_str(),
                        );
                        if is_cmd {
                            self.phase = WalkPhase::CaptureNext;
                        } else {
                            self.current = self.next;
                            self.depth = self.depth + 1;
                            if self.depth >= self.max_depth {
                                self.finish(None);
                            } else {
                                self.phase = WalkPhase::CheckExists;
                            }
                        }
                    },
                }
                assert forall|m: ProcModel| model_wf(m) && fa == m(q) implies #[trigger] self.outcome(m)
                    == pre.outcome(m) by {
                    assert(m_comm(m, pre.next) == match gc {
                        Some(s) => Some(s@),
                        None => None,
                    });
                }
            },
            (WalkPhase::CaptureNext, WalkAnswer::Capture(cmd, cwd)) => {
                let ghost gcmd = cmd;
                let ghost gcwd = cwd;
                let r = capture_result(cmd, cwd);
                self.finish(Some(r));
                assert forall|m: ProcModel| model_wf(m) && fa == m(q) implies #[trigger] self.outcome(m)
                    == pre.outcome(m) by {
                    assert(m(WalkQuery::Capture(pre.next)) == answer_fact(WalkAnswer::Capture(gcmd, gcwd)));
                }
            },
            (WalkPhase::Finished, _) => {},
            _ => {
                self.finish(None);
                assert forall|m: ProcModel| model_wf(m) && fa == m(q) implies #[trigger] self.outcome(m)
                    == pre.outcome(m) by {
                    assert(answer_fits(q, m(q)));
                }
            },
        }
    }
}


/// What was read about one process.
#[derive(Debug)]
pub struct ProcEntry {
    pub pid: u32,
    /// The pids its `task/<pid>/children` file lists, `None` when that file
    /// is unreadable.
    pub children_file: Option<Vec<u32>>,
    /// Field 4 of its `stat` (its parent pid), when readable.
    pub ppid: Option<i64>,
    /// Field 8 of its `stat`, when readable.
    pub tpgid: Option<i64>,
    /// Its command name, when readable.
    pub comm: Option<String>,
    /// Its command line, when readable.
    pub cmdline: Option<Vec<String>>,
    /// Its working directory, when readable.
    pub cwd: Option<String>,
}

/// A snapshot of the process table: the processes that exist.
#[derive(Debug)]
pub struct ProcTable {
    pub entries: Vec<ProcEntry>,
}

/// Index of the first entry, from `j` on, for process `p`.
pub open spec fn entry_index(t: Seq<ProcEntry>, p: u32, j: int) -> Option<int>
    decreases t.len() - j,
{
    if j < 0 || j >= t.len() {
        None
    } else if t[j].pid == p {
        Some(j)
    } else {
        entry_index(t, p, j + 1)
    }
}

/// The `(pid, parent pid)` pairs of a snapshot, in its order.
pub open spec fn table_stats(t: Seq<ProcEntry>) -> Seq<(u32, Option<i64>)> {
    t.map_values(|e: ProcEntry| (e.pid, e.ppid))
}

/// The process table a snapshot describes: a process exists when it has an
/// entry, and every fact about a missing process is empty.
pub open spec fn table_model(t: Seq<ProcEntry>) -> ProcModel {
    |q: WalkQuery|
        match q {
            WalkQuery::Exists(p) => ProcFact::Exists(entry_index(t, p, 0) is Some),
            WalkQuery::Children(p) => ProcFact::Children(
                match entry_index(t, p, 0) {
                    Some(i) => spec_children_or_scan(
                        match t[i].children_file {
                            Some(c) => Some(c@),
                            None => None,
                        },
                        ppid_children(table_stats(t), p).sort_by(pid_leq()),
                    ),
                    None => seq![],
                },
            ),
            WalkQuery::Tpgid(p) => ProcFact::Tpgid(
                match entry_index(t, p, 0) {
                    Some(i) => t[i].tpgid,
                    None => None,
                },
            ),
            WalkQuery::Comm(p) => ProcFact::Comm(
                match entry_index(t, p, 0) {
                    Some(i) => opt_view(t[i].comm),
                    None => None,
                },
            ),
            WalkQuery::Capture(p) => match entry_index(t, p, 0) {
                Some(i) => ProcFact::Capture(
                    match t[i].cmdline {
                        Some(v) => Some(views(v@)),
                        None => None,
                    },
                    opt_view(t[i].cwd),
                ),
                None => ProcFact::Capture(None, None),
            },
        }
}

/// A copy of a list of pids.
fn copy_pids(c: &Vec<u32>) -> (v: Vec<u32>)
    ensures
        v@ == c@,
{
    let mut v: Vec<u32> = Vec::new();
    let mut k: usize = 0;
    while k < c.len()
        invariant
            k <= c.len(),
            v@ == c@.take(k as int),
        decreases c.len() - k,
    {
        v.push(c[k]);
        k = k + 1;
    }
    assert(c@.take(c.len() as int) == c@);
    v
}

proof fn lemma_entry_index(t: Seq<ProcEntry>, p: u32, j: int)
    requires
        j >= 0,
    ensures
        match entry_index(t, p, j) {
            Some(i) => j <= i < t.len() && t[i].pid == p,
            None => true,
        },
    decreases t.len() - j,
{
    if j < t.len() {
        lemma_entry_index(t, p, j + 1);
    }
}

impl ProcTable {
    fn find(&self, p: u32) -> (r: Option<usize>)
        ensures
            match entry_index(self.entries@, p, 0) {
                Some(i) => 0 <= i < self.entries.len() && r == Some(i as usize),
                None => r is None,
            },
    {
        proof {
            lemma_entry_index(self.entries@, p, 0);
        }
        let mut j: usize = 0;
        while j < self.entries.len()
            invariant
                j <= self.entries.len(),
                entry_index(self.entries@, p, 0) == entry_index(self.entries@, p, j as int),
            decreases self.entries.len() - j,
        {
            if self.entries[j].pid == p {
                return Some(j);
            }
            j = j + 1;
        }
        None
    }

    /// The `(pid, parent pid)` pairs of the snapshot.
    pub fn stats(&self) -> (r: Vec<(u32, Option<i64>)>)
        ensures
            r@ == table_stats(self.entries@),
    {
        let mut r: Vec<(u32, Option<i64>)> = Vec::new();
        let mut k: usize = 0;
        while k < self.entries.len()
            invariant
                k <= self.entries.len(),
                r@ == table_stats(self.entries@).take(k as int),
            decreases self.entries.len() - k,
        {
            r.push((self.entries[k].pid, self.entries[k].ppid));
            assert(r@ =~= table_stats(self.entries@).take(k + 1));
            k = k + 1;
        }
        assert(table_stats(self.entries@).take(self.entries.len() as int) =~= table_stats(self.entries@));
        r
    }

    /// The answer this snapshot gives to a query of the walk.
    pub fn query(&self, q: WalkQuery) -> (a: WalkAnswer)
        ensures
            answer_fact(a) == table_model(self.entries@)(q),
    {
        match q {
            WalkQuery::Exists(p) => WalkAnswer::Exists(self.find(p).is_some()),
            WalkQuery::Children(p) => match self.find(p) {
                Some(i) => {
                    let e = &self.entries[i];
                    let file = match &e.children_file {
                        Some(c) => Some(copy_pids(c)),
                        None => None,
                    };
                    let scanned = if needs_ppid_scan(&file) {
                        scan_children_by_ppid(p, &self.stats())
                    } else {
                        Vec::new()
                    };
                    WalkAnswer::Children(children_or_scan(file, scanned))
                },
                None => {
                    let v: Vec<u32> = Vec::new();
                    assert(v@ =~= seq![]);
                    WalkAnswer::Children(v)
                },
            },
            WalkQuery::Tpgid(p) => match self.find(p) {
                Some(i) => WalkAnswer::Tpgid(self.entries[i].tpgid),
                None => WalkAnswer::Tpgid(None),
            },
            WalkQuery::Comm(p) => match self.find(p) {
                Some(i) => WalkAnswer::Comm(dup_opt_string(&self.entries[i].comm)),
                None => WalkAnswer::Comm(None),
            },
            WalkQuery::Capture(p) => match self.find(p) {
                Some(i) => {
                    let e = &self.entries[i];
                    let cmd = match &e.cmdline {
                        Some(v) => Some(dup_strings(v)),
                        None => None,
                    };
                    WalkAnswer::Capture(cmd, dup_opt_string(&e.cwd))
                },
                None => WalkAnswer::Capture(None, None),
            },
        }
    }
}

/// The foreground command (argument list, working directory) of the
/// terminal whose process is `pid`, found in the snapshot `table`: the walk
/// of `resolve_from`, skipping shells and helpers, at most `max_depth`
/// levels deep.
pub fn resolve_child_process(
    pid: u32,
    shell_names: &Vec<String>,
    helper_names: &Vec<String>,
    max_depth: u32,
    table: &ProcTable,
) -> (r: Option<(Vec<String>, String)>)
    ensures
        result_view(r) == resolve_from(
            table_model(table.entries@),
            pid,
            0,
            max_depth as nat,
            shell_names@,
            helper_names@,
        ),
{
    let ghost m = table_model(table.entries@);
    assert(model_wf(m)) by {
        assert forall|q: WalkQuery| #[trigger] answer_fits(q, m(q)) by {}
    }
    let mut walk = ProcWalk::start(pid, max_depth, shell_names, helper_names);
    loop
        invariant
            m == table_model(table.entries@),
            model_wf(m),
            walk.wf(),
            walk.outcome(m) == resolve_from(m, pid, 0, max_depth as nat, shell_names@, helper_names@),
        decreases walk.max_depth - walk.depth, phase_rank(walk.phase), walk.children.len() - walk.scan,
    {
        match walk.step() {
            WalkStep::Done(r) => {
                return r;
            },
            WalkStep::Ask(q) => {
                let a = table.query(q);
                let ghost pre = walk;
                walk.answer(a);
                assert(advanced(pre, walk));
            },
        }
    }
}

/// Index of the first `c` in `s`.
pub open spec fn first_index_of(s: Seq<char>, c: char, j: int) -> Option<int>
    decreases s.len() - j,
{
    if j < 0 || j >= s.len() {
        None
    } else if s[j] == c {
        Some(j)
    } else {
        first_index_of(s, c, j + 1)
    }
}

/// Field `field` (1-based, as numbered in proc(5), counting from 3 after
/// the parenthesized command name) of a `/proc/<pid>/stat` line: the text
/// after the first `)` and one ASCII separator is split at whitespace;
/// `None` when that text is missing or the field is absent or not an `i64`.
pub open spec fn spec_stat_field(s: Seq<char>, field: nat) -> Option<i64> {
    match first_index_of(s, ')', 0) {
        None => None,
        Some(p) => if p + 1 < s.len() && (s[p + 1] as u32) < 0x80 {
            let ws = words(s.subrange(p + 2, s.len() as int));
            let idx: int = if field >= 3 {
                field - 3
            } else {
                0
            };
            if idx < ws.len() {
                spec_parse_i64(ws[idx])
            } else {
                None
            }
        } else {
            None
        },
    }
}

/// Reads field `field` of a `/proc/<pid>/stat` line (see `spec_stat_field`).
pub fn parse_stat_field(data: &str, field: usize) -> (r: Option<i64>)
    ensures
        r == spec_stat_field(data@, field as nat),
{
    let v = chars_of(data);
    let mut p: usize = 0;
    while p < v.len() && v[p] != ')'
        invariant
            p <= v.len(),
            v@ == data@,
            first_index_of(data@, ')', 0) == first_index_of(data@, ')', p as int),
        decreases v.len() - p,
    {
        p = p + 1;
    }
    if p >= v.len() {
        return None;
    }
    if !(p + 1 < v.len() && (v[p + 1] as u32) < 0x80) {
        return None;
    }
    let rest = crate::text::string_from_range(&v, p + 2, v.len());
    let ws = split_whitespace(rest.as_str());
    let idx = if field >= 3 { field - 3 } else { 0 };
    if idx < ws.len() {
        assert(views(ws@)[idx as int] == ws@[idx as int]@);
        parse_i64(ws[idx].as_str())
    } else {
        None
    }
}

/// The words of `ws` that parse as `u32`, in order.
pub open spec fn parsed_pids(ws: Seq<Seq<char>>) -> Seq<u32>
    decreases ws.len(),
{
    if ws.len() == 0 {
        seq![]
    } else {
        let prev = parsed_pids(ws.drop_last());
        match spec_parse_u32(ws.last()) {
            Some(x) => prev.push(x),
            None => prev,
        }
    }
}

/// The pids listed in a `/proc/<pid>/task/<pid>/children` file: its
/// whitespace-separated words that parse as `u32`.
pub fn parse_children_list(data: &str) -> (r: Vec<u32>)
    ensures
        r@ == parsed_pids(words(data@)),
{
    let ws = split_whitespace(data);
    let ghost w = views(ws@);
    let mut r: Vec<u32> = Vec::new();
    let mut i: usize = 0;
    while i < ws.len()
        invariant
            i <= ws.len(),
            w == views(ws@),
            w == words(data@),
            r@ == parsed_pids(w.take(i as int)),
        decreases ws.len() - i,
    {
        assert(w.take(i + 1).drop_last() == w.take(i as int));
        assert(w.take(i + 1).last() == ws@[i as int]@);
        match parse_u32(ws[i].as_str()) {
            Some(x) => r.push(x),
            None => {},
        }
        i = i + 1;
    }
    assert(w.take(ws.len() as int) == w);
    r
}

/// Whether `s` is in ascending order.
pub open spec fn ascending(s: Seq<u32>) -> bool {
    forall|i: int, j: int| 0 <= i < j < s.len() ==> s[i] <= s[j]
}

/// `v` in ascending order (`sort_unstable` of pids).
pub fn sort_pids(v: &Vec<u32>) -> (r: Vec<u32>)
    ensures
        ascending(r@),
        r@.to_multiset() == v@.to_multiset(),
        r.len() == v.len(),
{
    let mut r: Vec<u32> = Vec::new();
    let mut i: usize = 0;
    assert(v@.take(0) =~= r@);
    while i < v.len()
        invariant
            i <= v.len(),
            ascending(r@),
            r@.to_multiset() == v@.take(i as int).to_multiset(),
            r.len() == i,
        decreases v.len() - i,
    {
        let x = v[i];
        let mut pos: usize = 0;
        while pos < r.len() && r[pos] <= x
            invariant
                pos <= r.len(),
                forall|k: int| 0 <= k < pos ==> r@[k] <= x,
            decreases r.len() - pos,
        {
            pos = pos + 1;
        }
        let ghost before = r@;
        r.insert(pos, x);
        assert(r@ == before.insert(pos as int, x));
        assert(v@.take(i + 1) == v@.take(i as int).push(x));
        proof {
            vstd::seq_lib::to_multiset_insert(before, pos as int, x);
            vstd::seq_lib::to_multiset_build(v@.take(i as int), x);
        }
        assert forall|a: int, b: int| 0 <= a < b < r@.len() implies r@[a] <= r@[b] by {
            if b < pos {
            } else if b == pos {
                assert(r@[a] == before[a]);
            } else if a < pos {
                assert(r@[b] == before[b - 1]);
                if pos < before.len() {
                    assert(before[a] <= before[pos as int]);
                }
            } else if a == pos {
                assert(r@[b] == before[b - 1]);
                assert(before[pos as int] > x);
                assert(before[pos as int] <= before[b - 1] || b - 1 == pos);
            } else {
                assert(r@[a] == before[a - 1] && r@[b] == before[b - 1]);
            }
        }
        i = i + 1;
    }
    assert(v@.take(v.len() as int) == v@);
    r
}

/// The processes, among `(pid, parent pid)` pairs read from their `stat`
/// files, whose parent is `pid` (other than `pid` itself), in the order read.
pub open spec fn ppid_children(stats: Seq<(u32, Option<i64>)>, pid: u32) -> Seq<u32>
    decreases stats.len(),
{
    if stats.len() == 0 {
        seq![]
    } else {
        let prev = ppid_children(stats.drop_last(), pid);
        let (c, pp) = stats.last();
        if c != pid && pp == Some(pid as i64) {
            prev.push(c)
        } else {
            prev
        }
    }
}

/// The order of pids.
pub open spec fn pid_leq() -> spec_fn(u32, u32) -> bool {
    |a: u32, b: u32| a <= b
}

/// The children of `pid` found by scanning parent pids (used where the
/// `children` file lists none): the matching processes in ascending order.
pub fn scan_children_by_ppid(pid: u32, stats: &Vec<(u32, Option<i64>)>) -> (r: Vec<u32>)
    ensures
        r@ == ppid_children(stats@, pid).sort_by(pid_leq()),
        ascending(r@),
        r@.to_multiset() == ppid_children(stats@, pid).to_multiset(),
{
    let mut found: Vec<u32> = Vec::new();
    let mut i: usize = 0;
    while i < stats.len()
        invariant
            i <= stats.len(),
            found@ == ppid_children(stats@.take(i as int), pid),
        decreases stats.len() - i,
    {
        assert(stats@.take(i + 1).drop_last() == stats@.take(i as int));
        let (c, pp) = stats[i];
        let hit = c != pid && match pp {
            Some(x) => x == pid as i64,
            None => false,
        };
        if hit {
            found.push(c);
        }
        i = i + 1;
    }
    assert(stats@.take(stats.len() as int) == stats@);
    let r = sort_pids(&found);
    proof {
        let leq = pid_leq();
        assert(vstd::relations::total_ordering(leq));
        found@.lemma_sort_by_ensures(leq);
        assert(vstd::relations::sorted_by(r@, leq));
        vstd::seq_lib::lemma_sorted_unique(r@, found@.sort_by(leq), leq);
    }
    r
}

/// The children the walk descends into: those the `children` file lists,
/// or, when that file is unreadable or lists none, the ones a scan of
/// parent pids finds.
pub open spec fn spec_children_or_scan(children_file: Option<Seq<u32>>, scanned: Seq<u32>) -> Seq<u32> {
    match children_file {
        Some(c) => if c.len() > 0 {
            c
        } else {
            scanned
        },
        None => scanned,
    }
}

/// Whether the parent-pid scan is needed: the `children` file is
/// unreadable or lists no child.
pub fn needs_ppid_scan(children_file: &Option<Vec<u32>>) -> (b: bool)
    ensures
        b == !(children_file matches Some(c) && c.len() > 0),
{
    match children_file {
        Some(c) => c.len() == 0,
        None => true,
    }
}

/// The children of a process (see `spec_children_or_scan`).
pub fn children_or_scan(children_file: Option<Vec<u32>>, scanned: Vec<u32>) -> (r: Vec<u32>)
    ensures
        r@ == spec_children_or_scan(
            match children_file {
                Some(c) => Some(c@),
                None => None,
            },
            scanned@,
        ),
{
    match children_file {
        Some(c) => if c.len() > 0 {
            c
        } else {
            scanned
        },
        None => scanned,
    }
}

/// `String::from_utf8_lossy`: invalid sequences become U+FFFD.
pub uninterp spec fn spec_utf8_lossy(b: Seq<u8>) -> Seq<char>;

/// `String::from_utf8_lossy`. The contract claims that the result is the
/// named function `spec_utf8_lossy` of the bytes, and that valid UTF-8 is
/// decoded unchanged (the documented borrowed case); how invalid sequences
/// are replaced is left unsaid.
#[verifier::external_body]
fn utf8_lossy(b: &[u8]) -> (r: String)
    ensures
        r@ == spec_utf8_lossy(b@),
        valid_utf8(b@) ==> r@ == decode_utf8(b@),
{
    String::from_utf8_lossy(b).into_owned()
}

/// Splitter state after reading `b`: finished non-empty segments, and the
/// segment in progress (segments end at NUL bytes).
pub open spec fn nul_state(b: Seq<u8>) -> (Seq<Seq<u8>>, Seq<u8>)
    decreases b.len(),
{
    if b.len() == 0 {
        (seq![], seq![])
    } else {
        let prev = nul_state(b.drop_last());
        if b.last() == 0 {
            if prev.1.len() > 0 {
                (prev.0.push(prev.1), seq![])
            } else {
                (prev.0, seq![])
            }
        } else {
            (prev.0, prev.1.push(b.last()))
        }
    }
}

/// The non-empty NUL-separated segments of `b`.
pub open spec fn nul_segments(b: Seq<u8>) -> Seq<Seq<u8>> {
    let st = nul_state(b);
    if st.1.len() > 0 {
        st.0.push(st.1)
    } else {
        st.0
    }
}

/// The arguments of a `/proc/<pid>/cmdline` file: its non-empty
/// NUL-separated segments, decoded as lossy UTF-8; `None` when there are none.
pub open spec fn spec_cmdline(b: Seq<u8>) -> Option<Seq<Seq<char>>> {
    let segs = nul_segments(b);
    if segs.len() == 0 {
        None
    } else {
        Some(segs.map_values(|x: Seq<u8>| spec_utf8_lossy(x)))
    }
}

/// Parses a `/proc/<pid>/cmdline` file (see `spec_cmdline`).
pub fn parse_cmdline(data: &Vec<u8>) -> (r: Option<Vec<String>>)
    ensures
        match spec_cmdline(data@) {
            Some(a) => r is Some && views(r->0@) == a,
            None => r is None,
        },
{
    let mut out: Vec<String> = Vec::new();
    let mut cur: Vec<u8> = Vec::new();
    let mut i: usize = 0;
    while i < data.len()
        invariant
            i <= data.len(),
            views(out@) == nul_state(data@.take(i as int)).0.map_values(|x: Seq<u8>| spec_utf8_lossy(x)),
            cur@ == nul_state(data@.take(i as int)).1,
        decreases data.len() - i,
    {
        assert(data@.take(i + 1).drop_last() == data@.take(i as int));
        let b = data[i];
        if b == 0 {
            if cur.len() > 0 {
                let s = utf8_lossy(cur.as_slice());
                let ghost before = out@;
                let ghost done = nul_state(data@.take(i as int)).0;
                out.push(s);
                assert(views(out@) =~= views(before).push(s@));
                assert(done.push(cur@).map_values(|x: Seq<u8>| spec_utf8_lossy(x)) =~= done.map_values(
                    |x: Seq<u8>| spec_utf8_lossy(x),
                ).push(spec_utf8_lossy(cur@)));
                cur = Vec::new();
            }
        } else {
            cur.push(b);
        }
        i = i + 1;
    }
    assert(data@.take(data.len() as int) == data@);
    let ghost done = nul_state(data@).0;
    if cur.len() > 0 {
        let s = utf8_lossy(cur.as_slice());
        let ghost before = out@;
        out.push(s);
        assert(views(out@) =~= views(before).push(s@));
        assert(done.push(cur@).map_values(|x: Seq<u8>| spec_utf8_lossy(x)) =~= done.map_values(
            |x: Seq<u8>| spec_utf8_lossy(x),
        ).push(spec_utf8_lossy(cur@)));
    }
    if out.len() == 0 {
        None
    } else {
        Some(out)
    }
}

} // verus!
