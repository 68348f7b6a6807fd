//! Decisions of the reactive save loop: which events call for a save,
//! reconnect backoff for the niri event stream, when to mix in periodic
//! saves, and rate-limited logging of stream trouble.
use vstd::prelude::*;
use vstd::string::StringExecFns;
use crate::niri::EventKind;
use crate::span::{max_total, Span};
use crate::text::{
    chars_of, decimal, padded, push_decimal, push_fraction_digits, push_str, string_from_range,
    trim_trailing_zeros,
};

verus! {

/// Seconds a save waits for layout activity to settle.
pub const SAVE_DEBOUNCE_SECS: u64 = 2;
/// Seconds before the first reconnect after a live stream dies.
pub const RECONNECT_DELAY_INITIAL_SECS: u64 = 1;
/// Upper bound, in seconds, of the reconnect backoff.
pub const RECONNECT_DELAY_MAX_SECS: u64 = 30;
/// Consecutive quick stream deaths after which periodic saves are mixed in.
pub const RAPID_DEATH_FALLBACK_THRESHOLD: u32 = 3;
/// Seconds shutdown waits for the save loop to stop before aborting it.
pub const SAVE_TASK_SHUTDOWN_GRACE_SECS: u64 = 5;
/// Seconds a stream must live to count as healthy.
pub const RECONNECT_HEALTHY_STREAM_SECS: u64 = 5;
/// Unparsable lines logged per connection before logging is suppressed.
pub const MAX_UNPARSED_LOG_PER_CONNECTION: usize = 3;
/// Characters of an unparsable line kept for the log.
pub const UNPARSED_LOG_CHAR_LIMIT: usize = 200;
/// Stream deaths per health summary.
pub const FLAPPING_SUMMARY_EVERY: u32 = 10;
/// Seconds the final save at shutdown may take.
pub const FINAL_SAVE_TIMEOUT_SECS: u64 = 5;

/// Whether a niri event can change what a session save would capture.
pub open spec fn spec_layout_relevant(e: EventKind) -> bool {
    match e {
        EventKind::WorkspacesChanged | EventKind::WorkspaceActivated
        | EventKind::WorkspaceActiveWindowChanged | EventKind::WindowsChanged
        | EventKind::WindowOpenedOrChanged | EventKind::WindowClosed
        | EventKind::WindowFocusChanged | EventKind::WindowLayoutsChanged => true,
        _ => false,
    }
}

/// Whether a niri event can change what a session save would capture:
/// workspace and window changes, focus changes and layout changes.
pub fn layout_relevant(event: &EventKind) -> (b: bool)
    ensures
        b == spec_layout_relevant(*event),
{
    match event {
        EventKind::WorkspacesChanged | EventKind::WorkspaceActivated
        | EventKind::WorkspaceActiveWindowChanged | EventKind::WindowsChanged
        | EventKind::WindowOpenedOrChanged | EventKind::WindowClosed
        | EventKind::WindowFocusChanged | EventKind::WindowLayoutsChanged => true,
        _ => false,
    }
}

/// One line of the event stream: a known event, or a line that could not be
/// parsed (a newer niri may send variants this build does not know).
#[derive(Debug, Clone)]
pub enum ReadEvent {
    Event(EventKind),
    Unparsed(String),
}

/// Whether a line of the event stream calls for a save: a layout-relevant
/// event, or any unparsable line (an unknown variant may change the layout).
pub fn line_calls_for_save(line: &ReadEvent) -> (b: bool)
    ensures
        b == match line {
            ReadEvent::Event(e) => spec_layout_relevant(*e),
            ReadEvent::Unparsed(_) => true,
        },
{
    match line {
        ReadEvent::Event(e) => layout_relevant(e),
        ReadEvent::Unparsed(_) => true,
    }
}

/// The first `UNPARSED_LOG_CHAR_LIMIT` characters of `line`.
pub fn truncate_for_log(line: &str) -> (r: String)
    ensures
        r@ == if line@.len() > UNPARSED_LOG_CHAR_LIMIT {
            line@.take(UNPARSED_LOG_CHAR_LIMIT as int)
        } else {
            line@
        },
{
    let v = chars_of(line);
    let n = if v.len() > UNPARSED_LOG_CHAR_LIMIT { UNPARSED_LOG_CHAR_LIMIT } else { v.len() };
    let r = string_from_range(&v, 0, n);
    assert(v@.subrange(0, v.len() as int) == v@);
    r
}

/// `min(2 d, 30 s)`.
pub open spec fn spec_next_reconnect_delay(current: Span) -> Span {
    let t = current.total() * 2;
    let cap = RECONNECT_DELAY_MAX_SECS * 1_000_000_000;
    if t < cap {
        crate::span::span_of(t)
    } else {
        Span { secs: RECONNECT_DELAY_MAX_SECS, nanos: 0 }
    }
}

/// Doubles the reconnect delay, capped at 30 s so a flapping niri cannot pin
/// the save loop in a hot reconnect cycle.
pub fn next_reconnect_delay(current: Span) -> (d: Span)
    requires
        current.wf(),
    ensures
        d.wf(),
        d == spec_next_reconnect_delay(current),
        d.total() <= RECONNECT_DELAY_MAX_SECS * 1_000_000_000,
{
    let m = current.saturating_mul(2);
    let cap = Span::from_secs(RECONNECT_DELAY_MAX_SECS);
    let r = m.min(cap);
    proof {
        let t = current.total() * 2;
        if t <= max_total() {
            assert(m.total() == t);
            if t < cap.total() {
                assert(m == crate::span::span_of(t));
            }
        }
    }
    r
}

/// The reconnect delay after `k` quick stream deaths in a row, from the
/// initial delay.
pub open spec fn reconnect_delay_after(k: nat) -> Span
    decreases k,
{
    if k == 0 {
        Span { secs: RECONNECT_DELAY_INITIAL_SECS, nanos: 0 }
    } else {
        spec_next_reconnect_delay(reconnect_delay_after((k - 1) as nat))
    }
}

/// The reconnect backoff doubles from 1 s (1, 2, 4, 8, 16 s) and, from the
/// fifth quick death in a row on, stays at the 30 s cap.
pub proof fn law_reconnect_backoff_doubles_then_caps(k: nat)
    ensures
        reconnect_delay_after(k) == (Span {
            secs: if k == 0 {
                1
            } else if k == 1 {
                2
            } else if k == 2 {
                4
            } else if k == 3 {
                8
            } else if k == 4 {
                16
            } else {
                30
            },
            nanos: 0,
        }),
    decreases k,
{
    if k > 0 {
        law_reconnect_backoff_doubles_then_caps((k - 1) as nat);
        let prev = reconnect_delay_after((k - 1) as nat);
        assert(reconnect_delay_after(k) == spec_next_reconnect_delay(prev));
        if k == 1 {
            assert(crate::span::span_of(2_000_000_000) == Span { secs: 2, nanos: 0 });
        } else if k == 2 {
            assert(crate::span::span_of(4_000_000_000) == Span { secs: 4, nanos: 0 });
        } else if k == 3 {
            assert(crate::span::span_of(8_000_000_000) == Span { secs: 8, nanos: 0 });
        } else if k == 4 {
            assert(crate::span::span_of(16_000_000_000) == Span { secs: 16, nanos: 0 });
        }
    }
}

/// The summary text up to the delay: the death count and the streak.
pub open spec fn flapping_head(total: u32, streak: u32) -> Seq<char> {
    "niri event stream health: "@ + decimal(total as nat) + " deaths so far, current rapid-death streak "@
        + decimal(streak as nat) + " (periodic-fallback threshold "@ + decimal(
        RAPID_DEATH_FALLBACK_THRESHOLD as nat,
    ) + "), next reconnect in "@
}

/// The delay as the summary shows it: whole seconds as an integer;
/// otherwise the seconds, a point and the digits of the fraction without
/// trailing zeros (`1.5`).
pub open spec fn delay_text(d: Span) -> Seq<char> {
    if d.nanos == 0 {
        decimal(d.secs as nat)
    } else {
        decimal(d.secs as nat) + "."@ + trim_trailing_zeros(padded(d.nanos as nat, 9))
    }
}

/// The stream-health summary text.
pub open spec fn flapping_text(total: u32, streak: u32, delay: Span) -> Seq<char> {
    flapping_head(total, streak) + delay_text(delay) + "s"@
}

/// Rate-limited stream-health summary: counts one more stream death and,
/// every `FLAPPING_SUMMARY_EVERY` deaths, returns the summary and resets the
/// count. Whole-second delays (all reconnect delays are) show as integers.
pub fn flapping_summary(
    deaths_since_summary: &mut u32,
    total_deaths: u32,
    rapid_death_streak: u32,
    next_delay: Span,
) -> (r: Option<String>)
    ensures
        ({
            let bumped: int = if *old(deaths_since_summary) == u32::MAX {
                u32::MAX as int
            } else {
                *old(deaths_since_summary) + 1
            };
            if bumped < FLAPPING_SUMMARY_EVERY {
                r is None && *final(deaths_since_summary) == bumped
            } else {
                *final(deaths_since_summary) == 0 && r is Some && r->0@ == flapping_text(
                    total_deaths,
                    rapid_death_streak,
                    next_delay,
                )
            }
        }),
        r is Some ==> r->0@.subrange(0, flapping_head(total_deaths, rapid_death_streak).len() as int)
            == flapping_head(total_deaths, rapid_death_streak),
        r is Some && next_delay.nanos == 0 ==> r->0@ == flapping_head(total_deaths, rapid_death_streak)
            + decimal(next_delay.secs as nat) + "s"@,
{
    *deaths_since_summary = if *deaths_since_summary == u32::MAX {
        u32::MAX
    } else {
        *deaths_since_summary + 1
    };
    if *deaths_since_summary < FLAPPING_SUMMARY_EVERY {
        return None;
    }
    *deaths_since_summary = 0;
    let mut s = String::from_str("niri event stream health: ");
    push_decimal(&mut s, total_deaths as u64);
    push_str(&mut s, " deaths so far, current rapid-death streak ");
    push_decimal(&mut s, rapid_death_streak as u64);
    push_str(&mut s, " (periodic-fallback threshold ");
    push_decimal(&mut s, RAPID_DEATH_FALLBACK_THRESHOLD as u64);
    push_str(&mut s, "), next reconnect in ");
    let ghost head = s@;
    push_decimal(&mut s, next_delay.secs);
    if next_delay.nanos != 0 {
        push_str(&mut s, ".");
        push_fraction_digits(&mut s, next_delay.nanos as u64, 9);
    }
    push_str(&mut s, "s");
    assert(s@.subrange(0, head.len() as int) =~= head);
    Some(s)
}

/// Seconds between fallback saves: the configured minutes (at least one),
/// in seconds, saturating.
pub fn fallback_interval_secs(save_interval_minutes: u64) -> (s: u64)
    ensures
        ({
            let m: int = if save_interval_minutes >= 1 {
                save_interval_minutes as int
            } else {
                1
            };
            s == if m * 60 > u64::MAX {
                u64::MAX as int
            } else {
                m * 60
            }
        }),
{
    let m = if save_interval_minutes >= 1 { save_interval_minutes } else { 1 };
    if m > u64::MAX / 60 {
        u64::MAX
    } else {
        m * 60
    }
}

/// How the save loop gets its next event stream.
#[derive(Debug, Clone, Copy, PartialEq, Eq, Structural)]
pub enum ConnectMode {
    /// Subscribe right away; fall back to periodic saves if refused.
    Subscribe,
    /// The stream keeps dying quickly: save periodically between attempts.
    PeriodicFallback,
}

/// What the save loop does after its event stream ended.
#[derive(Debug)]
pub struct StreamEnded {
    /// A stream-health summary to log, when one is due.
    pub summary: Option<String>,
    /// How long to wait before reconnecting; `None` when periodic saves
    /// take over the waiting.
    pub reconnect_after: Option<Span>,
}

/// Reconnect bookkeeping of the save loop.
#[derive(Debug, Clone, Copy)]
pub struct ReconnectState {
    pub reconnect_delay: Span,
    pub rapid_deaths: u32,
    pub total_deaths: u32,
    pub deaths_since_summary: u32,
}

/// `x + 1`, saturating at `u32::MAX`.
pub open spec fn sat_inc(x: u32) -> u32 {
    if x == u32::MAX {
        x
    } else {
        (x + 1) as u32
    }
}

impl ReconnectState {
    /// Whether the state is consistent: the delay is a whole number of
    /// seconds between 1 s and 30 s.
    pub open spec fn wf(self) -> bool {
        &&& self.reconnect_delay.nanos == 0
        &&& 1 <= self.reconnect_delay.secs <= RECONNECT_DELAY_MAX_SECS
    }

    /// The state of a fresh save loop.
    pub fn new() -> (s: Self)
        ensures
            s.wf(),
            s.reconnect_delay == (Span { secs: RECONNECT_DELAY_INITIAL_SECS, nanos: 0 }),
            s.rapid_deaths == 0,
            s.total_deaths == 0,
            s.deaths_since_summary == 0,
    {
        ReconnectState {
            reconnect_delay: Span::from_secs(RECONNECT_DELAY_INITIAL_SECS),
            rapid_deaths: 0,
            total_deaths: 0,
            deaths_since_summary: 0,
        }
    }

    /// How to get the next stream: after `RAPID_DEATH_FALLBACK_THRESHOLD`
    /// quick deaths in a row, periodic saves are mixed in.
    pub fn connect_mode(&self) -> (m: ConnectMode)
        ensures
            m == if self.rapid_deaths >= RAPID_DEATH_FALLBACK_THRESHOLD {
                ConnectMode::PeriodicFallback
            } else {
                ConnectMode::Subscribe
            },
    {
        if self.rapid_deaths >= RAPID_DEATH_FALLBACK_THRESHOLD {
            ConnectMode::PeriodicFallback
        } else {
            ConnectMode::Subscribe
        }
    }

    /// Records the end of a stream that lived `healthy` (at least
    /// `RECONNECT_HEALTHY_STREAM_SECS`) or died quickly. A healthy stream
    /// resets the backoff; a quick death doubles it (capped) and extends the
    /// streak. The loop waits the new delay before reconnecting unless
    /// periodic saves take over.
    pub fn on_stream_ended(&mut self, healthy: bool) -> (r: StreamEnded)
        requires
            old(self).wf(),
        ensures
            final(self).wf(),
            final(self).total_deaths == sat_inc(old(self).total_deaths),
            healthy ==> final(self).rapid_deaths == 0 && final(self).reconnect_delay == (Span { secs: RECONNECT_DELAY_INITIAL_SECS, nanos: 0 }),
            !healthy ==> final(self).rapid_deaths == sat_inc(old(self).rapid_deaths)
                && final(self).reconnect_delay == spec_next_reconnect_delay(old(self).reconnect_delay),
            final(self).rapid_deaths < RAPID_DEATH_FALLBACK_THRESHOLD ==> r.reconnect_after == Some(
                final(self).reconnect_delay,
            ),
            final(self).rapid_deaths >= RAPID_DEATH_FALLBACK_THRESHOLD ==> r.reconnect_after is None,
            ({
                let bumped: int = if old(self).deaths_since_summary == u32::MAX {
                    u32::MAX as int
                } else {
                    old(self).deaths_since_summary + 1
                };
                if bumped < FLAPPING_SUMMARY_EVERY {
                    r.summary is None && final(self).deaths_since_summary == bumped
                } else {
                    final(self).deaths_since_summary == 0 && r.summary is Some && r.summary->0@
                        == flapping_text(
                        final(self).total_deaths,
                        final(self).rapid_deaths,
                        final(self).reconnect_delay,
                    )
                }
            }),
    {
        self.total_deaths = if self.total_deaths == u32::MAX { u32::MAX } else { self.total_deaths + 1 };
        if healthy {
            self.reconnect_delay = Span::from_secs(RECONNECT_DELAY_INITIAL_SECS);
            self.rapid_deaths = 0;
        } else {
            self.rapid_deaths = if self.rapid_deaths == u32::MAX {
                u32::MAX
            } else {
                self.rapid_deaths + 1
            };
            let old_delay = self.reconnect_delay;
            self.reconnect_delay = next_reconnect_delay(self.reconnect_delay);
            proof {
                let t = old_delay.total() * 2;
                if t < RECONNECT_DELAY_MAX_SECS * 1_000_000_000 {
                    assert(t % 1_000_000_000 == 0) by (nonlinear_arith)
                        requires
                            t == (old_delay.secs * 1_000_000_000) * 2,
                    ;
                }
            }
        }
        let mut since = self.deaths_since_summary;
        let summary = flapping_summary(&mut since, self.total_deaths, self.rapid_deaths, self.reconnect_delay);
        self.deaths_since_summary = since;
        let reconnect_after = if self.rapid_deaths < RAPID_DEATH_FALLBACK_THRESHOLD {
            Some(self.reconnect_delay)
        } else {
            None
        };
        StreamEnded { summary, reconnect_after }
    }
}

/// Per-connection bookkeeping of unparsable event lines: the first few are
/// logged, later ones only counted.
#[derive(Debug, Clone, Copy)]
pub struct UnparsedLog {
    pub logged: usize,
    pub suppressed: usize,
}

impl UnparsedLog {
    /// Nothing seen yet.
    pub fn new() -> (s: Self)
        ensures
            s.logged == 0 && s.suppressed == 0,
    {
        UnparsedLog { logged: 0, suppressed: 0 }
    }

    /// Records an unparsable line: returns the truncated line to log while
    /// fewer than `MAX_UNPARSED_LOG_PER_CONNECTION` were logged, else counts
    /// it as suppressed.
    pub fn record(&mut self, line: &str) -> (r: Option<String>)
        ensures
            old(self).logged < MAX_UNPARSED_LOG_PER_CONNECTION ==> final(self).logged == old(self).logged + 1
                && final(self).suppressed == old(self).suppressed && r is Some && r->0@ == (if line@.len()
                > UNPARSED_LOG_CHAR_LIMIT {
                line@.take(UNPARSED_LOG_CHAR_LIMIT as int)
            } else {
                line@
            }),
            old(self).logged >= MAX_UNPARSED_LOG_PER_CONNECTION ==> r is None && final(self).logged
                == old(self).logged && final(self).suppressed == (if old(self).suppressed == usize::MAX {
                usize::MAX as int
            } else {
                old(self).suppressed + 1
            }),
    {
        if self.logged < MAX_UNPARSED_LOG_PER_CONNECTION {
            self.logged = self.logged + 1;
            Some(truncate_for_log(line))
        } else {
            self.suppressed = if self.suppressed == usize::MAX {
                usize::MAX
            } else {
                self.suppressed + 1
            };
            None
        }
    }
}

/// Where the debounced saver stands: no save pending, or a save pending
/// until layout activity settles.
#[derive(Debug, Clone, Copy, PartialEq, Eq, Structural)]
pub enum DebounceState {
    Idle,
    Settling,
}

/// What the save loop observed.
#[derive(Debug, Clone, Copy, PartialEq, Eq, Structural)]
pub enum SaveLoopEvent {
    /// A line of the event stream called for a save.
    SaveWorthy,
    /// The settle timer ran out.
    Settled,
    /// The event stream closed.
    StreamClosed,
    /// Shutdown was requested.
    ShutdownRequested,
}

/// What the save loop does next.
#[derive(Debug, Clone, Copy, PartialEq, Eq, Structural)]
pub enum SaveLoopAction {
    /// Keep waiting.
    Wait,
    /// (Re)start the settle timer at the debounce delay.
    RestartSettleTimer,
    /// Save the session.
    SaveNow,
    /// Save the pending change, then leave the loop.
    SaveThenStop,
    /// Leave the loop without saving.
    Stop,
}

/// The debounce rule: every save-worthy line (re)starts the settle timer;
/// once activity settles the session is saved; a stream that closes while a
/// save is pending still gets that save; a shutdown stops at once, without
/// saving.
pub open spec fn spec_debounce_step(state: DebounceState, ev: SaveLoopEvent) -> (DebounceState, SaveLoopAction) {
    match ev {
        SaveLoopEvent::SaveWorthy => (DebounceState::Settling, SaveLoopAction::RestartSettleTimer),
        SaveLoopEvent::Settled => match state {
            DebounceState::Settling => (DebounceState::Idle, SaveLoopAction::SaveNow),
            DebounceState::Idle => (DebounceState::Idle, SaveLoopAction::Wait),
        },
        SaveLoopEvent::StreamClosed => match state {
            DebounceState::Settling => (DebounceState::Idle, SaveLoopAction::SaveThenStop),
            DebounceState::Idle => (DebounceState::Idle, SaveLoopAction::Stop),
        },
        SaveLoopEvent::ShutdownRequested => (state, SaveLoopAction::Stop),
    }
}

/// One step of the debounced saver (see `spec_debounce_step`).
pub fn debounce_step(state: DebounceState, ev: SaveLoopEvent) -> (r: (DebounceState, SaveLoopAction))
    ensures
        r == spec_debounce_step(state, ev),
        ev == SaveLoopEvent::SaveWorthy ==> r == (DebounceState::Settling, SaveLoopAction::RestartSettleTimer),
        ev == SaveLoopEvent::Settled && state == DebounceState::Settling ==> r == (
            DebounceState::Idle,
            SaveLoopAction::SaveNow,
        ),
        ev == SaveLoopEvent::StreamClosed && state == DebounceState::Settling ==> r.1
            == SaveLoopAction::SaveThenStop,
        ev == SaveLoopEvent::StreamClosed && state == DebounceState::Idle ==> r.1 == SaveLoopAction::Stop,
        ev == SaveLoopEvent::ShutdownRequested ==> r.1 == SaveLoopAction::Stop,
        r.1 == SaveLoopAction::SaveNow || r.1 == SaveLoopAction::SaveThenStop ==> state
            == DebounceState::Settling,
{
    match ev {
        SaveLoopEvent::SaveWorthy => (DebounceState::Settling, SaveLoopAction::RestartSettleTimer),
        SaveLoopEvent::Settled => match state {
            DebounceState::Settling => (DebounceState::Idle, SaveLoopAction::SaveNow),
            DebounceState::Idle => (DebounceState::Idle, SaveLoopAction::Wait),
        },
        SaveLoopEvent::StreamClosed => match state {
            DebounceState::Settling => (DebounceState::Idle, SaveLoopAction::SaveThenStop),
            DebounceState::Idle => (DebounceState::Idle, SaveLoopAction::Stop),
        },
        SaveLoopEvent::ShutdownRequested => (state, SaveLoopAction::Stop),
    }
}

/// The saves a run of the debounced saver makes, from `state`, on the
/// events `evs` (counting the events up to the first that stops it).
pub open spec fn saves_made(state: DebounceState, evs: Seq<SaveLoopEvent>) -> nat
    decreases evs.len(),
{
    if evs.len() == 0 {
        0
    } else {
        let (next, act) = spec_debounce_step(state, evs[0]);
        match act {
            SaveLoopAction::SaveNow => 1 + saves_made(next, evs.drop_first()),
            SaveLoopAction::SaveThenStop => 1,
            SaveLoopAction::Stop => 0,
            _ => saves_made(next, evs.drop_first()),
        }
    }
}

/// A burst of save-worthy lines followed by the settle timer causes
/// exactly one save, however long the burst.
pub proof fn law_burst_saves_once(n: nat)
    requires
        n >= 1,
    ensures
        saves_made(
            DebounceState::Idle,
            Seq::new(n, |i: int| SaveLoopEvent::SaveWorthy).push(SaveLoopEvent::Settled),
        ) == 1,
{
    lemma_burst_from(DebounceState::Idle, n);
}

proof fn lemma_burst_from(state: DebounceState, n: nat)
    requires
        n >= 1 || state == DebounceState::Settling,
    ensures
        saves_made(state, Seq::new(n, |i: int| SaveLoopEvent::SaveWorthy).push(SaveLoopEvent::Settled))
            == 1,
    decreases n,
{
    let evs = Seq::new(n, |i: int| SaveLoopEvent::SaveWorthy).push(SaveLoopEvent::Settled);
    if n == 0 {
        assert(evs[0] == SaveLoopEvent::Settled);
        assert(evs.drop_first().len() == 0);
        assert(saves_made(DebounceState::Idle, evs.drop_first()) == 0);
    } else {
        assert(evs[0] == SaveLoopEvent::SaveWorthy);
        assert(evs.drop_first() =~= Seq::new((n - 1) as nat, |i: int| SaveLoopEvent::SaveWorthy).push(
            SaveLoopEvent::Settled,
        ));
        lemma_burst_from(DebounceState::Settling, (n - 1) as nat);
        assert(saves_made(state, evs) == saves_made(DebounceState::Settling, evs.drop_first()));
    }
}

/// A shutdown never saves: once it is observed, the saver stops without
/// a save, whatever is pending.
pub proof fn law_shutdown_never_saves(state: DebounceState, rest: Seq<SaveLoopEvent>)
    ensures
        saves_made(state, seq![SaveLoopEvent::ShutdownRequested] + rest) == 0,
{
    assert((seq![SaveLoopEvent::ShutdownRequested] + rest)[0] == SaveLoopEvent::ShutdownRequested);
}

/// A stream that closes while a save is pending still gets exactly that
/// save, then the saver stops.
pub proof fn law_close_flushes_pending_save(rest: Seq<SaveLoopEvent>)
    ensures
        saves_made(DebounceState::Settling, seq![SaveLoopEvent::StreamClosed] + rest) == 1,
        saves_made(DebounceState::Idle, seq![SaveLoopEvent::StreamClosed] + rest) == 0,
{
    assert((seq![SaveLoopEvent::StreamClosed] + rest)[0] == SaveLoopEvent::StreamClosed);
}

/// Every window or workspace event that can change what a save captures
/// calls for a save; events about keyboard layouts, the overview, config
/// reloads, screenshots, screencasts, urgency and focus timestamps do not,
/// and an event this build cannot name is not one by itself (an unparsable
/// line, though, always calls for a save: `line_calls_for_save`).
pub proof fn law_layout_changes_call_for_a_save(e: EventKind)
    ensures
        e == EventKind::WorkspacesChanged || e == EventKind::WorkspaceActivated || e
            == EventKind::WorkspaceActiveWindowChanged || e == EventKind::WindowsChanged || e
            == EventKind::WindowOpenedOrChanged || e == EventKind::WindowClosed || e
            == EventKind::WindowFocusChanged || e == EventKind::WindowLayoutsChanged
            ==> spec_layout_relevant(e),
        e == EventKind::WorkspaceUrgencyChanged || e == EventKind::WindowFocusTimestampChanged || e
            == EventKind::WindowUrgencyChanged || e == EventKind::KeyboardLayoutsChanged || e
            == EventKind::KeyboardLayoutSwitched || e == EventKind::OverviewOpenedOrClosed || e
            == EventKind::ConfigLoaded || e == EventKind::ScreenshotCaptured || e == EventKind::CastsChanged
            || e == EventKind::CastStartedOrChanged || e == EventKind::CastStopped || e == EventKind::Other
            ==> !spec_layout_relevant(e),
{
}

} // verus!
