//! Service-level decisions: what a start of the service does, the health
//! check's staleness rule, and the protocol probe's tally.
use vstd::prelude::*;
use vstd::string::StringExecFns;
use crate::config::{spec_run_mode, Config, RunMode};
use crate::save::{truncate_for_log, ReadEvent, UNPARSED_LOG_CHAR_LIMIT};
use crate::span::Span;
use crate::text::{decimal, push_decimal, push_str};

verus! {

/// Save intervals a session file may age before the health check calls it stale.
pub const SESSION_STALENESS_INTERVALS: u32 = 2;
/// Event-stream lines the protocol probe inspects.
pub const PROBE_LINES: usize = 20;
/// Seconds the protocol probe waits for further lines.
pub const PROBE_READ_TIMEOUT_SECS: u64 = 2;

/// The staleness threshold in minutes for a save interval: the interval
/// (at least 1) times `SESSION_STALENESS_INTERVALS`, saturating.
pub open spec fn staleness_threshold_minutes(save_interval_minutes: u64) -> int {
    let interval: int = if save_interval_minutes >= 1 {
        save_interval_minutes as int
    } else {
        1
    };
    if interval * 2 > u64::MAX {
        u64::MAX as int
    } else {
        interval * 2
    }
}

/// The staleness warning text.
pub open spec fn staleness_text(age_secs: u64, threshold: int, interval: int) -> Seq<char> {
    "session file is stale: last written "@ + decimal((age_secs / 60) as nat) + "m"@ + decimal(
        (age_secs % 60) as nat,
    ) + "s ago, more than "@ + decimal(threshold as nat) + " min ("@ + decimal(
        SESSION_STALENESS_INTERVALS as nat,
    ) + " \u{d7} the "@ + decimal(interval as nat)
        + "-min save interval). Either the desktop has been idle (saves are event-driven) or the save loop is unhealthy \u{2014} check recent logs for event-stream deaths or unparsable-event warnings"@
}

/// Staleness decision for the health check: a warning when the session
/// file is older than `SESSION_STALENESS_INTERVALS` save intervals (a zero
/// interval counts as one minute); nothing when its age is unknown.
pub fn session_staleness_warning(age: Option<Span>, save_interval_minutes: u64) -> (r: Option<String>)
    requires
        age matches Some(a) ==> a.wf(),
    ensures
        match age {
            None => r is None,
            Some(a) => {
                let threshold = staleness_threshold_minutes(save_interval_minutes);
                let limit_secs: int = if threshold * 60 > u64::MAX {
                    u64::MAX as int
                } else {
                    threshold * 60
                };
                if a.total() <= limit_secs * 1_000_000_000 {
                    r is None
                } else {
                    r is Some && r->0@ == staleness_text(
                        a.secs,
                        threshold,
                        if save_interval_minutes >= 1 {
                            save_interval_minutes as int
                        } else {
                            1
                        },
                    )
                }
            },
        },
{
    let a = match age {
        Some(a) => a,
        None => return None,
    };
    let interval = if save_interval_minutes >= 1 { save_interval_minutes } else { 1 };
    let threshold = if interval > u64::MAX / 2 { u64::MAX } else { interval * 2 };
    let limit = if threshold > u64::MAX / 60 { u64::MAX } else { threshold * 60 };
    if a.secs < limit || (a.secs == limit && a.nanos == 0) {
        return None;
    }
    let mut s = String::from_str("session file is stale: last written ");
    push_decimal(&mut s, a.secs / 60);
    push_str(&mut s, "m");
    push_decimal(&mut s, a.secs % 60);
    push_str(&mut s, "s ago, more than ");
    push_decimal(&mut s, threshold);
    push_str(&mut s, " min (");
    push_decimal(&mut s, SESSION_STALENESS_INTERVALS as u64);
    push_str(&mut s, " \u{d7} the ");
    push_decimal(&mut s, interval);
    push_str(
        &mut s,
        "-min save interval). Either the desktop has been idle (saves are event-driven) or the save loop is unhealthy \u{2014} check recent logs for event-stream deaths or unparsable-event warnings",
    );
    Some(s)
}

/// What the protocol probe found on the live event stream.
#[derive(Debug, Default)]
pub struct ProtocolProbeReport {
    pub parsed_lines: usize,
    pub unparsable_lines: usize,
    pub unparsable_samples: Vec<String>,
}

/// `x + 1`, saturating at `usize::MAX`.
pub open spec fn sat_inc_usize(x: usize) -> usize {
    if x == usize::MAX {
        x
    } else {
        (x + 1) as usize
    }
}

impl ProtocolProbeReport {
    /// An empty report.
    pub fn new() -> (r: Self)
        ensures
            r.parsed_lines == 0,
            r.unparsable_lines == 0,
            r.unparsable_samples@.len() == 0,
    {
        ProtocolProbeReport { parsed_lines: 0, unparsable_lines: 0, unparsable_samples: Vec::new() }
    }

    /// Counts one event-stream line; an unparsable one is kept as a
    /// truncated sample.
    pub fn record(&mut self, line: &ReadEvent)
        ensures
            match line {
                ReadEvent::Event(_) => final(self).parsed_lines == sat_inc_usize(old(self).parsed_lines)
                    && final(self).unparsable_lines == old(self).unparsable_lines
                    && final(self).unparsable_samples@ == old(self).unparsable_samples@,
                ReadEvent::Unparsed(l) => final(self).parsed_lines == old(self).parsed_lines
                    && final(self).unparsable_lines == sat_inc_usize(old(self).unparsable_lines)
                    && final(self).unparsable_samples@.len() == old(self).unparsable_samples@.len() + 1
                    && final(self).unparsable_samples@.drop_last() == old(self).unparsable_samples@
                    && final(self).unparsable_samples@.last()@ == (if l@.len() > UNPARSED_LOG_CHAR_LIMIT {
                    l@.take(UNPARSED_LOG_CHAR_LIMIT as int)
                } else {
                    l@
                }),
            },
    {
        match line {
            ReadEvent::Event(_) => {
                self.parsed_lines = if self.parsed_lines == usize::MAX {
                    usize::MAX
                } else {
                    self.parsed_lines + 1
                };
            },
            ReadEvent::Unparsed(l) => {
                self.unparsable_lines = if self.unparsable_lines == usize::MAX {
                    usize::MAX
                } else {
                    self.unparsable_lines + 1
                };
                let t = truncate_for_log(l.as_str());
                self.unparsable_samples.push(t);
                assert(self.unparsable_samples@.drop_last() == old(self).unparsable_samples@);
            },
        }
    }

    /// Total lines inspected, saturating.
    pub fn total_lines(&self) -> (n: usize)
        ensures
            n == if self.parsed_lines + self.unparsable_lines > usize::MAX {
                usize::MAX as int
            } else {
                self.parsed_lines + self.unparsable_lines
            },
    {
        if self.parsed_lines > usize::MAX - self.unparsable_lines {
            usize::MAX
        } else {
            self.parsed_lines + self.unparsable_lines
        }
    }
}

/// What one start of the service does.
#[derive(Debug, Clone, Copy, PartialEq, Eq, Structural)]
pub enum ServicePlan {
    /// Copy the session files to the export directory, then exit.
    Export,
    /// Import session files from the import directory, then exit.
    Import,
    /// Report health, then exit.
    HealthCheck,
    /// Probe the IPC protocol, then exit.
    ProtocolProbe,
    /// Save the current session once, then exit.
    SaveOnce,
    /// Optionally restore at boot, then optionally run the save loop until
    /// shutdown.
    Run { boot_restore: bool, save_loop: bool },
}

/// The plan for a configuration: export, then import, take precedence;
/// then the run mode; a dry run or a restore-only run ends after the
/// (optional) boot restore; save-only skips the boot restore.
pub open spec fn spec_service_plan(c: Config) -> ServicePlan {
    if c.export_to is Some {
        ServicePlan::Export
    } else if c.import_from is Some {
        ServicePlan::Import
    } else {
        match spec_run_mode(c) {
            RunMode::HealthCheck => ServicePlan::HealthCheck,
            RunMode::ProtocolProbe => ServicePlan::ProtocolProbe,
            RunMode::SaveOnce => ServicePlan::SaveOnce,
            RunMode::SaveOnly => ServicePlan::Run { boot_restore: false, save_loop: !c.dry_run },
            RunMode::RestoreOnly => ServicePlan::Run { boot_restore: true, save_loop: false },
            RunMode::Normal => ServicePlan::Run { boot_restore: true, save_loop: !c.dry_run },
        }
    }
}

/// Decides what this start of the service does (see `spec_service_plan`).
pub fn service_plan(config: &Config) -> (p: ServicePlan)
    ensures
        p == spec_service_plan(*config),
{
    if config.export_to.is_some() {
        return ServicePlan::Export;
    }
    if config.import_from.is_some() {
        return ServicePlan::Import;
    }
    match config.run_mode() {
        RunMode::HealthCheck => ServicePlan::HealthCheck,
        RunMode::ProtocolProbe => ServicePlan::ProtocolProbe,
        RunMode::SaveOnce => ServicePlan::SaveOnce,
        RunMode::SaveOnly => ServicePlan::Run { boot_restore: false, save_loop: !config.dry_run },
        RunMode::RestoreOnly => ServicePlan::Run { boot_restore: true, save_loop: false },
        RunMode::Normal => ServicePlan::Run { boot_restore: true, save_loop: !config.dry_run },
    }
}

/// What each command-line selection does, in terms of the flags:
/// `--export-to` wins over everything, then `--import-from`; `--save-once`
/// (without `--restore` or `--save-only`) saves once and exits, never
/// starting the save loop; `--health-check` and `--protocol-probe` report
/// and exit; a dry run or `--restore` never starts the save loop;
/// `--save-only` never restores at boot; with no mode flag the service
/// restores at boot and then saves until shutdown.
pub proof fn law_service_plan_follows_the_flags(c: Config)
    ensures
        c.export_to is Some ==> spec_service_plan(c) == ServicePlan::Export,
        c.export_to is None && c.import_from is Some ==> spec_service_plan(c) == ServicePlan::Import,
        c.export_to is None && c.import_from is None && !c.restore && !c.save_only && c.save_once
            ==> spec_service_plan(c) == ServicePlan::SaveOnce,
        c.export_to is None && c.import_from is None && !c.restore && !c.save_only && !c.save_once
            && c.health_check ==> spec_service_plan(c) == ServicePlan::HealthCheck,
        c.export_to is None && c.import_from is None && !c.restore && !c.save_only && !c.save_once
            && !c.health_check && c.protocol_probe ==> spec_service_plan(c) == ServicePlan::ProtocolProbe,
        c.export_to is None && c.import_from is None && !c.restore && !c.save_only && !c.save_once
            && !c.health_check && !c.protocol_probe ==> spec_service_plan(c) == (ServicePlan::Run {
            boot_restore: true,
            save_loop: !c.dry_run,
        }),
        c.export_to is None && c.import_from is None && c.restore ==> spec_service_plan(c) == (
        ServicePlan::Run { boot_restore: true, save_loop: false }),
        c.export_to is None && c.import_from is None && !c.restore && c.save_only ==> spec_service_plan(c)
            == (ServicePlan::Run { boot_restore: false, save_loop: !c.dry_run }),
        spec_service_plan(c) matches ServicePlan::Run { save_loop, .. } && save_loop ==> !c.dry_run
            && !c.restore && (c.save_only || !c.save_once),
{
}

} // verus!
