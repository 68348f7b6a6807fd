//! The two configuration surfaces: command-line settings (`Config`) and the
//! app configuration file (`AppConfig`), with their defaults and validation.
use vstd::prelude::*;
use vstd::string::StringExecFns;
use crate::text::views;

verus! {

/// Default sanity cap on how many windows one restore may spawn.
pub const MAX_RESTORE_WINDOWS_DEFAULT: usize = 100;

/// Terminal state recovery is on unless configured off.
pub fn default_enabled() -> (b: bool)
    ensures
        b,
{
    true
}

/// Builds a vector of strings from literals.
fn strings(lits: &[&str]) -> (v: Vec<String>)
    ensures
        views(v@) == lits@.map_values(|s: &str| s@),
{
    let mut v: Vec<String> = Vec::new();
    let mut i: usize = 0;
    while i < lits.len()
        invariant
            i <= lits.len(),
            views(v@) == lits@.take(i as int).map_values(|s: &str| s@),
        decreases lits.len() - i,
    {
        let ghost before = v@;
        v.push(String::from_str(lits[i]));
        assert(views(v@) =~= views(before).push(lits@[i as int]@));
        assert(lits@.take(i + 1).map_values(|s: &str| s@) =~= lits@.take(i as int).map_values(
            |s: &str| s@,
        ).push(lits@[i as int]@));
        i = i + 1;
    }
    assert(lits@.take(lits.len() as int) == lits@);
    v
}

/// App ids treated as terminals by default (both spellings of alacritty:
/// niri reports it capitalized).
pub open spec fn spec_default_terminal_app_ids() -> Seq<Seq<char>> {
    seq![
        "kitty"@,
        "foot"@,
        "org.wezfurlong.wezterm"@,
        "com.mitchellh.ghostty"@,
        "alacritty"@,
        "Alacritty"@,
    ]
}

/// Process names skipped as shells by default.
pub open spec fn spec_default_shell_names() -> Seq<Seq<char>> {
    seq![
        "fish"@,
        "bash"@,
        "zsh"@,
        "sh"@,
        "dash"@,
        "-fish"@,
        "-bash"@,
        "-zsh"@,
        "-sh"@,
        "sudo"@,
        "doas"@,
    ]
}

/// Helper process names skipped by default.
pub open spec fn spec_default_helper_names() -> Seq<Seq<char>> {
    seq!["kitten"@]
}

/// Default terminal app ids.
pub fn default_terminal_app_ids() -> (v: Vec<String>)
    ensures
        views(v@) == spec_default_terminal_app_ids(),
{
    let lits: [&str; 6] = [
        "kitty",
        "foot",
        "org.wezfurlong.wezterm",
        "com.mitchellh.ghostty",
        "alacritty",
        "Alacritty",
    ];
    let v = strings(&lits);
    assert(lits@.map_values(|s: &str| s@) =~= spec_default_terminal_app_ids());
    v
}

/// Default shell names.
pub fn default_shell_names() -> (v: Vec<String>)
    ensures
        views(v@) == spec_default_shell_names(),
{
    let lits: [&str; 11] = [
        "fish",
        "bash",
        "zsh",
        "sh",
        "dash",
        "-fish",
        "-bash",
        "-zsh",
        "-sh",
        "sudo",
        "doas",
    ];
    let v = strings(&lits);
    assert(lits@.map_values(|s: &str| s@) =~= spec_default_shell_names());
    v
}

/// Default helper names.
pub fn default_helper_names() -> (v: Vec<String>)
    ensures
        views(v@) == spec_default_helper_names(),
{
    let lits: [&str; 1] = ["kitten"];
    let v = strings(&lits);
    assert(lits@.map_values(|s: &str| s@) =~= spec_default_helper_names());
    v
}

/// Default depth limit for the process-tree walk.
pub fn default_max_walk_depth() -> (d: u32)
    ensures
        d == 20,
{
    20
}

/// Terminal state recovery settings.
#[derive(Debug, Clone)]
pub struct TerminalStateConfig {
    pub enabled: bool,
    pub terminal_app_ids: Vec<String>,
    pub shell_names: Vec<String>,
    pub helper_names: Vec<String>,
    pub max_walk_depth: u32,
}

impl Default for TerminalStateConfig {
    fn default() -> (c: Self)
        ensures
            c.enabled,
            views(c.terminal_app_ids@) == spec_default_terminal_app_ids(),
            views(c.shell_names@) == spec_default_shell_names(),
            views(c.helper_names@) == spec_default_helper_names(),
            c.max_walk_depth == 20,
    {
        TerminalStateConfig {
            enabled: default_enabled(),
            terminal_app_ids: default_terminal_app_ids(),
            shell_names: default_shell_names(),
            helper_names: default_helper_names(),
            max_walk_depth: default_max_walk_depth(),
        }
    }
}

/// Apps that should only ever have one instance.
#[derive(Debug, Clone)]
pub struct SingleInstanceAppsConfig {
    pub apps: Vec<String>,
}

impl Default for SingleInstanceAppsConfig {
    fn default() -> (c: Self)
        ensures
            c.apps@.len() == 0,
    {
        SingleInstanceAppsConfig { apps: Vec::new() }
    }
}

/// Apps that are neither saved nor restored.
#[derive(Debug, Clone)]
pub struct SkipAppsConfig {
    pub apps: Vec<String>,
}

impl Default for SkipAppsConfig {
    fn default() -> (c: Self)
        ensures
            c.apps@.len() == 0,
    {
        SkipAppsConfig { apps: Vec::new() }
    }
}

/// One entry of the app-id to launch-command table.
#[derive(Debug, Clone)]
pub struct AppMapping {
    pub app_id: String,
    pub command: Vec<String>,
}

/// Whether a mapping table names each app id at most once.
pub open spec fn mappings_wf(ms: Seq<AppMapping>) -> bool {
    forall|i: int, j: int| 0 <= i < j < ms.len() ==> ms[i].app_id@ != ms[j].app_id@
}

/// The app configuration file. `app_mappings` holds the file's table of
/// app id to launch command; well-formed, it names each app id once (see
/// `AppConfig::wf`).
#[derive(Debug, Clone)]
pub struct AppConfig {
    pub app_mappings: Vec<AppMapping>,
    pub single_instance: SingleInstanceAppsConfig,
    pub skip_apps: SkipAppsConfig,
    pub terminal_state: TerminalStateConfig,
}

impl AppConfig {
    /// Well-formedness: the mapping table is a table, each app id at most
    /// once, so looking an app up finds its one entry.
    pub open spec fn wf(self) -> bool {
        mappings_wf(self.app_mappings@)
    }
}

impl Default for AppConfig {
    fn default() -> (c: Self)
        ensures
            c.wf(),
            c.app_mappings@.len() == 0,
            c.single_instance.apps@.len() == 0,
            c.skip_apps.apps@.len() == 0,
            c.terminal_state.enabled,
            views(c.terminal_state.terminal_app_ids@) == spec_default_terminal_app_ids(),
            views(c.terminal_state.shell_names@) == spec_default_shell_names(),
            views(c.terminal_state.helper_names@) == spec_default_helper_names(),
            c.terminal_state.max_walk_depth == 20,
    {
        AppConfig {
            app_mappings: Vec::new(),
            single_instance: SingleInstanceAppsConfig::default(),
            skip_apps: SkipAppsConfig::default(),
            terminal_state: TerminalStateConfig::default(),
        }
    }
}

/// Why a configuration was rejected.
#[derive(Debug, Clone, Copy, PartialEq, Eq, Structural)]
pub enum ConfigError {
    /// `terminal_state.max_walk_depth` is 0.
    ZeroMaxWalkDepth,
    /// `--save-interval` is 0.
    ZeroSaveInterval,
    /// `--max-backup-count` is 0.
    ZeroMaxBackupCount,
    /// `--spawn-timeout` is 0.
    ZeroSpawnTimeout,
    /// `--max-restore-windows` is 0.
    ZeroMaxRestoreWindows,
}

/// The user-facing text of a configuration error.
pub open spec fn config_error_text(e: ConfigError) -> Seq<char> {
    match e {
        ConfigError::ZeroMaxWalkDepth => "terminal_state.max_walk_depth must be at least 1 (0 would never walk to any child process)"@,
        ConfigError::ZeroSaveInterval => "--save-interval must be at least 1 minute"@,
        ConfigError::ZeroMaxBackupCount => "--max-backup-count must be at least 1"@,
        ConfigError::ZeroSpawnTimeout => "--spawn-timeout must be at least 1 second"@,
        ConfigError::ZeroMaxRestoreWindows => "--max-restore-windows must be at least 1"@,
    }
}

impl ConfigError {
    /// The user-facing text of this error.
    pub fn message(&self) -> (s: String)
        ensures
            s@ == config_error_text(*self),
    {
        match self {
            ConfigError::ZeroMaxWalkDepth => String::from_str(
                "terminal_state.max_walk_depth must be at least 1 (0 would never walk to any child process)",
            ),
            ConfigError::ZeroSaveInterval => String::from_str(
                "--save-interval must be at least 1 minute",
            ),
            ConfigError::ZeroMaxBackupCount => String::from_str(
                "--max-backup-count must be at least 1",
            ),
            ConfigError::ZeroSpawnTimeout => String::from_str(
                "--spawn-timeout must be at least 1 second",
            ),
            ConfigError::ZeroMaxRestoreWindows => String::from_str(
                "--max-restore-windows must be at least 1",
            ),
        }
    }
}

/// Rejects app-config values that would make restore misbehave silently.
pub fn validate_app_config(app_config: &AppConfig) -> (r: Result<(), ConfigError>)
    ensures
        app_config.terminal_state.max_walk_depth == 0 ==> r == Err::<(), ConfigError>(
            ConfigError::ZeroMaxWalkDepth,
        ),
        app_config.terminal_state.max_walk_depth != 0 ==> r is Ok,
{
    if app_config.terminal_state.max_walk_depth == 0 {
        return Err(ConfigError::ZeroMaxWalkDepth);
    }
    Ok(())
}

/// Command-line settings.
#[derive(Debug, Clone)]
pub struct Config {
    /// Minutes between fallback saves when the event stream is down.
    pub save_interval: u64,
    /// Backups kept before the oldest is pruned.
    pub max_backup_count: usize,
    /// Seconds to wait for a spawned window to appear.
    pub spawn_timeout: u64,
    /// Restore attempts before giving up.
    pub retry_attempts: u32,
    /// Base delay in seconds between restore attempts.
    pub retry_delay: u64,
    /// Cap on windows one restore may spawn.
    pub max_restore_windows: usize,
    /// Preview only: spawn nothing, write nothing.
    pub dry_run: bool,
    /// Explicit app-config path.
    pub app_config_path: Option<String>,
    /// Restore, then exit.
    pub restore: bool,
    /// Skip the boot restore; only save.
    pub save_only: bool,
    /// Save once, then exit.
    pub save_once: bool,
    /// Report health, then exit.
    pub health_check: bool,
    /// Probe the IPC protocol, then exit.
    pub protocol_probe: bool,
    /// Export session files into this directory, then exit.
    pub export_to: Option<String>,
    /// Import session files from this directory, then exit.
    pub import_from: Option<String>,
}

/// What the service does when started.
#[derive(Debug, Clone, Copy, PartialEq, Eq, Structural)]
pub enum RunMode {
    /// Boot restore (marker-gated), then reactive saving until shutdown.
    Normal,
    /// Only restore, then exit.
    RestoreOnly,
    /// Skip restore, only run saving until shutdown.
    SaveOnly,
    /// Save once, then exit.
    SaveOnce,
    /// Check health, then exit.
    HealthCheck,
    /// Inspect the live IPC protocol for drift, then exit.
    ProtocolProbe,
}

/// The run mode a configuration selects: the first set flag among restore,
/// save-only, save-once, health-check, protocol-probe.
pub open spec fn spec_run_mode(c: Config) -> RunMode {
    if c.restore {
        RunMode::RestoreOnly
    } else if c.save_only {
        RunMode::SaveOnly
    } else if c.save_once {
        RunMode::SaveOnce
    } else if c.health_check {
        RunMode::HealthCheck
    } else if c.protocol_probe {
        RunMode::ProtocolProbe
    } else {
        RunMode::Normal
    }
}

/// The first failing check of `Config::validate`, if any.
pub open spec fn spec_config_problem(c: Config) -> Option<ConfigError> {
    if c.save_interval == 0 {
        Some(ConfigError::ZeroSaveInterval)
    } else if c.max_backup_count == 0 {
        Some(ConfigError::ZeroMaxBackupCount)
    } else if c.spawn_timeout == 0 {
        Some(ConfigError::ZeroSpawnTimeout)
    } else if c.max_restore_windows == 0 {
        Some(ConfigError::ZeroMaxRestoreWindows)
    } else {
        None
    }
}

impl Config {
    /// The run mode these flags select.
    pub fn run_mode(&self) -> (m: RunMode)
        ensures
            m == spec_run_mode(*self),
    {
        if self.restore {
            RunMode::RestoreOnly
        } else if self.save_only {
            RunMode::SaveOnly
        } else if self.save_once {
            RunMode::SaveOnce
        } else if self.health_check {
            RunMode::HealthCheck
        } else if self.protocol_probe {
            RunMode::ProtocolProbe
        } else {
            RunMode::Normal
        }
    }

    /// Rejects nonsensical values: a zero save interval, backup count,
    /// spawn timeout or restore cap.
    pub fn validate(&self) -> (r: Result<(), ConfigError>)
        ensures
            match spec_config_problem(*self) {
                Some(e) => r == Err::<(), ConfigError>(e),
                None => r is Ok,
            },
    {
        if self.save_interval == 0 {
            return Err(ConfigError::ZeroSaveInterval);
        }
        if self.max_backup_count == 0 {
            return Err(ConfigError::ZeroMaxBackupCount);
        }
        if self.spawn_timeout == 0 {
            return Err(ConfigError::ZeroSpawnTimeout);
        }
        if self.max_restore_windows == 0 {
            return Err(ConfigError::ZeroMaxRestoreWindows);
        }
        Ok(())
    }
}

} // verus!
