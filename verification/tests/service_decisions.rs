use niri_session_manager::config::{
    default_enabled, default_helper_names, default_max_walk_depth, default_shell_names,
    default_terminal_app_ids, validate_app_config, AppConfig, Config, ConfigError, RunMode,
    TerminalStateConfig,
};
use niri_session_manager::niri::EventKind;
use niri_session_manager::save::{
    debounce_step, fallback_interval_secs, flapping_summary, DebounceState, SaveLoopAction,
    SaveLoopEvent, layout_relevant, line_calls_for_save,
    next_reconnect_delay, truncate_for_log, ConnectMode, ReadEvent, ReconnectState, UnparsedLog,
    FLAPPING_SUMMARY_EVERY, RECONNECT_DELAY_INITIAL_SECS, RECONNECT_DELAY_MAX_SECS,
    UNPARSED_LOG_CHAR_LIMIT,
};
use niri_session_manager::service::{
    service_plan, session_staleness_warning, ProtocolProbeReport, ServicePlan,
    SESSION_STALENESS_INTERVALS,
};
use niri_session_manager::span::Span;

fn no_ipc_config(dry_run: bool) -> Config {
    Config {
        save_interval: 15,
        max_backup_count: 5,
        spawn_timeout: 1,
        retry_attempts: 1,
        retry_delay: 1,
        max_restore_windows: 100,
        dry_run,
        app_config_path: None,
        restore: false,
        save_only: false,
        save_once: false,
        health_check: false,
        protocol_probe: false,
        export_to: None,
        import_from: None,
    }
}

fn lt(a: Span, b: Span) -> bool {
    (a.secs, a.nanos) < (b.secs, b.nanos)
}

#[test]
fn reconnect_backoff_doubles_and_caps() {
    let initial = Span::from_secs(RECONNECT_DELAY_INITIAL_SECS);
    let max = Span::from_secs(RECONNECT_DELAY_MAX_SECS);
    let mut delay = initial;
    let mut steps = 0;
    while lt(delay, max) {
        delay = next_reconnect_delay(delay);
        steps += 1;
    }
    assert_eq!(delay, max);
    assert!(
        steps >= 5,
        "backoff should ramp up over several steps, not jump to the cap"
    );
    assert_eq!(next_reconnect_delay(max), max, "the cap must be a fixed point");
}

#[test]
fn reconnect_backoff_sequence_is_exact() {
    let mut delay = Span::from_secs(RECONNECT_DELAY_INITIAL_SECS);
    let mut seen = vec![delay.secs];
    for _ in 0..6 {
        delay = next_reconnect_delay(delay);
        seen.push(delay.secs);
    }
    assert_eq!(seen, vec![1, 2, 4, 8, 16, 30, 30]);
}

#[test]
fn flapping_summary_emits_once_per_flapping_summary_every_deaths() {
    let initial = Span::from_secs(RECONNECT_DELAY_INITIAL_SECS);
    let max = Span::from_secs(RECONNECT_DELAY_MAX_SECS);
    let mut since_summary = 0u32;
    for _ in 0..FLAPPING_SUMMARY_EVERY - 1 {
        assert!(
            flapping_summary(&mut since_summary, 42, 1, initial).is_none(),
            "no summary before {FLAPPING_SUMMARY_EVERY} deaths"
        );
    }
    let summary = flapping_summary(&mut since_summary, 42, 1, max)
        .expect("the 10th death must emit the summary");
    assert!(
        summary.contains("42 deaths"),
        "summary carries the total: {summary}"
    );
    assert_eq!(since_summary, 0, "emitting resets the counter");
    for _ in 0..FLAPPING_SUMMARY_EVERY - 1 {
        assert!(flapping_summary(&mut since_summary, 43, 2, initial).is_none());
    }
    assert!(flapping_summary(&mut since_summary, 43, 2, initial).is_some());
}

#[test]
fn flapping_summary_text_is_exact() {
    let mut since = FLAPPING_SUMMARY_EVERY - 1;
    assert_eq!(
        flapping_summary(&mut since, 12, 4, Span::from_secs(16)).unwrap(),
        "niri event stream health: 12 deaths so far, current rapid-death streak 4 (periodic-fallback threshold 3), next reconnect in 16s"
    );
}

#[test]
fn reconnect_state_falls_back_after_rapid_deaths_and_recovers() {
    let mut st = ReconnectState::new();
    assert_eq!(st.connect_mode(), ConnectMode::Subscribe);
    let e = st.on_stream_ended(false);
    assert_eq!(e.reconnect_after, Some(Span::from_secs(2)));
    st.on_stream_ended(false);
    let e = st.on_stream_ended(false);
    assert_eq!(e.reconnect_after, None, "periodic saves take over the waiting");
    assert_eq!(st.connect_mode(), ConnectMode::PeriodicFallback);
    assert_eq!(st.reconnect_delay, Span::from_secs(8));
    let e = st.on_stream_ended(true);
    assert_eq!(st.connect_mode(), ConnectMode::Subscribe);
    assert_eq!(e.reconnect_after, Some(Span::from_secs(RECONNECT_DELAY_INITIAL_SECS)));
    assert_eq!(st.total_deaths, 4);
}

#[test]
fn layout_relevant_covers_geometry_changes() {
    assert!(layout_relevant(&EventKind::WindowLayoutsChanged));
    assert!(!layout_relevant(&EventKind::KeyboardLayoutsChanged));
    assert!(layout_relevant(&EventKind::WindowClosed));
    assert!(!layout_relevant(&EventKind::CastsChanged));
    assert!(line_calls_for_save(&ReadEvent::Unparsed("{\"NewVariant\":{}}".to_string())));
    assert!(!line_calls_for_save(&ReadEvent::Event(EventKind::OverviewOpenedOrClosed)));
}

#[test]
fn unparsed_lines_are_logged_a_few_times_then_counted() {
    let mut log = UnparsedLog::new();
    for _ in 0..3 {
        assert!(log.record("garbage").is_some());
    }
    assert!(log.record("garbage").is_none());
    assert_eq!(log.logged, 3);
    assert_eq!(log.suppressed, 1);
    let long = "x".repeat(UNPARSED_LOG_CHAR_LIMIT + 50);
    assert_eq!(truncate_for_log(&long).chars().count(), UNPARSED_LOG_CHAR_LIMIT);
    assert_eq!(truncate_for_log("ünïcode"), "ünïcode");
}

#[test]
fn fallback_interval_is_at_least_a_minute() {
    assert_eq!(fallback_interval_secs(15), 900);
    assert_eq!(fallback_interval_secs(0), 60);
    assert_eq!(fallback_interval_secs(u64::MAX), u64::MAX);
}

#[test]
fn session_staleness_warning_fires_only_past_two_save_intervals() {
    let fresh = Span::from_secs(10 * 60);
    let stale = Span::from_secs(31 * 60);
    assert!(
        session_staleness_warning(Some(fresh), 15).is_none(),
        "a 10-min-old session with a 15-min interval is not stale"
    );
    let warning = session_staleness_warning(Some(stale), 15)
        .expect("a 31-min-old session with a 15-min interval must warn");
    assert!(
        warning.contains("stale"),
        "warning names the problem: {warning}"
    );
    assert!(
        warning.contains("30 min"),
        "warning states the 2x-interval threshold: {warning}"
    );
    assert!(
        session_staleness_warning(Some(Span::from_secs(90)), 1).is_none(),
        "staleness scales with the configured interval (90s <= 2x1min)"
    );
    assert!(
        session_staleness_warning(Some(Span::from_secs(130)), 1).is_some(),
        "130s > 2x1min is stale"
    );
    assert!(
        session_staleness_warning(Some(Span::from_secs(5 * 60)), 0).is_some(),
        "a zero interval still yields a sane 2-min threshold"
    );
    assert!(
        session_staleness_warning(None, 15).is_none(),
        "unknown age never warns"
    );
    assert_eq!(SESSION_STALENESS_INTERVALS, 2);
}

#[test]
fn staleness_warning_text_is_exact() {
    assert_eq!(
        session_staleness_warning(Some(Span { secs: 125, nanos: 5 }), 1).unwrap(),
        "session file is stale: last written 2m5s ago, more than 2 min (2 \u{d7} the 1-min save interval). Either the desktop has been idle (saves are event-driven) or the save loop is unhealthy \u{2014} check recent logs for event-stream deaths or unparsable-event warnings"
    );
    assert!(session_staleness_warning(Some(Span { secs: 120, nanos: 1 }), 1).is_some());
    assert!(session_staleness_warning(Some(Span { secs: 120, nanos: 0 }), 1).is_none());
}

#[test]
fn protocol_probe_report_counts_lines() {
    let mut report = ProtocolProbeReport::new();
    report.record(&ReadEvent::Event(EventKind::WindowsChanged));
    report.record(&ReadEvent::Unparsed("{\"Mystery\":1}".to_string()));
    report.record(&ReadEvent::Event(EventKind::ConfigLoaded));
    assert_eq!(report.parsed_lines, 2);
    assert_eq!(report.unparsable_lines, 1);
    assert_eq!(report.unparsable_samples, vec!["{\"Mystery\":1}".to_string()]);
    assert_eq!(report.total_lines(), 3);
}

#[test]
fn config_default_values() {
    let c = TerminalStateConfig::default();
    assert!(c.enabled);
    assert!(c.terminal_app_ids.contains(&"kitty".to_string()));
    assert!(c.terminal_app_ids.contains(&"Alacritty".to_string()));
    assert!(c.terminal_app_ids.contains(&"alacritty".to_string()));
    assert!(c.shell_names.contains(&"fish".to_string()));
    assert!(c.helper_names.contains(&"kitten".to_string()));
    assert_eq!(c.max_walk_depth, 20);
}

#[test]
fn default_helpers_match_the_config_defaults() {
    assert!(default_enabled());
    assert_eq!(default_max_walk_depth(), 20);
    assert_eq!(default_helper_names(), vec!["kitten".to_string()]);
    assert!(default_shell_names().contains(&"-zsh".to_string()));
    assert!(default_terminal_app_ids().contains(&"com.mitchellh.ghostty".to_string()));
    let app = AppConfig::default();
    assert!(app.app_mappings.is_empty());
    assert!(app.single_instance.apps.is_empty());
    assert!(app.skip_apps.apps.is_empty());
    assert!(app.terminal_state.enabled);
}

#[test]
fn run_mode_and_validation_work_together() {
    let mut config = no_ipc_config(false);
    assert_eq!(config.run_mode(), RunMode::Normal);
    config.restore = true;
    assert_eq!(config.run_mode(), RunMode::RestoreOnly);
    config.restore = false;
    config.save_only = true;
    assert_eq!(config.run_mode(), RunMode::SaveOnly);

    config.save_interval = 0;
    assert!(config.validate().is_err());
    config.save_interval = 15;
    config.max_restore_windows = 0;
    assert!(config.validate().is_err());
    config.max_restore_windows = 100;
    assert!(config.validate().is_ok());
}

#[test]
fn each_validation_error_names_its_flag() {
    let mut c = no_ipc_config(false);
    c.max_backup_count = 0;
    assert_eq!(c.validate(), Err(ConfigError::ZeroMaxBackupCount));
    c.max_backup_count = 5;
    c.spawn_timeout = 0;
    assert_eq!(c.validate(), Err(ConfigError::ZeroSpawnTimeout));
    assert_eq!(ConfigError::ZeroSpawnTimeout.message(), "--spawn-timeout must be at least 1 second");
    c.spawn_timeout = 1;
    c.save_interval = 0;
    c.max_restore_windows = 0;
    assert_eq!(c.validate(), Err(ConfigError::ZeroSaveInterval), "the first failing check wins");
}

#[test]
fn app_config_validation_rejects_zero_max_walk_depth() {
    let config = AppConfig {
        terminal_state: TerminalStateConfig {
            max_walk_depth: 0,
            ..Default::default()
        },
        ..Default::default()
    };
    assert!(validate_app_config(&config).is_err());

    let config = AppConfig::default();
    assert!(validate_app_config(&config).is_ok());
}

#[test]
fn service_plan_dispatches_modes() {
    let mut c = no_ipc_config(false);
    assert_eq!(service_plan(&c), ServicePlan::Run { boot_restore: true, save_loop: true });
    c.dry_run = true;
    assert_eq!(service_plan(&c), ServicePlan::Run { boot_restore: true, save_loop: false });
    c.dry_run = false;
    c.save_only = true;
    assert_eq!(service_plan(&c), ServicePlan::Run { boot_restore: false, save_loop: true });
    c.save_only = false;
    c.restore = true;
    assert_eq!(service_plan(&c), ServicePlan::Run { boot_restore: true, save_loop: false });
    c.health_check = true;
    assert_eq!(service_plan(&c), ServicePlan::Run { boot_restore: true, save_loop: false });
    c.restore = false;
    assert_eq!(service_plan(&c), ServicePlan::HealthCheck);
    c.import_from = Some("/tmp/in".to_string());
    assert_eq!(service_plan(&c), ServicePlan::Import);
    c.export_to = Some("/tmp/out".to_string());
    assert_eq!(service_plan(&c), ServicePlan::Export);
}

#[test]
fn flapping_summary_shows_a_fractional_delay() {
    let mut since = FLAPPING_SUMMARY_EVERY - 1;
    let text = flapping_summary(&mut since, 7, 1, Span { secs: 1, nanos: 500_000_000 }).unwrap();
    assert!(text.contains("7 deaths"));
    assert!(text.ends_with("next reconnect in 1.5s"));
    let mut since = FLAPPING_SUMMARY_EVERY - 1;
    let text = flapping_summary(&mut since, 7, 1, Span { secs: 0, nanos: 250_000_000 }).unwrap();
    assert!(text.ends_with("next reconnect in 0.25s"));
    assert_eq!(since, 0);
}

#[test]
fn debounce_saves_once_after_a_burst_settles() {
    let mut state = DebounceState::Idle;
    let mut saves = 0;
    let mut restarts = 0;
    let events = [
        SaveLoopEvent::SaveWorthy,
        SaveLoopEvent::SaveWorthy,
        SaveLoopEvent::SaveWorthy,
        SaveLoopEvent::Settled,
    ];
    for ev in events {
        let (next, action) = debounce_step(state, ev);
        state = next;
        match action {
            SaveLoopAction::RestartSettleTimer => restarts += 1,
            SaveLoopAction::SaveNow => saves += 1,
            other => panic!("unexpected action {other:?}"),
        }
    }
    assert_eq!((saves, restarts), (1, 3));
    assert_eq!(state, DebounceState::Idle);
}

#[test]
fn debounce_flushes_on_close_and_drops_on_shutdown() {
    assert_eq!(
        debounce_step(DebounceState::Settling, SaveLoopEvent::StreamClosed),
        (DebounceState::Idle, SaveLoopAction::SaveThenStop)
    );
    assert_eq!(
        debounce_step(DebounceState::Idle, SaveLoopEvent::StreamClosed).1,
        SaveLoopAction::Stop
    );
    assert_eq!(
        debounce_step(DebounceState::Settling, SaveLoopEvent::ShutdownRequested).1,
        SaveLoopAction::Stop
    );
    assert_eq!(
        debounce_step(DebounceState::Idle, SaveLoopEvent::Settled),
        (DebounceState::Idle, SaveLoopAction::Wait)
    );
}
