use niri_session_manager::config::{AppConfig, Config, SingleInstanceAppsConfig, SkipAppsConfig};
use niri_session_manager::niri::{NiriWindow, NiriWindowLayout, NiriWorkspace, WorkspaceRef};
use niri_session_manager::restore::{
    boot_gate, claim_new_window, decide_restore, get_restore_marker_path, join_running_windows,
    marker_after_restore, next_retry_delay, parse_boot_id, plan_spawns, preparation_notes,
    prepare_saved_windows,
    resolve_target_output, restore_attempts, restored_outcome, retry_after_failure,
    workspace_matches, workspace_reference, BootGate, RestoreDecision, RestoreOutcome,
    RunningWindow, RETRY_DELAY_MAX_SECS,
};
use niri_session_manager::session::{SavedWindow, WorkspaceInfo};
use niri_session_manager::span::Span;

fn saved_win(id: u64, app: &str, name: Option<&str>, idx: Option<u8>) -> SavedWindow {
    SavedWindow {
        id,
        app_id: app.to_string(),
        workspace: WorkspaceInfo {
            idx,
            name: name.map(String::from),
            output: None,
        },
        is_focused: false,
        pid: None,
        terminal_state: None,
        layout: None,
    }
}

fn running_win(id: u64, app: &str, name: Option<&str>, idx: Option<u8>) -> RunningWindow {
    RunningWindow {
        id,
        app_id: Some(app.to_string()),
        workspace_name: name.map(String::from),
        workspace_idx: idx,
    }
}

fn niri_workspace(id: u64, idx: u8, name: Option<&str>, output: &str) -> NiriWorkspace {
    NiriWorkspace {
        id,
        idx,
        name: name.map(String::from),
        output: Some(output.to_string()),
    }
}

fn niri_window(id: u64, app: Option<&str>, workspace_id: Option<u64>) -> NiriWindow {
    NiriWindow {
        id,
        app_id: app.map(String::from),
        pid: Some(100),
        workspace_id,
        is_focused: false,
        layout: NiriWindowLayout {
            pos_in_scrolling_layout: None,
            tile_width_bits: 0,
            tile_height_bits: 0,
        },
    }
}

fn no_ipc_config(dry_run: bool) -> Config {
    Config {
        save_interval: 15,
        max_backup_count: 5,
        spawn_timeout: 1,
        retry_attempts: 1,
        retry_delay: 1,
        max_restore_windows: 100,
        dry_run,
        app_config_path: None,
        restore: false,
        save_only: false,
        save_once: false,
        health_check: false,
        protocol_probe: false,
        export_to: None,
        import_from: None,
    }
}

fn ids(ws: &[SavedWindow]) -> Vec<u64> {
    ws.iter().map(|w| w.id).collect()
}

#[test]
fn plan_spawns_skips_windows_already_on_their_workspace() {
    let saved = vec![
        saved_win(1, "firefox", Some("dev"), Some(1)),
        saved_win(2, "firefox", Some("dev"), Some(1)),
        saved_win(3, "firefox", Some("dev"), Some(1)),
    ];
    let running = vec![running_win(10, "firefox", Some("dev"), Some(1))];

    let to_spawn = plan_spawns(&saved, &running, &AppConfig::default());

    assert_eq!(to_spawn.len(), 2, "only the deficit (3-1) is spawned");
    assert_eq!(
        ids(&to_spawn),
        vec![2, 3],
        "entry 1 was satisfied by the running window; the rest spawn in saved order"
    );
}

#[test]
fn plan_spawns_caps_at_deficit_when_no_workspace_matches() {
    let saved = vec![
        saved_win(1, "firefox", Some("dev"), Some(1)),
        saved_win(2, "firefox", Some("dev"), Some(1)),
    ];
    let running = vec![running_win(10, "firefox", Some("other"), Some(2))];

    let to_spawn = plan_spawns(&saved, &running, &AppConfig::default());

    assert_eq!(to_spawn.len(), 1, "count cap: saved 2 - running 1 = 1");
}

#[test]
fn plan_spawns_returns_empty_when_everything_already_runs() {
    let saved = vec![
        saved_win(1, "firefox", Some("dev"), Some(1)),
        saved_win(2, "firefox", Some("web"), Some(2)),
    ];
    let running = vec![
        running_win(10, "firefox", Some("dev"), Some(1)),
        running_win(11, "firefox", Some("web"), Some(2)),
    ];

    let to_spawn = plan_spawns(&saved, &running, &AppConfig::default());

    assert!(to_spawn.is_empty(), "re-restore must be a no-op");
}

#[test]
fn plan_spawns_falls_back_to_workspace_index_when_names_missing() {
    let saved = vec![
        saved_win(1, "kitty", None, Some(2)),
        saved_win(2, "kitty", None, Some(2)),
    ];
    let running = vec![running_win(10, "kitty", None, Some(2))];

    let to_spawn = plan_spawns(&saved, &running, &AppConfig::default());

    assert_eq!(to_spawn.len(), 1, "index match satisfies one entry");
}

#[test]
fn plan_spawns_skips_single_instance_app_when_any_instance_runs() {
    let saved = vec![
        saved_win(1, "zen", Some("dev"), Some(1)),
        saved_win(2, "zen", Some("web"), Some(2)),
    ];
    let running = vec![running_win(10, "zen", Some("web"), Some(2))];
    let app_config = AppConfig {
        single_instance: SingleInstanceAppsConfig {
            apps: vec!["zen".to_string()],
        },
        ..Default::default()
    };

    let to_spawn = plan_spawns(&saved, &running, &app_config);

    assert!(
        to_spawn.is_empty(),
        "single-instance apps stay skipped when any instance runs"
    );
}

#[test]
fn plan_spawns_skips_skip_listed_apps() {
    let saved = vec![saved_win(1, "discord", Some("dev"), Some(1))];
    let app_config = AppConfig {
        skip_apps: SkipAppsConfig {
            apps: vec!["discord".to_string()],
        },
        ..Default::default()
    };

    let to_spawn = plan_spawns(&saved, &vec![], &app_config);

    assert!(to_spawn.is_empty());
}

#[test]
fn plan_spawns_ignores_other_apps_running_windows() {
    let saved = vec![saved_win(1, "firefox", Some("dev"), Some(1))];
    let running = vec![running_win(10, "chromium", Some("dev"), Some(1))];

    let to_spawn = plan_spawns(&saved, &running, &AppConfig::default());

    assert_eq!(
        to_spawn.len(),
        1,
        "another app on the same workspace does not satisfy this entry"
    );
}

#[test]
fn plan_spawns_never_spawns_more_than_saved() {
    let saved = vec![saved_win(1, "firefox", Some("dev"), Some(1))];
    let running = vec![
        running_win(10, "firefox", Some("x"), Some(1)),
        running_win(11, "firefox", Some("y"), Some(2)),
        running_win(12, "firefox", Some("z"), Some(3)),
    ];

    let to_spawn = plan_spawns(&saved, &running, &AppConfig::default());

    assert!(to_spawn.is_empty(), "running >= saved means spawn nothing");
}

#[test]
fn plan_spawns_single_instance_spawns_once_when_none_runs() {
    let saved = vec![
        saved_win(1, "zen", Some("dev"), Some(1)),
        saved_win(2, "zen", Some("web"), Some(2)),
    ];
    let app_config = AppConfig {
        single_instance: SingleInstanceAppsConfig {
            apps: vec!["zen".to_string()],
        },
        ..Default::default()
    };
    let to_spawn = plan_spawns(&saved, &vec![], &app_config);
    assert_eq!(ids(&to_spawn), vec![1]);
}

#[test]
fn second_plan_after_spawning_is_empty() {
    let saved = vec![
        saved_win(1, "firefox", Some("dev"), Some(1)),
        saved_win(2, "kitty", Some("dev"), Some(1)),
        saved_win(3, "firefox", Some("web"), Some(2)),
    ];
    let mut running = vec![running_win(10, "firefox", Some("web"), Some(2))];
    let first = plan_spawns(&saved, &running, &AppConfig::default());
    assert_eq!(ids(&first), vec![1, 2]);
    for (k, w) in first.iter().enumerate() {
        running.push(running_win(
            20 + k as u64,
            &w.app_id,
            w.workspace.name.as_deref(),
            w.workspace.idx,
        ));
    }
    let second = plan_spawns(&saved, &running, &AppConfig::default());
    assert!(second.is_empty(), "a second restore spawns nothing");
}

#[test]
fn workspace_matches_prefers_name_then_index() {
    let by_name = WorkspaceInfo {
        idx: Some(1),
        name: Some("dev".to_string()),
        output: None,
    };
    assert!(workspace_matches(&by_name, &running_win(1, "a", Some("dev"), Some(9))));
    assert!(!workspace_matches(&by_name, &running_win(1, "a", Some("web"), Some(1))));
    let by_idx = WorkspaceInfo {
        idx: Some(3),
        name: Some(String::new()),
        output: None,
    };
    assert!(workspace_matches(&by_idx, &running_win(1, "a", Some("x"), Some(3))));
    assert!(!workspace_matches(&by_idx, &running_win(1, "a", Some("x"), None)));
}

#[test]
fn resolve_output_keeps_existing_saved_output() {
    let saved = WorkspaceInfo {
        idx: Some(1),
        name: Some("dev".to_string()),
        output: Some("DP-1".to_string()),
    };
    let workspaces = vec![niri_workspace(1, 1, Some("dev"), "DP-1")];
    assert_eq!(
        resolve_target_output(&saved, &workspaces),
        Some("DP-1".to_string())
    );
}

#[test]
fn resolve_output_falls_back_to_host_of_named_workspace() {
    let saved = WorkspaceInfo {
        idx: Some(1),
        name: Some("dev".to_string()),
        output: Some("HDMI-A-1".to_string()),
    };
    let workspaces = vec![niri_workspace(1, 1, Some("dev"), "DP-2")];
    assert_eq!(
        resolve_target_output(&saved, &workspaces),
        Some("DP-2".to_string()),
        "docking with a renamed monitor should still place the window"
    );
}

#[test]
fn resolve_output_falls_back_to_index_when_name_misses() {
    let saved = WorkspaceInfo {
        idx: Some(3),
        name: None,
        output: Some("DP-1".to_string()),
    };
    let workspaces = vec![niri_workspace(1, 3, None, "eDP-1")];
    assert_eq!(
        resolve_target_output(&saved, &workspaces),
        Some("eDP-1".to_string())
    );
}

#[test]
fn workspace_reference_prefers_name_and_treats_idx_zero_as_unknown() {
    let ws = |idx: Option<u8>, name: Option<&str>| WorkspaceInfo {
        idx,
        name: name.map(String::from),
        output: None,
    };

    assert_eq!(
        workspace_reference(&ws(Some(2), Some("dev"))),
        Some(WorkspaceRef::Name("dev".to_string())),
        "name wins over index"
    );
    assert_eq!(
        workspace_reference(&ws(Some(3), None)),
        Some(WorkspaceRef::Index(3))
    );
    assert_eq!(
        workspace_reference(&ws(Some(0), None)),
        None,
        "niri is 1-based; legacy idx 0 means unknown - skip the move"
    );
    assert_eq!(
        workspace_reference(&ws(None, Some(""))),
        None,
        "empty name falls through to (missing) index"
    );
    assert_eq!(workspace_reference(&ws(None, None)), None);
}

#[test]
fn retry_backoff_starts_at_the_base_and_caps() {
    let retry_delay_max = Span::from_secs(RETRY_DELAY_MAX_SECS);
    assert_eq!(next_retry_delay(2, 1), Span::from_secs(2));
    assert_eq!(next_retry_delay(2, 2), Span::from_secs(4));
    assert_eq!(next_retry_delay(2, 3), Span::from_secs(8));
    assert_eq!(
        next_retry_delay(20, 2),
        retry_delay_max,
        "20s doubled would exceed the cap; the cap must hold"
    );
    assert_eq!(
        next_retry_delay(retry_delay_max.as_secs(), u32::MAX),
        retry_delay_max,
        "the cap must be a fixed point"
    );
    assert_eq!(
        next_retry_delay(0, 3),
        Span::zero(),
        "a zero base retries immediately, as it always has"
    );
}

#[test]
fn retry_delay_never_shrinks_as_attempts_fail() {
    let mut prev = next_retry_delay(3, 0);
    for n in 1..40u32 {
        let d = next_retry_delay(3, n);
        assert!((d.secs, d.nanos) >= (prev.secs, prev.nanos));
        assert!(d.secs <= RETRY_DELAY_MAX_SECS);
        prev = d;
    }
    assert_eq!(next_retry_delay(u64::MAX, 5), Span::from_secs(RETRY_DELAY_MAX_SECS));
}

#[test]
fn retry_loop_schedule() {
    assert_eq!(restore_attempts(0), 1);
    assert_eq!(restore_attempts(3), 3);
    assert_eq!(retry_after_failure(1, 3, 2), Some(Span::from_secs(2)));
    assert_eq!(retry_after_failure(2, 3, 2), Some(Span::from_secs(4)));
    assert_eq!(retry_after_failure(3, 3, 2), None);
}

#[test]
fn restore_outcome_display_is_stable_for_humans() {
    assert_eq!(
        RestoreOutcome::SeededNewSession.message(),
        "Seeded a new session file from the current state"
    );
    assert_eq!(
        RestoreOutcome::NothingToRestore.message(),
        "Session file held nothing to restore"
    );
    assert_eq!(
        RestoreOutcome::WouldRestore { window_count: 7 }.message(),
        "DRY RUN: would restore 7 window(s)"
    );
    assert_eq!(
        RestoreOutcome::Restored { spawned: 4 }.message(),
        "Restored 4 window(s)"
    );
    assert_eq!(restored_outcome(4), RestoreOutcome::Restored { spawned: 4 });
}

#[test]
fn boot_gate_skips_only_this_boots_marker_with_a_live_session() {
    assert_eq!(
        boot_gate(Some("boot-abc-123"), None, true),
        BootGate::Restore { prune_marker: false },
        "missing marker = should restore"
    );
    assert_eq!(
        boot_gate(Some("boot-abc-123"), Some("boot-abc-123\n"), true),
        BootGate::Skip,
        "matching boot id = already restored"
    );
    assert_eq!(
        boot_gate(Some("boot-abc-123"), Some("older-boot\n"), true),
        BootGate::Restore { prune_marker: true },
        "stale marker from a previous boot is pruned and the restore runs"
    );
    assert_eq!(
        boot_gate(Some("boot-abc-123"), Some("boot-abc-123\n"), false),
        BootGate::Restore { prune_marker: true },
        "session file vanished = marker must not block a re-restore"
    );
    assert_eq!(
        boot_gate(None, Some("some-other-boot\n"), true),
        BootGate::Restore { prune_marker: false },
        "without a boot id the marker is left alone and the restore runs"
    );
}

#[test]
fn boot_marker_round_trip_skips_the_second_run() {
    let id = parse_boot_id(Some("  0b5e3f2a-1c9d\n")).unwrap();
    assert_eq!(id, "0b5e3f2a-1c9d");
    let marker = marker_after_restore(false, Some(id.as_str())).unwrap();
    assert_eq!(boot_gate(Some(id.as_str()), Some(marker.as_str()), true), BootGate::Skip);
    assert_eq!(marker_after_restore(true, Some(id.as_str())), None, "dry run writes no marker");
    assert_eq!(marker_after_restore(false, None), None);
    assert_eq!(parse_boot_id(Some(" \n")), None);
    assert_eq!(parse_boot_id(None), None);
}

#[test]
fn restore_marker_lives_beside_the_session_file() {
    assert_eq!(
        get_restore_marker_path("/home/u/.local/share/nsm/session.json"),
        "/home/u/.local/share/nsm/restore-marker"
    );
    assert_eq!(get_restore_marker_path("session.json"), "restore-marker");
    assert_eq!(get_restore_marker_path("/"), "./restore-marker");
}

#[test]
fn decide_restore_covers_each_outcome() {
    let cfg = no_ipc_config(false);
    let app = AppConfig::default();
    assert!(matches!(
        decide_restore(None, &cfg, &app),
        RestoreDecision::SeedNewSession { write_session: true }
    ));
    assert!(matches!(
        decide_restore(None, &no_ipc_config(true), &app),
        RestoreDecision::SeedNewSession { write_session: false }
    ));
    assert!(matches!(
        decide_restore(Some(vec![]), &cfg, &app),
        RestoreDecision::Finished(RestoreOutcome::NothingToRestore)
    ));
    let ws = vec![saved_win(1, "firefox", Some("dev"), Some(1))];
    match decide_restore(Some(ws.clone()), &no_ipc_config(true), &app) {
        RestoreDecision::Preview(p) => assert_eq!(ids(&p), vec![1]),
        other => panic!("unexpected decision {other:?}"),
    }
    match decide_restore(Some(ws), &cfg, &app) {
        RestoreDecision::Restore(p) => assert_eq!(ids(&p), vec![1]),
        other => panic!("unexpected decision {other:?}"),
    }
}

#[test]
fn prepare_saved_windows_orders_by_workspace_index() {
    let ws = vec![
        saved_win(1, "a", None, Some(3)),
        saved_win(2, "b", None, None),
        saved_win(3, "c", None, Some(1)),
        saved_win(4, "d", None, Some(3)),
    ];
    let out = prepare_saved_windows(ws, &no_ipc_config(false), &Default::default());
    assert_eq!(ids(&out), vec![2, 3, 1, 4], "a missing index sorts as 0, ties keep saved order");
}

#[test]
fn prepare_saved_windows_caps_the_count() {
    let ws: Vec<SavedWindow> = (0..5).map(|i| saved_win(i, "a", None, Some(1))).collect();
    let mut cfg = no_ipc_config(false);
    cfg.max_restore_windows = 2;
    let out = prepare_saved_windows(ws, &cfg, &Default::default());
    assert_eq!(out.len(), 2);
}

#[test]
fn join_running_windows_attaches_workspace_fields() {
    let workspaces = vec![niri_workspace(7, 2, Some("web"), "DP-1")];
    let windows = vec![niri_window(1, Some("firefox"), Some(7)), niri_window(2, None, Some(9))];
    let running = join_running_windows(&windows, &workspaces);
    assert_eq!(running[0], running_win(1, "firefox", Some("web"), Some(2)));
    assert_eq!(
        running[1],
        RunningWindow {
            id: 2,
            app_id: None,
            workspace_name: None,
            workspace_idx: None
        }
    );
}

#[test]
fn claim_new_window_never_hands_out_a_window_twice() {
    let windows = vec![
        niri_window(1, Some("kitty"), None),
        niri_window(2, Some("firefox"), None),
        niri_window(3, Some("kitty"), None),
    ];
    let mut claimed = vec![1u64];
    assert_eq!(claim_new_window(&windows, "kitty", &mut claimed), Some(3));
    assert_eq!(claimed, vec![1, 3]);
    assert_eq!(claim_new_window(&windows, "kitty", &mut claimed), None);
    assert_eq!(claimed, vec![1, 3]);
}

#[test]
fn plan_spawns_picks_the_earliest_unmatched_windows() {
    let saved = vec![
        saved_win(1, "firefox", Some("dev"), Some(1)),
        saved_win(2, "firefox", Some("web"), Some(2)),
        saved_win(3, "firefox", Some("web"), Some(2)),
        saved_win(4, "firefox", Some("dev"), Some(1)),
    ];
    let one = vec![running_win(10, "firefox", Some("web"), Some(2))];
    assert_eq!(ids(&plan_spawns(&saved, &one, &AppConfig::default())), vec![1, 3, 4]);
    let two = vec![
        running_win(10, "firefox", Some("web"), Some(2)),
        running_win(11, "firefox", Some("other"), Some(9)),
    ];
    assert_eq!(
        ids(&plan_spawns(&saved, &two, &AppConfig::default())),
        vec![1, 3],
        "the window on web is satisfied; the deficit of 2 takes the first unmatched ones"
    );
}

#[test]
fn preparation_notes_report_drops_caps_and_crowded_apps() {
    let mut ws: Vec<SavedWindow> = (0..12).map(|i| saved_win(i, "firefox", None, Some(1))).collect();
    ws.push(saved_win(20, "kitty", None, Some(1)));
    ws.push(saved_win(21, "zen", None, Some(2)));
    let notes = preparation_notes(&ws, 5, &Default::default());
    assert_eq!(notes.dropped_terminals, 1, "kitty without captured state is dropped");
    assert_eq!(notes.kept, 13);
    assert!(notes.capped);
    assert_eq!(notes.crowded_apps, vec![("firefox".to_string(), 12)]);
    let few = preparation_notes(&vec![saved_win(1, "zen", None, None)], 100, &Default::default());
    assert_eq!((few.dropped_terminals, few.kept, few.capped), (0, 1, false));
    assert!(few.crowded_apps.is_empty());
}
