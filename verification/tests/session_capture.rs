use niri_session_manager::config::{AppConfig, SingleInstanceAppsConfig, SkipAppsConfig, TerminalStateConfig};
use niri_session_manager::niri::{NiriWindow, NiriWindowLayout, NiriWorkspace};
use niri_session_manager::session::{
    backup_file_name, backups_to_prune, dedupe_single_instance_windows, filter_skipped_windows,
    finalize_capture, is_backup_name, newest_first_order, no_terminal_matched,
    saved_window_from_niri, session_needs_write, terminal_state_from, wants_terminal_state,
    window_pid, ChildCommand, SavedWindow, SavedWindowLayout, ScrollPosition, SessionData,
    TerminalState, VersionedSession, WorkspaceInfo, SESSION_FORMAT_VERSION,
};

fn win(id: u64, app: &str, pid: Option<u32>) -> SavedWindow {
    SavedWindow {
        id,
        app_id: app.to_string(),
        workspace: WorkspaceInfo::default(),
        is_focused: false,
        pid,
        terminal_state: None,
        layout: None,
    }
}

#[test]
fn dedupe_single_instance_keeps_one_window_per_pid() {
    let windows = vec![
        win(1, "com.mitchellh.ghostty", Some(42)),
        win(2, "com.mitchellh.ghostty", Some(42)),
        win(3, "com.mitchellh.ghostty", Some(42)),
        win(4, "firefox", Some(7)),
        win(5, "firefox", Some(8)),
        win(6, "unknown-app", None),
    ];
    let out = dedupe_single_instance_windows(windows, &vec!["com.mitchellh.ghostty".to_string()]);
    assert_eq!(out.len(), 4, "3 same-pid ghostty surfaces collapse to 1; firefox pids differ so both stay; no-pid window stays");
    assert_eq!(out[0].id, 1);
    assert_eq!(out[1].id, 4);
    assert_eq!(out[2].id, 5);
    assert_eq!(out[3].id, 6);
}

#[test]
fn dedupe_keeps_same_pid_across_different_single_instance_apps() {
    let windows = vec![
        win(1, "app-one", Some(42)),
        win(2, "app-two", Some(42)),
        win(3, "app-one", Some(42)),
    ];
    let out = dedupe_single_instance_windows(
        windows,
        &vec!["app-one".to_string(), "app-two".to_string()],
    );
    assert_eq!(
        out.iter().map(|w| w.id).collect::<Vec<_>>(),
        vec![1, 2],
        "same pid under a different app is NOT a duplicate surface"
    );
}

#[test]
fn dedupe_keeps_single_instance_windows_without_a_pid() {
    let windows = vec![win(1, "zen", None), win(2, "zen", None)];
    let out = dedupe_single_instance_windows(windows, &vec!["zen".to_string()]);
    assert_eq!(out.len(), 2);
}

#[test]
fn filter_skipped_windows_removes_only_skipped_apps() {
    let windows = vec![win(1, "xdg-desktop-portal", None), win(2, "firefox", None)];
    let out = filter_skipped_windows(windows, &vec!["xdg-desktop-portal".to_string()]);
    assert_eq!(out.len(), 1);
    assert_eq!(out[0].app_id, "firefox");
}

#[test]
fn finalize_capture_filters_then_dedupes() {
    let app_config = AppConfig {
        skip_apps: SkipAppsConfig { apps: vec!["discord".to_string()] },
        single_instance: SingleInstanceAppsConfig { apps: vec!["zen".to_string()] },
        ..Default::default()
    };
    let windows = vec![
        win(1, "discord", Some(5)),
        win(2, "zen", Some(9)),
        win(3, "zen", Some(9)),
        win(4, "kitty", Some(9)),
    ];
    let out = finalize_capture(windows, &app_config);
    assert_eq!(out.iter().map(|w| w.id).collect::<Vec<_>>(), vec![2, 4]);
}

#[test]
fn session_data_reports_its_format() {
    let versioned = SessionData::Versioned(VersionedSession {
        version: SESSION_FORMAT_VERSION,
        windows: vec![win(1, "kitty", None)],
    });
    assert!(!versioned.is_legacy());
    let windows = versioned.into_windows();
    assert_eq!(windows.len(), 1);
    assert_eq!(windows[0].app_id, "kitty");

    let legacy = SessionData::Legacy(vec![win(1, "kitty", None), win(2, "firefox", None)]);
    assert!(legacy.is_legacy());
    assert_eq!(legacy.into_windows().len(), 2);
}

#[test]
fn legacy_child_command_splits_at_whitespace() {
    assert_eq!(
        ChildCommand::Legacy("  nvim\t/tmp/a b ".to_string()).to_args(),
        vec!["nvim", "/tmp/a", "b"]
    );
    assert_eq!(
        ChildCommand::Args(vec!["nvim".to_string(), "/tmp/a b".to_string()]).to_args(),
        vec!["nvim", "/tmp/a b"]
    );
}

#[test]
fn capture_keeps_only_positive_pids() {
    assert_eq!(window_pid(Some(42)), Some(42));
    assert_eq!(window_pid(Some(0)), None);
    assert_eq!(window_pid(Some(-1)), None);
    assert_eq!(window_pid(None), None);
}

#[test]
fn terminal_state_is_wanted_only_for_configured_terminals() {
    let cfg = TerminalStateConfig::default();
    assert!(wants_terminal_state(Some(10), "kitty", &cfg));
    assert!(!wants_terminal_state(None, "kitty", &cfg));
    assert!(!wants_terminal_state(Some(10), "firefox", &cfg));
    let off = TerminalStateConfig { enabled: false, ..Default::default() };
    assert!(!wants_terminal_state(Some(10), "kitty", &off));
    assert_eq!(
        terminal_state_from(Some((vec!["btop".to_string()], "/home/u".to_string()))),
        Some(TerminalState {
            child_command: Some(ChildCommand::Args(vec!["btop".to_string()])),
            child_cwd: Some("/home/u".to_string()),
        })
    );
    assert_eq!(terminal_state_from(None), None);
}

#[test]
fn saved_window_from_niri_copies_workspace_and_layout() {
    let workspaces = vec![NiriWorkspace {
        id: 3,
        idx: 2,
        name: Some("web".to_string()),
        output: Some("DP-1".to_string()),
    }];
    let window = NiriWindow {
        id: 9,
        app_id: Some("firefox".to_string()),
        pid: Some(77),
        workspace_id: Some(3),
        is_focused: true,
        layout: NiriWindowLayout {
            pos_in_scrolling_layout: Some((2, 1)),
            tile_width_bits: 960.0f64.to_bits(),
            tile_height_bits: 540.0f64.to_bits(),
        },
    };
    let w = saved_window_from_niri(&window, &workspaces, None);
    assert_eq!(w.id, 9);
    assert_eq!(w.app_id, "firefox");
    assert_eq!(
        w.workspace,
        WorkspaceInfo {
            idx: Some(2),
            name: Some("web".to_string()),
            output: Some("DP-1".to_string())
        }
    );
    assert!(w.is_focused);
    assert_eq!(w.pid, Some(77));
    assert_eq!(
        w.layout,
        Some(SavedWindowLayout {
            scroll_position: Some(ScrollPosition { column: 2, tile_in_column: 1 }),
            tile_width_bits: 960.0f64.to_bits(),
            tile_height_bits: 540.0f64.to_bits(),
        })
    );
    let orphan = NiriWindow { app_id: None, workspace_id: Some(99), ..window };
    let w = saved_window_from_niri(&orphan, &workspaces, None);
    assert_eq!(w.app_id, "");
    assert_eq!(w.workspace, WorkspaceInfo::default());
}

#[test]
fn terminal_warning_fires_when_no_terminal_window_was_saved() {
    let cfg = TerminalStateConfig::default();
    assert!(no_terminal_matched(&vec![win(1, "firefox", None)], &cfg));
    assert!(!no_terminal_matched(&vec![win(1, "firefox", None), win(2, "kitty", None)], &cfg));
    let off = TerminalStateConfig { enabled: false, ..Default::default() };
    assert!(!no_terminal_matched(&vec![win(1, "firefox", None)], &off));
}

#[test]
fn unchanged_session_is_not_rewritten() {
    assert!(!session_needs_write(Some("{\"version\":5}"), "{\"version\":5}"));
    assert!(session_needs_write(Some("{\"version\":4}"), "{\"version\":5}"));
    assert!(session_needs_write(None, "{}"));
}

#[test]
fn backup_names_use_the_bak_extension() {
    assert!(is_backup_name("session-2024-01-01T00:00:00Z.bak", false));
    assert!(!is_backup_name("session.json", false));
    assert!(!is_backup_name("restore-marker", false));
    assert!(!is_backup_name(".bak", false), "a leading dot is no extension");
    assert!(!is_backup_name("session.BAK", false));
    assert!(is_backup_name("session.BAK", true));
    assert!(!is_backup_name("..", true));
    assert_eq!(
        backup_file_name("session", "2024-01-01T00:00:00Z"),
        "session-2024-01-01T00:00:00Z.bak"
    );
}

#[test]
fn backups_are_ordered_newest_first_stably() {
    let mtimes = vec![10i128, 30, 20, 30, -5];
    assert_eq!(newest_first_order(&mtimes), vec![1, 3, 2, 0, 4]);
}

#[test]
fn cleanup_keeps_the_newest_backups() {
    let mtimes: Vec<i128> = (0..7).collect();
    let pruned = backups_to_prune(&mtimes, 5);
    assert_eq!(pruned, vec![1, 0], "the two oldest are evicted");
    assert!(backups_to_prune(&mtimes, 7).is_empty());
    assert!(backups_to_prune(&vec![], 0).is_empty());
}
