use niri_session_manager::config::AppMapping;
use niri_session_manager::session::{ChildCommand, SavedWindow, TerminalState, WorkspaceInfo};
use niri_session_manager::terminal::{
    build_spawn_command, build_terminal_restore_command, choose_restore_shell,
    get_shell_from_passwd, shell_escape, CwdFlag, TerminalProfile,
};

const HOME: &str = "/home/tester";
const SHELL: &str = "/run/current-system/sw/bin/fish";

fn expected_exec_suffix(child_cmd: &str) -> String {
    format!("{}; exec {}", shell_escape(child_cmd), shell_escape(SHELL))
}

fn assert_restore_command(cmd: &[String], expected_prefix: &[&str], child_cmd: &str) {
    for (i, expected) in expected_prefix.iter().enumerate() {
        assert_eq!(cmd[i], *expected);
    }
    assert_eq!(cmd[expected_prefix.len()], expected_exec_suffix(child_cmd));
}

fn restore(prefix: &[&str], profile: TerminalProfile, child: &[&str], cwd: Option<&str>) -> Vec<String> {
    let prefix: Vec<String> = prefix.iter().map(|s| s.to_string()).collect();
    let child: Vec<String> = child.iter().map(|s| s.to_string()).collect();
    build_terminal_restore_command(&prefix, profile, &child, cwd, HOME, SHELL)
}

#[test]
fn shell_escape_empty() {
    assert_eq!(shell_escape(""), "''");
}

#[test]
fn shell_escape_simple() {
    assert_eq!(shell_escape("btop"), "'btop'");
}

#[test]
fn shell_escape_with_spaces() {
    assert_eq!(shell_escape("nvim /path/to file"), "'nvim /path/to file'");
}

#[test]
fn shell_escape_with_single_quotes() {
    assert_eq!(shell_escape("echo 'hello'"), "'echo '\\''hello'\\'''");
}

#[test]
fn shell_escape_with_semicolons() {
    assert_eq!(shell_escape("cmd; rm -rf /"), "'cmd; rm -rf /'");
}

#[test]
fn shell_escape_with_dollar() {
    assert_eq!(shell_escape("echo $HOME"), "'echo $HOME'");
}

#[test]
fn shell_escape_with_backticks() {
    assert_eq!(shell_escape("echo `whoami`"), "'echo `whoami`'");
}

#[test]
fn terminal_profile_from_args_finds_flatpak_wrapped_terminal() {
    let mapped = vec![
        "flatpak".to_string(),
        "run".to_string(),
        "org.wezfurlong.wezterm".to_string(),
    ];
    let profile = TerminalProfile::from_args(&mapped);
    assert_eq!(profile, TerminalProfile::Wezterm);
}

#[test]
fn terminal_profile_from_args_plain_app_id() {
    let mapped = vec!["kitty".to_string()];
    assert_eq!(TerminalProfile::from_args(&mapped), TerminalProfile::Kitty);
    let unknown = vec!["my-terminal-wrapper".to_string()];
    assert_eq!(
        TerminalProfile::from_args(&unknown),
        TerminalProfile::Generic
    );
}

#[test]
fn terminal_profile_kitty() {
    let p = TerminalProfile::from_executable("kitty");
    assert!(!p.needs_start_subcommand());
    assert_eq!(p.cwd_flag(), CwdFlag::Separated("--directory"));
    assert_eq!(p.cmd_flag(), None);
}

#[test]
fn terminal_profile_foot() {
    let p = TerminalProfile::from_executable("foot");
    assert!(!p.needs_start_subcommand());
    assert_eq!(p.cwd_flag(), CwdFlag::Separated("--working-directory"));
    assert_eq!(p.cmd_flag(), None);
}

#[test]
fn terminal_profile_wezterm() {
    let p = TerminalProfile::from_executable("wezterm");
    assert!(p.needs_start_subcommand());
    assert_eq!(p.cwd_flag(), CwdFlag::Separated("--cwd"));
    assert_eq!(p.cmd_flag(), Some("--"));
}

#[test]
fn terminal_profile_ghostty() {
    let p = TerminalProfile::from_executable("ghostty");
    assert!(!p.needs_start_subcommand());
    assert_eq!(p.cwd_flag(), CwdFlag::Joined("--working-directory="));
    assert_eq!(p.cmd_flag(), Some("-e"));
}

#[test]
fn terminal_profile_alacritty() {
    let p = TerminalProfile::from_executable("alacritty");
    assert!(!p.needs_start_subcommand());
    assert_eq!(p.cwd_flag(), CwdFlag::Separated("--working-directory"));
    assert_eq!(p.cmd_flag(), Some("-e"));
}

#[test]
fn terminal_profile_generic() {
    let p = TerminalProfile::from_executable("unknown-terminal");
    assert!(!p.needs_start_subcommand());
    assert_eq!(p.cwd_flag(), CwdFlag::Separated("--working-directory"));
    assert_eq!(p.cmd_flag(), Some("-e"));
}

#[test]
fn terminal_profile_ignores_case_and_reverse_dns_prefixes() {
    assert_eq!(TerminalProfile::from_executable("Kitty"), TerminalProfile::Kitty);
    assert_eq!(TerminalProfile::from_executable("Alacritty"), TerminalProfile::Alacritty);
    assert_eq!(TerminalProfile::from_executable("org.wezfurlong.WezTerm"), TerminalProfile::Wezterm);
    assert_eq!(TerminalProfile::from_executable("com.mitchellh.ghostty"), TerminalProfile::Ghostty);
    assert_eq!(TerminalProfile::from_executable("/usr/bin/kitty"), TerminalProfile::Generic);
}

#[test]
fn build_restore_kitty_with_cwd() {
    let cmd = restore(&["kitty"], TerminalProfile::Kitty, &["btop"], Some("/home/user/projects"));
    assert_restore_command(
        &cmd,
        &["kitty", "--directory", "/home/user/projects", "sh", "-c"],
        "btop",
    );
}

#[test]
fn build_restore_kitty_without_cwd() {
    let cmd = restore(&["kitty"], TerminalProfile::Kitty, &["btop"], Some(HOME));
    assert_restore_command(&cmd, &["kitty", "sh", "-c"], "btop");
}

#[test]
fn build_restore_wezterm_with_cwd() {
    let cmd = restore(&["wezterm"], TerminalProfile::Wezterm, &["btop"], Some("/home/user/projects"));
    assert_restore_command(
        &cmd,
        &[
            "wezterm",
            "start",
            "--cwd",
            "/home/user/projects",
            "--",
            "sh",
            "-c",
        ],
        "btop",
    );
}

#[test]
fn build_restore_ghostty_with_cwd() {
    let cmd = restore(&["ghostty"], TerminalProfile::Ghostty, &["btop"], Some("/home/user/projects"));
    assert_restore_command(
        &cmd,
        &[
            "ghostty",
            "--working-directory=/home/user/projects",
            "-e",
            "sh",
            "-c",
        ],
        "btop",
    );
}

#[test]
fn build_restore_foot_with_cwd() {
    let cmd = restore(&["foot"], TerminalProfile::Foot, &["btop"], Some("/home/user/projects"));
    assert_restore_command(
        &cmd,
        &[
            "foot",
            "--working-directory",
            "/home/user/projects",
            "sh",
            "-c",
        ],
        "btop",
    );
}

#[test]
fn build_restore_alacritty_with_cwd() {
    let cmd = restore(&["alacritty"], TerminalProfile::Alacritty, &["btop"], Some("/home/user/projects"));
    assert_restore_command(
        &cmd,
        &[
            "alacritty",
            "--working-directory",
            "/home/user/projects",
            "-e",
            "sh",
            "-c",
        ],
        "btop",
    );
}

#[test]
fn build_restore_with_shell_metacharacters() {
    let cmd = restore(&["kitty"], TerminalProfile::Kitty, &["echo 'hello'; rm -rf /"], None);
    assert_eq!(cmd[3], expected_exec_suffix("echo 'hello'; rm -rf /"));
}

#[test]
fn build_restore_preserves_multi_arg_command() {
    let cmd = restore(&["kitty"], TerminalProfile::Kitty, &["nvim", "/path/to file"], None);
    let expected_suffix = format!(
        "{} {}; exec {}",
        shell_escape("nvim"),
        shell_escape("/path/to file"),
        shell_escape(SHELL)
    );
    assert_eq!(cmd[3], expected_suffix);
}

#[test]
fn build_restore_preserves_mapped_launch_prefix() {
    let cmd = restore(&["flatpak", "run", "org.myterm"], TerminalProfile::Generic, &["btop"], None);
    assert_eq!(cmd[0], "flatpak");
    assert_eq!(cmd[1], "run");
    assert_eq!(cmd[2], "org.myterm");
}

#[test]
fn build_restore_drops_an_empty_cwd() {
    let cmd = restore(&["foot"], TerminalProfile::Foot, &["btop"], Some(""));
    assert_restore_command(&cmd, &["foot", "sh", "-c"], "btop");
}

#[test]
fn build_spawn_command_falls_back_to_mappings() {
    let mappings = vec![AppMapping {
        app_id: "com.mitchellh.ghostty".to_string(),
        command: vec!["ghostty".to_string()],
    }];

    let window = SavedWindow {
        id: 1,
        app_id: "com.mitchellh.ghostty".to_string(),
        workspace: WorkspaceInfo::default(),
        is_focused: false,
        pid: None,
        terminal_state: None,
        layout: None,
    };

    let cmd = build_spawn_command("com.mitchellh.ghostty", &window, &mappings, HOME, SHELL);
    assert_eq!(cmd, vec!["ghostty"]);
}

#[test]
fn build_spawn_command_uses_terminal_state() {
    let mappings = vec![];
    let window = SavedWindow {
        id: 1,
        app_id: "kitty".to_string(),
        workspace: WorkspaceInfo {
            idx: Some(0),
            ..Default::default()
        },
        is_focused: true,
        pid: Some(1234),
        terminal_state: Some(TerminalState {
            child_command: Some(ChildCommand::Args(vec!["btop".to_string()])),
            child_cwd: Some("/home/user".to_string()),
        }),
        layout: None,
    };

    let cmd = build_spawn_command("kitty", &window, &mappings, HOME, SHELL);
    assert_eq!(cmd[0], "kitty");
    assert!(cmd.contains(&expected_exec_suffix("btop")));
}

#[test]
fn build_spawn_command_without_mapping_runs_the_app_id() {
    let window = SavedWindow {
        id: 1,
        app_id: "firefox".to_string(),
        workspace: WorkspaceInfo::default(),
        is_focused: false,
        pid: None,
        terminal_state: None,
        layout: None,
    };
    assert_eq!(build_spawn_command("firefox", &window, &vec![], HOME, SHELL), vec!["firefox"]);
}

#[test]
fn build_spawn_command_splits_a_legacy_command_string() {
    let window = SavedWindow {
        id: 1,
        app_id: "foot".to_string(),
        workspace: WorkspaceInfo::default(),
        is_focused: false,
        pid: None,
        terminal_state: Some(TerminalState {
            child_command: Some(ChildCommand::Legacy("nvim  notes.md".to_string())),
            child_cwd: None,
        }),
        layout: None,
    };
    let cmd = build_spawn_command("foot", &window, &vec![], HOME, SHELL);
    assert_eq!(
        cmd,
        vec![
            "foot".to_string(),
            "sh".to_string(),
            "-c".to_string(),
            format!("'nvim' 'notes.md'; exec {}", shell_escape(SHELL)),
        ]
    );
}

#[test]
fn restore_shell_prefers_env_then_passwd_then_bin_sh() {
    assert_eq!(choose_restore_shell(Some("/bin/zsh"), Some("/bin/bash")), "/bin/zsh");
    assert_eq!(choose_restore_shell(Some(""), Some("/bin/bash")), "/bin/bash");
    assert_eq!(choose_restore_shell(None, None), "/bin/sh");
}

#[test]
fn shell_from_passwd_matches_the_status_uid() {
    let status = "Name:\tnsm\nUmask:\t0022\nUid:\t1000\t1000\t1000\t1000\nGid:\t100\n";
    let passwd = "root:x:0:0:root:/root:/bin/bash\nnobody:x:65534:65534::/:\nalice:x:1000:100::/home/alice: /run/current-system/sw/bin/fish \r\n";
    assert_eq!(
        get_shell_from_passwd(status, passwd),
        Some("/run/current-system/sw/bin/fish".to_string())
    );
}

#[test]
fn shell_from_passwd_skips_entries_with_an_empty_shell() {
    let status = "Uid: 1000 1000 1000 1000\n";
    let passwd = "a:x:1000:1::/h:\nb:x:1000:1::/h:/bin/dash\n";
    assert_eq!(get_shell_from_passwd(status, passwd), Some("/bin/dash".to_string()));
    assert_eq!(get_shell_from_passwd("Name: x\n", passwd), None);
    assert_eq!(get_shell_from_passwd("Uid:\n", passwd), None);
    assert_eq!(get_shell_from_passwd(status, "root:x:0:0::/:/bin/sh\n"), None);
}

/// Reads a word made of single-quoted runs and backslash escapes the way
/// `sh` does; `None` for any other shape.
fn sh_read_back(word: &str) -> Option<String> {
    let mut out = String::new();
    let mut chars = word.chars();
    let mut quoted = false;
    while let Some(c) = chars.next() {
        if quoted {
            if c == '\'' {
                quoted = false;
            } else {
                out.push(c);
            }
        } else if c == '\'' {
            quoted = true;
        } else if c == '\\' {
            out.push(chars.next()?);
        } else {
            return None;
        }
    }
    if quoted {
        None
    } else {
        Some(out)
    }
}

#[test]
fn shell_escape_reads_back_as_the_input() {
    for s in ["", "btop", "it's", "''", "a'b'c", "$(rm -rf /); `x` \"q\" \\n", "'"] {
        assert_eq!(sh_read_back(&shell_escape(s)).as_deref(), Some(s), "input {s:?}");
    }
}
