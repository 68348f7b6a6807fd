use niri_session_manager::proc::{
    children_or_scan, is_helper, is_shell, needs_ppid_scan, parse_children_list, parse_cmdline, parse_stat_field,
    resolve_child_process, scan_children_by_ppid, sort_pids, ProcEntry, ProcTable, ProcWalk,
    WalkStep,
};

fn s(v: &[&str]) -> Vec<String> {
    v.iter().map(|x| x.to_string()).collect()
}

fn entry(pid: u32, comm: &str, cmdline: &[&str], children: &[u32]) -> ProcEntry {
    ProcEntry {
        pid,
        children_file: Some(children.to_vec()),
        ppid: None,
        tpgid: None,
        comm: Some(comm.to_string()),
        cmdline: Some(s(cmdline)),
        cwd: None,
    }
}

fn with_cwd(mut e: ProcEntry, cwd: &str) -> ProcEntry {
    e.cwd = Some(cwd.to_string());
    e
}

fn with_tpgid(mut e: ProcEntry, tpgid: i64) -> ProcEntry {
    e.tpgid = Some(tpgid);
    e
}

fn resolve(table: Vec<ProcEntry>, pid: u32, shells: &[&str], helpers: &[&str]) -> Option<(Vec<String>, String)> {
    resolve_child_process(pid, &s(shells), &s(helpers), 20, &ProcTable { entries: table })
}

#[test]
fn is_shell_detection() {
    let shells = vec!["fish".to_string(), "bash".to_string(), "-fish".to_string()];
    assert!(is_shell("fish", &shells));
    assert!(is_shell("-fish", &shells));
    assert!(!is_shell("btop", &shells));
    assert!(!is_shell("nvim", &shells));
}

#[test]
fn is_helper_detection() {
    let helpers = vec!["kitten".to_string()];
    assert!(is_helper("kitten", &helpers));
    assert!(!is_helper("btop", &helpers));
}

#[test]
fn resolve_prefers_non_helper_children_over_leaf_helpers() {
    let table = vec![
        with_tpgid(entry(3000, ".kitty-wrapped", &["kitty", "sleep", "60"], &[3001, 3002, 3003]), -1),
        with_tpgid(entry(3001, "kitten", &["kitten", "__atexit__"], &[]), -1),
        with_cwd(with_tpgid(entry(3002, "sleep", &["sleep", "60"], &[]), 3002), "/home/user"),
        with_tpgid(entry(3003, "kitten", &["kitten", "__watch_conf__"], &[]), -1),
    ];
    assert_eq!(
        resolve(table, 3000, &["fish"], &["kitten"]),
        Some((s(&["sleep", "60"]), "/home/user".to_string())),
        "the walk must skip leaf helper kittens and resolve the real child"
    );
}

#[test]
fn resolve_finds_child_when_children_file_lies() {
    let mut wrapper = with_tpgid(entry(2000, ".ghostty-wrapper", &["ghostty", "-e", "btop"], &[]), -1);
    wrapper.ppid = Some(1);
    let mut btop = with_cwd(with_tpgid(entry(2001, "btop", &["btop"], &[]), 2001), "/home/user");
    btop.ppid = Some(2000);
    let table = vec![wrapper, btop];
    assert_eq!(
        resolve(table, 2000, &["fish", "bash"], &[]),
        Some((s(&["btop"]), "/home/user".to_string())),
        "an empty children file must fall back to scanning stat ppids"
    );
}

#[test]
fn unreadable_children_file_also_falls_back_to_the_scan() {
    let mut term = entry(10, "foot", &["foot"], &[]);
    term.children_file = None;
    let mut a = with_cwd(entry(12, "btop", &["btop"], &[]), "/a");
    a.ppid = Some(10);
    let mut b = with_cwd(entry(11, "htop", &["htop"], &[]), "/b");
    b.ppid = Some(10);
    assert_eq!(
        resolve(vec![term, a, b], 10, &[], &[]),
        Some((s(&["htop"]), "/b".to_string())),
        "scanned children are taken in pid order"
    );
}

#[test]
fn children_file_wins_over_the_scan() {
    assert_eq!(children_or_scan(Some(vec![5, 3]), vec![1, 2]), vec![5, 3]);
    assert_eq!(children_or_scan(Some(vec![]), vec![1, 2]), vec![1, 2]);
    assert_eq!(children_or_scan(None, vec![4]), vec![4]);
    assert!(!needs_ppid_scan(&Some(vec![7])));
    assert!(needs_ppid_scan(&Some(vec![])));
    assert!(needs_ppid_scan(&None));
}

#[test]
fn resolve_finds_direct_child() {
    let table = vec![
        entry(1000, "kitty", &["kitty"], &[1001]),
        entry(1001, "fish", &["fish"], &[1002]),
        with_cwd(entry(1002, "btop", &["btop"], &[]), "/home/user"),
    ];
    assert_eq!(
        resolve(table, 1000, &["fish", "bash"], &[]),
        Some((s(&["btop"]), "/home/user".to_string()))
    );
}

#[test]
fn resolve_skips_shell_and_finds_grandchild() {
    let table = vec![
        entry(1000, "kitty", &["kitty"], &[1001]),
        entry(1001, "bash", &["bash"], &[1002]),
        with_cwd(entry(1002, "nvim", &["nvim", "/path/to/file"], &[]), "/home/user/projects"),
    ];
    assert_eq!(
        resolve(table, 1000, &["bash"], &[]),
        Some((s(&["nvim", "/path/to/file"]), "/home/user/projects".to_string()))
    );
}

#[test]
fn resolve_skips_helpers() {
    let table = vec![
        entry(1000, "kitty", &["kitty"], &[1001]),
        entry(1001, "kitten", &["kitten", "@", "ssh"], &[1002]),
        with_cwd(entry(1002, "btop", &["btop"], &[]), "/home/user"),
    ];
    assert_eq!(
        resolve(table, 1000, &[], &["kitten"]),
        Some((s(&["btop"]), "/home/user".to_string()))
    );
}

#[test]
fn resolve_returns_none_when_only_shell() {
    let table = vec![
        entry(1000, "kitty", &["kitty"], &[1001]),
        entry(1001, "fish", &["fish"], &[]),
    ];
    assert!(resolve(table, 1000, &["fish"], &[]).is_none());
}

#[test]
fn resolve_returns_none_when_pid_missing() {
    assert!(resolve(vec![], 9999, &["fish"], &[]).is_none());
}

#[test]
fn resolve_filters_atexit() {
    let table = vec![
        entry(1000, "kitty", &["kitty"], &[1001]),
        with_tpgid(entry(1001, "fish", &["fish"], &[]), 1002),
        with_cwd(entry(1002, "__atexit__", &["__atexit__"], &[]), "/home/user"),
    ];
    assert!(resolve(table, 1000, &["fish"], &[]).is_none());
}

#[test]
fn resolve_uses_tpgid_fallback() {
    let table = vec![
        entry(1000, "kitty", &["kitty"], &[1001]),
        with_tpgid(entry(1001, "fish", &["fish"], &[]), 2000),
        with_cwd(entry(2000, "btop", &["btop"], &[]), "/home/user"),
    ];
    assert_eq!(
        resolve(table, 1000, &["fish"], &[]),
        Some((s(&["btop"]), "/home/user".to_string()))
    );
}

#[test]
fn resolve_prefers_foreground_child_over_first_child() {
    let table = vec![
        entry(1000, "kitty", &["kitty"], &[1001]),
        with_tpgid(entry(1001, "fish", &["fish"], &[1002, 1003]), 1003),
        entry(1002, "htop", &["htop"], &[]),
        with_cwd(entry(1003, "btop", &["btop"], &[]), "/home/user"),
    ];
    assert_eq!(
        resolve(table, 1000, &["fish"], &[]),
        Some((s(&["btop"]), "/home/user".to_string()))
    );
}

#[test]
fn resolve_stops_at_the_depth_limit() {
    let table = vec![
        entry(1, "fish", &["fish"], &[2]),
        entry(2, "fish", &["fish"], &[3]),
        entry(3, "btop", &["btop"], &[]),
    ];
    let shells = s(&["fish"]);
    let t = ProcTable { entries: table };
    assert!(resolve_child_process(1, &shells, &vec![], 1, &t).is_none());
    assert_eq!(
        resolve_child_process(1, &shells, &vec![], 2, &t),
        Some((s(&["btop"]), String::new()))
    );
    assert!(resolve_child_process(1, &shells, &vec![], 0, &t).is_none());
}

#[test]
fn walk_can_be_driven_query_by_query() {
    let table = ProcTable {
        entries: vec![
            entry(1000, "kitty", &["kitty"], &[1001]),
            with_cwd(entry(1001, "btop", &["btop"], &[]), "/srv"),
        ],
    };
    let mut walk = ProcWalk::start(1000, 20, &vec![], &vec![]);
    let mut asked = 0;
    let result = loop {
        match walk.step() {
            WalkStep::Done(r) => break r,
            WalkStep::Ask(q) => {
                asked += 1;
                walk.answer(table.query(q));
            }
        }
    };
    assert_eq!(result, Some((s(&["btop"]), "/srv".to_string())));
    assert!(asked >= 4);
}

#[test]
fn stat_fields_are_read_after_the_command_name() {
    let stat = "1001 (fi sh) S 7 1001 1001 0 2000 4194560";
    assert_eq!(parse_stat_field(stat, 4), Some(7));
    assert_eq!(parse_stat_field(stat, 8), Some(2000));
    assert_eq!(parse_stat_field("1001 (fish) S 0 0 0 0 -1 1002\n", 8), Some(-1));
    assert_eq!(parse_stat_field(stat, 30), None);
    assert_eq!(parse_stat_field("garbage", 4), None);
}

#[test]
fn children_file_lists_whitespace_separated_pids() {
    assert_eq!(parse_children_list("1001 1002 x 1003\n"), vec![1001, 1002, 1003]);
    assert!(parse_children_list("").is_empty());
}

#[test]
fn ppid_scan_finds_sorted_children_and_skips_self() {
    let stats = vec![
        (30u32, Some(7i64)),
        (7u32, Some(7i64)),
        (12u32, Some(7i64)),
        (40u32, Some(1i64)),
        (41u32, None),
    ];
    assert_eq!(scan_children_by_ppid(7, &stats), vec![12, 30]);
    assert_eq!(sort_pids(&vec![5, 1, 3, 1]), vec![1, 1, 3, 5]);
}

#[test]
fn cmdline_splits_at_nul_bytes() {
    assert_eq!(parse_cmdline(&b"nvim\0/tmp/a b\0\0".to_vec()), Some(s(&["nvim", "/tmp/a b"])));
    assert_eq!(parse_cmdline(&Vec::new()), None);
    assert_eq!(parse_cmdline(&vec![0u8, 0u8]), None);
    assert_eq!(parse_cmdline(&b"caf\xe9\0".to_vec()), Some(s(&["caf\u{fffd}"])));
}
