//! The session data model and the filters applied when a session is
//! captured: skip-listed apps and duplicate single-instance surfaces.
use vstd::prelude::*;
use crate::config::{AppConfig, TerminalStateConfig};
use crate::niri::{NiriWindow, NiriWindowLayout, NiriWorkspace};
use crate::restore::{find_workspace, workspace_index_of};
use crate::text::{chars_of, contains_str, push_str, split_whitespace, str_eq, views, words};
use vstd::string::StringExecFns;

verus! {

/// Whether `a` equals (by characters) some element of `list`.
pub open spec fn listed(list: Seq<String>, a: Seq<char>) -> bool {
    exists|i: int| 0 <= i < list.len() && #[trigger] list[i]@ == a
}

/// A copy of an optional string.
pub fn dup_opt_string(o: &Option<String>) -> (r: Option<String>)
    ensures
        r == *o,
{
    match o {
        Some(s) => Some(s.clone()),
        None => None,
    }
}

/// A copy of a vector of strings.
pub fn dup_strings(v: &Vec<String>) -> (r: Vec<String>)
    ensures
        r@ == v@,
{
    let mut r: Vec<String> = Vec::new();
    let mut i: usize = 0;
    while i < v.len()
        invariant
            i <= v.len(),
            r@ == v@.take(i as int),
        decreases v.len() - i,
    {
        r.push(v[i].clone());
        assert(r@ == v@.take(i + 1));
        i = i + 1;
    }
    assert(v@.take(v.len() as int) == v@);
    r
}

/// Where a window sat: workspace index, name and output at save time.
#[derive(Debug, Clone, PartialEq, Eq)]
pub struct WorkspaceInfo {
    pub idx: Option<u8>,
    pub name: Option<String>,
    pub output: Option<String>,
}

impl Default for WorkspaceInfo {
    fn default() -> (r: Self)
        ensures
            r.idx is None,
            r.name is None,
            r.output is None,
    {
        WorkspaceInfo { idx: None, name: None, output: None }
    }
}

impl WorkspaceInfo {
    /// The workspace fields of `ws`, or all-`None` when there is no workspace.
    pub fn from_workspace(ws: Option<&NiriWorkspace>) -> (r: Self)
        ensures
            match ws {
                Some(w) => r.idx == Some(w.idx) && r.name == w.name && r.output == w.output,
                None => r.idx is None && r.name is None && r.output is None,
            },
    {
        match ws {
            Some(w) => WorkspaceInfo {
                idx: Some(w.idx),
                name: dup_opt_string(&w.name),
                output: dup_opt_string(&w.output),
            },
            None => WorkspaceInfo { idx: None, name: None, output: None },
        }
    }

    /// A copy of this value.
    pub fn duplicate(&self) -> (r: Self)
        ensures
            r == *self,
    {
        WorkspaceInfo {
            idx: self.idx,
            name: dup_opt_string(&self.name),
            output: dup_opt_string(&self.output),
        }
    }
}

/// The command running inside a terminal: an argument vector, or (older
/// session files) one whitespace-separated string.
#[derive(Debug, Clone, PartialEq, Eq)]
pub enum ChildCommand {
    Args(Vec<String>),
    Legacy(String),
}

/// The argument vector a child command stands for.
pub open spec fn child_args(c: ChildCommand) -> Seq<Seq<char>> {
    match c {
        ChildCommand::Args(v) => views(v@),
        ChildCommand::Legacy(s) => words(s@),
    }
}

/// Model of a [`ChildCommand`]: the argument list as a sequence.
pub enum ChildCommandView {
    Args(Seq<String>),
    Legacy(String),
}

impl View for ChildCommand {
    type V = ChildCommandView;

    open spec fn view(&self) -> ChildCommandView {
        match self {
            ChildCommand::Args(v) => ChildCommandView::Args(v@),
            ChildCommand::Legacy(s) => ChildCommandView::Legacy(*s),
        }
    }
}

impl ChildCommand {
    /// The command as an argument vector; a legacy string is split at whitespace.
    pub fn to_args(&self) -> (r: Vec<String>)
        ensures
            views(r@) == child_args(*self),
    {
        match self {
            ChildCommand::Args(args) => {
                let r = dup_strings(args);
                r
            },
            ChildCommand::Legacy(s) => split_whitespace(s.as_str()),
        }
    }

    /// A copy of this value.
    pub fn duplicate(&self) -> (r: Self)
        ensures
            r@ == self@,
    {
        match self {
            ChildCommand::Args(args) => ChildCommand::Args(dup_strings(args)),
            ChildCommand::Legacy(s) => ChildCommand::Legacy(s.clone()),
        }
    }
}

/// The foreground command of a terminal window and its working directory.
#[derive(Debug, Clone, PartialEq, Eq)]
pub struct TerminalState {
    pub child_command: Option<ChildCommand>,
    pub child_cwd: Option<String>,
}

/// Model of a [`TerminalState`].
pub struct TerminalStateView {
    pub child_command: Option<ChildCommandView>,
    pub child_cwd: Option<String>,
}

impl View for TerminalState {
    type V = TerminalStateView;

    open spec fn view(&self) -> TerminalStateView {
        TerminalStateView {
            child_command: match self.child_command {
                Some(c) => Some(c@),
                None => None,
            },
            child_cwd: self.child_cwd,
        }
    }
}

impl TerminalState {
    /// A copy of this value.
    pub fn duplicate(&self) -> (r: Self)
        ensures
            r@ == self@,
    {
        TerminalState {
            child_command: match &self.child_command {
                Some(c) => Some(c.duplicate()),
                None => None,
            },
            child_cwd: dup_opt_string(&self.child_cwd),
        }
    }
}

/// A window's slot in its workspace's scrolling layout (both 1-based).
#[derive(Debug, Clone, Copy, PartialEq, Eq)]
pub struct ScrollPosition {
    pub column: u64,
    pub tile_in_column: u64,
}

/// Geometry a window had when the session was saved: its scrolling-layout
/// slot and its tile size (as the bit patterns of the two `f64` values).
#[derive(Debug, Clone, Copy, PartialEq, Eq)]
pub struct SavedWindowLayout {
    pub scroll_position: Option<ScrollPosition>,
    pub tile_width_bits: u64,
    pub tile_height_bits: u64,
}

impl SavedWindowLayout {
    /// The durable subset of niri's window layout.
    pub fn from_niri(layout: &NiriWindowLayout) -> (r: Self)
        ensures
            r.tile_width_bits == layout.tile_width_bits,
            r.tile_height_bits == layout.tile_height_bits,
            match layout.pos_in_scrolling_layout {
                Some((c, t)) => r.scroll_position == Some(
                    ScrollPosition { column: c as u64, tile_in_column: t as u64 },
                ),
                None => r.scroll_position is None,
            },
    {
        let scroll_position = match layout.pos_in_scrolling_layout {
            Some((c, t)) => Some(ScrollPosition { column: c as u64, tile_in_column: t as u64 }),
            None => None,
        };
        SavedWindowLayout {
            scroll_position,
            tile_width_bits: layout.tile_width_bits,
            tile_height_bits: layout.tile_height_bits,
        }
    }
}

/// One window of a saved session.
#[derive(Debug, Clone, PartialEq)]
pub struct SavedWindow {
    pub id: u64,
    pub app_id: String,
    pub workspace: WorkspaceInfo,
    pub is_focused: bool,
    pub pid: Option<u32>,
    pub terminal_state: Option<TerminalState>,
    pub layout: Option<SavedWindowLayout>,
}

/// Model of a [`SavedWindow`].
pub struct SavedWindowView {
    pub id: u64,
    pub app_id: String,
    pub workspace: WorkspaceInfo,
    pub is_focused: bool,
    pub pid: Option<u32>,
    pub terminal_state: Option<TerminalStateView>,
    pub layout: Option<SavedWindowLayout>,
}

impl View for SavedWindow {
    type V = SavedWindowView;

    open spec fn view(&self) -> SavedWindowView {
        SavedWindowView {
            id: self.id,
            app_id: self.app_id,
            workspace: self.workspace,
            is_focused: self.is_focused,
            pid: self.pid,
            terminal_state: match self.terminal_state {
                Some(t) => Some(t@),
                None => None,
            },
            layout: self.layout,
        }
    }
}

/// The models of a sequence of saved windows.
pub open spec fn window_views(ws: Seq<SavedWindow>) -> Seq<SavedWindowView> {
    ws.map_values(|w: SavedWindow| w@)
}

impl SavedWindow {
    /// A copy of this value.
    pub fn duplicate(&self) -> (r: Self)
        ensures
            r@ == self@,
    {
        SavedWindow {
            id: self.id,
            app_id: self.app_id.clone(),
            workspace: self.workspace.duplicate(),
            is_focused: self.is_focused,
            pid: self.pid,
            terminal_state: match &self.terminal_state {
                Some(t) => Some(t.duplicate()),
                None => None,
            },
            layout: self.layout,
        }
    }
}

/// Session file format version written by this library.
pub const SESSION_FORMAT_VERSION: u32 = 5;

/// A session file with a format version.
#[derive(Debug)]
pub struct VersionedSession {
    pub version: u32,
    pub windows: Vec<SavedWindow>,
}

/// Any session file: versioned, or a bare window list from before versions.
#[derive(Debug)]
pub enum SessionData {
    Versioned(VersionedSession),
    Legacy(Vec<SavedWindow>),
}

impl SessionData {
    /// The saved windows, whatever the format.
    pub fn into_windows(self) -> (r: Vec<SavedWindow>)
        ensures
            r@ == match self {
                SessionData::Versioned(v) => v.windows@,
                SessionData::Legacy(w) => w@,
            },
    {
        match self {
            SessionData::Versioned(v) => v.windows,
            SessionData::Legacy(w) => w,
        }
    }

    /// Whether the file predates format versions.
    pub fn is_legacy(&self) -> (b: bool)
        ensures
            b == (self is Legacy),
    {
        match self {
            SessionData::Legacy(_) => true,
            _ => false,
        }
    }
}

/// Windows of apps not on the skip list, in order.
pub open spec fn without_skipped(ws: Seq<SavedWindow>, skip: Seq<String>) -> Seq<SavedWindow>
    decreases ws.len(),
{
    if ws.len() == 0 {
        seq![]
    } else {
        let prev = without_skipped(ws.drop_last(), skip);
        if listed(skip, ws.last().app_id@) {
            prev
        } else {
            prev.push(ws.last())
        }
    }
}

/// Drops the windows of skip-listed apps, keeping the order of the rest.
pub fn filter_skipped_windows(windows: Vec<SavedWindow>, skip_apps: &Vec<String>) -> (r: Vec<
    SavedWindow,
>)
    ensures
        r@ == without_skipped(windows@, skip_apps@),
{
    let mut out: Vec<SavedWindow> = Vec::new();
    let ghost all = windows@;
    for w in it: windows.into_iter()
        invariant
            it.seq() == all,
            out@ == without_skipped(all.take(it.index() as int), skip_apps@),
    {
        assert(all.take(it.index() + 1).drop_last() == all.take(it.index() as int));
        if !contains_str(skip_apps, w.app_id.as_str()) {
            out.push(w);
        }
    }
    assert(all.take(all.len() as int) == all);
    out
}

/// Whether `w` repeats the app and process id of a window in `kept`.
pub open spec fn repeats_surface(kept: Seq<SavedWindow>, w: SavedWindow) -> bool {
    exists|k: int| 0 <= k < kept.len() && #[trigger] kept[k].app_id@ == w.app_id@ && kept[k].pid == w.pid
}

/// Windows with every repeated (single-instance app, pid) surface after the
/// first removed, in order.
pub open spec fn deduped(ws: Seq<SavedWindow>, single: Seq<String>) -> Seq<SavedWindow>
    decreases ws.len(),
{
    if ws.len() == 0 {
        seq![]
    } else {
        let prev = deduped(ws.drop_last(), single);
        let w = ws.last();
        if listed(single, w.app_id@) && w.pid is Some && repeats_surface(prev, w) {
            prev
        } else {
            prev.push(w)
        }
    }
}

/// Whether `w`'s app and pid already occur in `kept`.
fn surface_seen(kept: &Vec<SavedWindow>, w: &SavedWindow) -> (b: bool)
    ensures
        b == repeats_surface(kept@, *w),
{
    let mut k: usize = 0;
    while k < kept.len()
        invariant
            k <= kept.len(),
            forall|j: int|
                0 <= j < k ==> !(#[trigger] kept@[j].app_id@ == w.app_id@ && kept@[j].pid == w.pid),
        decreases kept.len() - k,
    {
        if kept[k].pid == w.pid && kept[k].app_id == w.app_id {
            return true;
        }
        k = k + 1;
    }
    false
}

/// Keeps one window per (single-instance app, pid): a single-instance app
/// that shows several surfaces from one process is saved once. Windows of
/// other apps, and windows without a pid, are all kept.
pub fn dedupe_single_instance_windows(windows: Vec<SavedWindow>, single_instance_apps: &Vec<
    String,
>) -> (r: Vec<SavedWindow>)
    ensures
        r@ == deduped(windows@, single_instance_apps@),
{
    let mut out: Vec<SavedWindow> = Vec::new();
    let ghost all = windows@;
    for w in it: windows.into_iter()
        invariant
            it.seq() == all,
            out@ == deduped(all.take(it.index() as int), single_instance_apps@),
    {
        assert(all.take(it.index() + 1).drop_last() == all.take(it.index() as int));
        let drop = contains_str(single_instance_apps, w.app_id.as_str()) && w.pid.is_some()
            && surface_seen(&out, &w);
        if !drop {
            out.push(w);
        }
    }
    assert(all.take(all.len() as int) == all);
    out
}


/// The pid to save for a niri window: positive values only.
pub open spec fn spec_window_pid(pid: Option<i32>) -> Option<u32> {
    match pid {
        Some(p) => if p > 0 {
            Some(p as u32)
        } else {
            None
        },
        None => None,
    }
}

/// The pid to save for a niri window: only a positive pid is kept.
pub fn window_pid(pid: Option<i32>) -> (r: Option<u32>)
    ensures
        r == spec_window_pid(pid),
{
    match pid {
        Some(p) => if p > 0 {
            Some(p as u32)
        } else {
            None
        },
        None => None,
    }
}

/// Whether a window's terminal state should be captured: recovery is on,
/// the window has a pid, and its app is a configured terminal.
pub fn wants_terminal_state(pid: Option<u32>, app_id: &str, tcfg: &TerminalStateConfig) -> (b: bool)
    ensures
        b == (tcfg.enabled && pid is Some && listed(tcfg.terminal_app_ids@, app_id@)),
{
    tcfg.enabled && pid.is_some() && contains_str(&tcfg.terminal_app_ids, app_id)
}

/// The terminal state for a resolved foreground command and directory.
pub fn terminal_state_from(found: Option<(Vec<String>, String)>) -> (r: Option<TerminalState>)
    ensures
        match found {
            Some((cmd, cwd)) => r is Some && r->0.child_command == Some(ChildCommand::Args(cmd))
                && r->0.child_cwd == Some(cwd),
            None => r is None,
        },
{
    match found {
        Some((cmd, cwd)) => Some(
            TerminalState { child_command: Some(ChildCommand::Args(cmd)), child_cwd: Some(cwd) },
        ),
        None => None,
    }
}

/// The saved form of a live niri window: its id, app id (empty when
/// unknown), workspace, focus, positive pid, the given terminal state, and
/// its layout.
pub fn saved_window_from_niri(
    window: &NiriWindow,
    workspaces: &Vec<NiriWorkspace>,
    terminal_state: Option<TerminalState>,
) -> (r: SavedWindow)
    ensures
        r.id == window.id,
        r.app_id@ == match window.app_id {
            Some(a) => a@,
            None => Seq::<char>::empty(),
        },
        r.workspace == match workspace_index_of(workspaces@, window.workspace_id) {
            Some(k) => WorkspaceInfo {
                idx: Some(workspaces@[k].idx),
                name: workspaces@[k].name,
                output: workspaces@[k].output,
            },
            None => WorkspaceInfo { idx: None, name: None, output: None },
        },
        r.is_focused == window.is_focused,
        r.pid == spec_window_pid(window.pid),
        r.terminal_state == terminal_state,
        r.layout is Some && r.layout->0.tile_width_bits == window.layout.tile_width_bits
            && r.layout->0.tile_height_bits == window.layout.tile_height_bits,
        r.layout is Some && match window.layout.pos_in_scrolling_layout {
            Some((c, t)) => r.layout->0.scroll_position == Some(
                ScrollPosition { column: c as u64, tile_in_column: t as u64 },
            ),
            None => r.layout->0.scroll_position is None,
        },
{
    let ws = match find_workspace(workspaces, window.workspace_id) {
        Some(k) => Some(&workspaces[k]),
        None => None,
    };
    let app_id = match &window.app_id {
        Some(a) => a.clone(),
        None => String::new(),
    };
    SavedWindow {
        id: window.id,
        app_id,
        workspace: WorkspaceInfo::from_workspace(ws),
        is_focused: window.is_focused,
        pid: window_pid(window.pid),
        terminal_state,
        layout: Some(SavedWindowLayout::from_niri(&window.layout)),
    }
}

/// Whether a freshly captured session must be written: not when the
/// session file already holds exactly the captured text (an unchanged
/// desktop causes neither a backup rotation nor a write).
pub fn session_needs_write(existing: Option<&str>, captured: &str) -> (b: bool)
    ensures
        b == !(existing is Some && existing->0@ == captured@),
{
    match existing {
        Some(e) => !str_eq(e, captured),
        None => true,
    }
}

/// The windows a session save keeps: skip-listed apps dropped, then
/// repeated single-instance surfaces dropped.
pub fn finalize_capture(windows: Vec<SavedWindow>, app_config: &AppConfig) -> (r: Vec<SavedWindow>)
    ensures
        r@ == deduped(without_skipped(windows@, app_config.skip_apps.apps@), app_config.single_instance.apps@),
{
    let kept = filter_skipped_windows(windows, &app_config.skip_apps.apps);
    dedupe_single_instance_windows(kept, &app_config.single_instance.apps)
}

/// Whether terminal recovery is on but no saved window is a terminal (the
/// save then warns that nothing inside terminals will be recovered).
pub fn no_terminal_matched(windows: &Vec<SavedWindow>, tcfg: &TerminalStateConfig) -> (b: bool)
    ensures
        b == (tcfg.enabled && forall|i: int| 0 <= i < windows.len() ==> !listed(tcfg.terminal_app_ids@, #[trigger] windows@[i].app_id@)),
{
    if !tcfg.enabled {
        return false;
    }
    let mut i: usize = 0;
    while i < windows.len()
        invariant
            i <= windows.len(),
            forall|k: int| 0 <= k < i ==> !listed(tcfg.terminal_app_ids@, #[trigger] windows@[k].app_id@),
        decreases windows.len() - i,
    {
        if contains_str(&tcfg.terminal_app_ids, windows[i].app_id.as_str()) {
            return false;
        }
        i = i + 1;
    }
    true
}

/// ASCII lowercase of a character.
pub open spec fn ascii_lower(c: char) -> char {
    if 'A' <= c <= 'Z' {
        ((c as u32) + 32) as char
    } else {
        c
    }
}

/// Index of the last `c` in `s[..n]`.
pub open spec fn last_index_of(s: Seq<char>, c: char, n: int) -> Option<int>
    decreases n,
{
    if n <= 0 || n > s.len() {
        None
    } else if s[n - 1] == c {
        Some(n - 1)
    } else {
        last_index_of(s, c, n - 1)
    }
}

/// `Path::extension` of a file name: the text after its last `.`, unless
/// that `.` is the first character or the name is `..`.
pub open spec fn spec_extension(name: Seq<char>) -> Option<Seq<char>> {
    if name == ".."@ {
        None
    } else {
        match last_index_of(name, '.', name.len() as int) {
            Some(p) => if p > 0 {
                Some(name.subrange(p + 1, name.len() as int))
            } else {
                None
            },
            None => None,
        }
    }
}

/// Whether a file name marks a backup: extension `bak`, compared exactly or
/// ignoring ASCII case.
pub open spec fn spec_is_backup_name(name: Seq<char>, ignore_case: bool) -> bool {
    match spec_extension(name) {
        Some(e) => if ignore_case {
            e.len() == 3 && ascii_lower(e[0]) == 'b' && ascii_lower(e[1]) == 'a' && ascii_lower(e[2])
                == 'k'
        } else {
            e == "bak"@
        },
        None => false,
    }
}

fn lower_char(c: char) -> (r: char)
    ensures
        r == ascii_lower(c),
{
    if 'A' <= c && c <= 'Z' {
        ((c as u8) + 32) as char
    } else {
        c
    }
}

/// Whether a file name marks a backup (see `spec_is_backup_name`).
pub fn is_backup_name(name: &str, ignore_case: bool) -> (b: bool)
    ensures
        b == spec_is_backup_name(name@, ignore_case),
{
    proof {
        reveal_strlit("..");
        reveal_strlit("bak");
    }
    let v = chars_of(name);
    if v.len() == 2 && v[0] == '.' && v[1] == '.' {
        assert(name@ == ".."@);
        return false;
    }
    assert(name@ != ".."@) by {
        if name@ == ".."@ {
            assert(v@.len() == 2 && v@[0] == '.' && v@[1] == '.');
        }
    }
    let mut n: usize = v.len();
    while n > 0 && v[n - 1] != '.'
        invariant
            n <= v.len(),
            v@ == name@,
            last_index_of(name@, '.', v.len() as int) == last_index_of(name@, '.', n as int),
        decreases n,
    {
        n = n - 1;
    }
    if n <= 1 {
        return false;
    }
    let p = n - 1;
    if v.len() - (p + 1) != 3 {
        assert(spec_extension(name@) == Some(v@.subrange(p + 1, v.len() as int)));
        assert("bak"@.len() == 3);
        return false;
    }
    let (a, b, c) = (v[p + 1], v[p + 2], v[p + 3]);
    let ghost e = v@.subrange(p + 1, v.len() as int);
    assert(e[0] == a && e[1] == b && e[2] == c);
    if ignore_case {
        lower_char(a) == 'b' && lower_char(b) == 'a' && lower_char(c) == 'k'
    } else {
        let r = a == 'b' && b == 'a' && c == 'k';
        assert(r ==> e =~= "bak"@);
        r
    }
}

/// The name of a backup of the session file with stem `stem`, taken at
/// `timestamp`: `<stem>-<timestamp>.bak`.
pub fn backup_file_name(stem: &str, timestamp: &str) -> (r: String)
    ensures
        r@ == stem@ + "-"@ + timestamp@ + ".bak"@,
{
    let mut r = String::from_str(stem);
    push_str(&mut r, "-");
    push_str(&mut r, timestamp);
    push_str(&mut r, ".bak");
    r
}

/// Whether `order` lists each index below `n` once, newest first by
/// `mtimes`, and in the given order among equal times.
pub open spec fn newest_first(order: Seq<usize>, mtimes: Seq<i128>) -> bool {
    &&& order.len() == mtimes.len()
    &&& forall|k: int| 0 <= k < order.len() ==> #[trigger] order[k] < mtimes.len()
    &&& forall|a: int, b: int| 0 <= a < b < order.len() ==> order[a] != order[b]
    &&& forall|a: int, b: int|
        0 <= a < b < order.len() ==> mtimes[order[a] as int] >= mtimes[order[b] as int]
    &&& forall|a: int, b: int|
        0 <= a < b < order.len() && mtimes[order[a] as int] == mtimes[order[b] as int] ==> order[a]
            < order[b]
}

proof fn lemma_distinct_indices_cover(s: Seq<usize>, n: nat)
    requires
        s.len() == n,
        forall|a: int, b: int| 0 <= a < b < s.len() ==> s[a] != s[b],
        forall|k: int| 0 <= k < s.len() ==> #[trigger] s[k] < n,
    ensures
        forall|v: usize| v < n ==> s.contains(v),
    decreases n,
{
    if n > 0 {
        let top = (n - 1) as usize;
        if s.contains(top) {
            let idx = choose|i: int| 0 <= i < s.len() && s[i] == top;
            let t = s.remove(idx);
            assert forall|k: int| 0 <= k < t.len() implies #[trigger] t[k] < (n - 1) as nat by {
                if k < idx {
                    assert(t[k] == s[k]);
                } else {
                    assert(t[k] == s[k + 1]);
                }
            }
            assert forall|a: int, b: int| 0 <= a < b < t.len() implies t[a] != t[b] by {
                let a2 = if a < idx { a } else { a + 1 };
                let b2 = if b < idx { b } else { b + 1 };
                assert(t[a] == s[a2] && t[b] == s[b2]);
            }
            lemma_distinct_indices_cover(t, (n - 1) as nat);
            assert forall|v: usize| v < n implies s.contains(v) by {
                if v != top {
                    assert(t.contains(v));
                    let j = choose|j: int| 0 <= j < t.len() && t[j] == v;
                    if j < idx {
                        assert(s[j] == v);
                    } else {
                        assert(s[j + 1] == v);
                    }
                }
            }
        } else {
            let t = s.drop_last();
            assert forall|k: int| 0 <= k < t.len() implies #[trigger] t[k] < (n - 1) as nat by {
                assert(t[k] == s[k]);
                if t[k] == top {
                    assert(s.contains(top));
                }
            }
            lemma_distinct_indices_cover(t, (n - 1) as nat);
            let last = s[n - 1];
            if last == top {
                assert(s.contains(top));
            }
            assert(t.contains(last));
            let j = choose|j: int| 0 <= j < t.len() && t[j] == last;
            assert(s[j] == s[n - 1]);
        }
    }
}

proof fn lemma_newest_first_prefix(o1: Seq<usize>, o2: Seq<usize>, mtimes: Seq<i128>, k: int)
    requires
        newest_first(o1, mtimes),
        newest_first(o2, mtimes),
        0 <= k <= o1.len(),
    ensures
        forall|j: int| 0 <= j < k ==> o1[j] == o2[j],
    decreases k,
{
    if k > 0 {
        lemma_newest_first_prefix(o1, o2, mtimes, k - 1);
        let i = k - 1;
        let x = o1[i];
        let y = o2[i];
        if x != y {
            lemma_distinct_indices_cover(o1, mtimes.len());
            lemma_distinct_indices_cover(o2, mtimes.len());
            assert(o2.contains(x));
            assert(o1.contains(y));
            let jx = choose|j: int| 0 <= j < o2.len() && o2[j] == x;
            let jy = choose|j: int| 0 <= j < o1.len() && o1[j] == y;
            if jx < i {
                assert(o1[jx] == x);
            }
            if jy < i {
                assert(o2[jy] == y);
            }
            assert(jx > i && jy > i);
            assert(mtimes[x as int] >= mtimes[y as int]);
            assert(mtimes[y as int] >= mtimes[x as int]);
        }
    }
}

/// The newest-first order of a list of modification times is unique: two
/// orders that both list every file once, newest first, in the given order
/// among equal times, are the same order.
pub proof fn law_newest_first_order_is_unique(o1: Seq<usize>, o2: Seq<usize>, mtimes: Seq<i128>)
    requires
        newest_first(o1, mtimes),
        newest_first(o2, mtimes),
    ensures
        o1 == o2,
{
    lemma_newest_first_prefix(o1, o2, mtimes, o1.len() as int);
    assert(o1 =~= o2);
}

/// Orders files newest first by modification time, keeping the given order
/// among equal times (a stable sort).
pub fn newest_first_order(mtimes: &Vec<i128>) -> (order: Vec<usize>)
    ensures
        newest_first(order@, mtimes@),
{
    let mut order: Vec<usize> = Vec::new();
    let mut i: usize = 0;
    while i < mtimes.len()
        invariant
            i <= mtimes.len(),
            newest_first(order@, mtimes@.take(i as int)),
            forall|k: int| 0 <= k < order.len() ==> #[trigger] order@[k] < i,
        decreases mtimes.len() - i,
    {
        let t = mtimes[i];
        let mut pos: usize = 0;
        while pos < order.len() && mtimes[order[pos]] >= t
            invariant
                pos <= order.len(),
                i < mtimes.len(),
                forall|k: int| 0 <= k < order.len() ==> #[trigger] order@[k] < i,
                forall|k: int| 0 <= k < pos ==> mtimes@[#[trigger] order@[k] as int] >= t,
            decreases order.len() - pos,
        {
            pos = pos + 1;
        }
        let ghost before = order@;
        let ghost m = mtimes@.take(i as int);
        let ghost m1 = mtimes@.take(i + 1);
        order.insert(pos, i);
        assert forall|k: int| 0 <= k < before.len() implies m1[before[k] as int] == m[before[k] as int] by {
            assert(before[k] < i);
        }
        assert forall|k: int| 0 <= k < order.len() implies #[trigger] order@[k] < i + 1 by {
            if k < pos {
                assert(order@[k] == before[k]);
            } else if k > pos {
                assert(order@[k] == before[k - 1]);
            }
        }
        assert forall|a: int, b: int| 0 <= a < b < order.len() implies m1[order@[a] as int] >= m1[order@[b] as int]
            && (m1[order@[a] as int] == m1[order@[b] as int] ==> order@[a] < order@[b])
            && order@[a] != order@[b] by {
            if b < pos {
                assert(order@[a] == before[a] && order@[b] == before[b]);
            } else if b == pos {
                assert(order@[a] == before[a]);
                assert(mtimes@[before[a] as int] >= t);
            } else if a < pos {
                assert(order@[a] == before[a] && order@[b] == before[b - 1]);
                assert(mtimes@[before[a] as int] >= t);
                assert(mtimes@[before[pos as int] as int] < t);
                if a < pos {
                    assert(m[before[a] as int] >= m[before[pos as int] as int] || a == pos);
                }
            } else if a == pos {
                assert(order@[b] == before[b - 1]);
                assert(mtimes@[before[pos as int] as int] < t);
                assert(b - 1 == pos || m[before[pos as int] as int] >= m[before[b - 1] as int]);
            } else {
                assert(order@[a] == before[a - 1] && order@[b] == before[b - 1]);
            }
        }
        i = i + 1;
    }
    assert(mtimes@.take(mtimes.len() as int) == mtimes@);
    order
}

/// The backups to delete when keeping `keep_count`: none while there are at
/// most that many, else all but the newest `keep_count`, newest first.
pub fn backups_to_prune(mtimes: &Vec<i128>, keep_count: usize) -> (r: Vec<usize>)
    ensures
        mtimes.len() <= keep_count ==> r.len() == 0,
        mtimes.len() > keep_count ==> exists|order: Seq<usize>|
            newest_first(order, mtimes@) && r@ == order.subrange(keep_count as int, order.len() as int),
{
    if mtimes.len() <= keep_count {
        return Vec::new();
    }
    let order = newest_first_order(mtimes);
    let mut r: Vec<usize> = Vec::new();
    let mut k = keep_count;
    while k < order.len()
        invariant
            keep_count <= k <= order.len(),
            r@ == order@.subrange(keep_count as int, k as int),
        decreases order.len() - k,
    {
        r.push(order[k]);
        assert(r@ == order@.subrange(keep_count as int, k + 1));
        k = k + 1;
    }
    r
}


/// Deduplication leaves at most one window per (single-instance app, pid):
/// no two kept windows of a single-instance app share a process id.
pub proof fn law_dedupe_one_surface_per_process(ws: Seq<SavedWindow>, single: Seq<String>)
    ensures
        forall|i: int, j: int|
            0 <= i < j < deduped(ws, single).len() && listed(single, #[trigger] deduped(ws, single)[j].app_id@)
                && deduped(ws, single)[j].pid is Some ==> !(#[trigger] deduped(ws, single)[i].app_id@
                == deduped(ws, single)[j].app_id@ && deduped(ws, single)[i].pid == deduped(ws, single)[j].pid),
    decreases ws.len(),
{
    if ws.len() > 0 {
        law_dedupe_one_surface_per_process(ws.drop_last(), single);
        let prev = deduped(ws.drop_last(), single);
        let r = deduped(ws, single);
        assert forall|i: int, j: int|
            0 <= i < j < r.len() && listed(single, #[trigger] r[j].app_id@) && r[j].pid is Some implies !(
            #[trigger] r[i].app_id@ == r[j].app_id@ && r[i].pid == r[j].pid) by {
            if j < prev.len() {
                assert(r[i] == prev[i] && r[j] == prev[j]);
            } else {
                assert(r[i] == prev[i]);
                if r[i].app_id@ == r[j].app_id@ && r[i].pid == r[j].pid {
                    assert(repeats_surface(prev, ws.last()));
                }
            }
        }
    }
}

/// Deduplication keeps every window of an app that is not single-instance,
/// and every window without a pid.
pub proof fn law_dedupe_keeps_other_windows(ws: Seq<SavedWindow>, single: Seq<String>, w: SavedWindow)
    requires
        ws.contains(w),
        !listed(single, w.app_id@) || w.pid is None,
    ensures
        deduped(ws, single).contains(w),
    decreases ws.len(),
{
    let init = ws.drop_last();
    if ws.last() == w {
        assert(deduped(ws, single).last() == w);
    } else {
        let k = choose|k: int| 0 <= k < ws.len() && ws[k] == w;
        assert(init[k] == w);
        law_dedupe_keeps_other_windows(init, single, w);
        let prev = deduped(init, single);
        let k2 = choose|k2: int| 0 <= k2 < prev.len() && prev[k2] == w;
        assert(deduped(ws, single)[k2] == w);
    }
}

/// Skip filtering removes exactly the windows of skip-listed apps: what
/// remains holds no such window, and every other window stays.
pub proof fn law_skip_filter_exact(ws: Seq<SavedWindow>, skip: Seq<String>, w: SavedWindow)
    ensures
        without_skipped(ws, skip).contains(w) <==> (ws.contains(w) && !listed(skip, w.app_id@)),
    decreases ws.len(),
{
    if ws.len() > 0 {
        let init = ws.drop_last();
        law_skip_filter_exact(init, skip, w);
        let prev = without_skipped(init, skip);
        let r = without_skipped(ws, skip);
        if r.contains(w) {
            let k = choose|k: int| 0 <= k < r.len() && r[k] == w;
            if k < prev.len() {
                assert(prev[k] == w);
                let m = choose|m: int| 0 <= m < init.len() && init[m] == w;
                assert(ws[m] == w);
            } else {
                assert(ws[ws.len() - 1] == w);
            }
        }
        if ws.contains(w) && !listed(skip, w.app_id@) {
            let k = choose|k: int| 0 <= k < ws.len() && ws[k] == w;
            if k < init.len() {
                assert(init[k] == w);
                let m = choose|m: int| 0 <= m < prev.len() && prev[m] == w;
                assert(r[m] == w);
            } else {
                assert(r.last() == w);
            }
        }
    }
}

} // verus!
