//! Plain-value models of what the logic reads from niri's IPC replies:
//! workspaces, windows and their layout, event kinds, and workspace
//! references for move actions.
use vstd::prelude::*;

verus! {

/// A niri workspace, as far as session logic reads it.
#[derive(Debug, Clone, PartialEq, Eq)]
pub struct NiriWorkspace {
    /// Unique id of the workspace.
    pub id: u64,
    /// 1-based index on its monitor.
    pub idx: u8,
    /// Optional workspace name.
    pub name: Option<String>,
    /// Name of the output hosting the workspace.
    pub output: Option<String>,
}

/// Geometry niri reports for a window. The tile size is carried as the bit
/// patterns of its two `f64` components: the logic never computes with them.
#[derive(Debug, Clone, PartialEq, Eq)]
pub struct NiriWindowLayout {
    /// (column, tile in column), 1-based, in the scrolling layout.
    pub pos_in_scrolling_layout: Option<(usize, usize)>,
    /// `f64::to_bits` of the tile width.
    pub tile_width_bits: u64,
    /// `f64::to_bits` of the tile height.
    pub tile_height_bits: u64,
}

/// A niri window, as far as session logic reads it.
#[derive(Debug, Clone, PartialEq, Eq)]
pub struct NiriWindow {
    /// Unique id of the window.
    pub id: u64,
    /// Wayland app id.
    pub app_id: Option<String>,
    /// Process id of the client.
    pub pid: Option<i32>,
    /// Workspace the window is on.
    pub workspace_id: Option<u64>,
    /// Whether the window has keyboard focus.
    pub is_focused: bool,
    /// Window geometry.
    pub layout: NiriWindowLayout,
}

/// A workspace reference for niri's move-to-workspace action.
#[derive(Debug, Clone, PartialEq, Eq)]
pub enum WorkspaceRef {
    /// By workspace name.
    Name(String),
    /// By 1-based workspace index.
    Index(u8),
}

/// The variant of a niri event-stream message.
#[derive(Debug, Clone, Copy, PartialEq, Eq, Structural)]
pub enum EventKind {
    WorkspacesChanged,
    WorkspaceUrgencyChanged,
    WorkspaceActivated,
    WorkspaceActiveWindowChanged,
    WindowsChanged,
    WindowOpenedOrChanged,
    WindowClosed,
    WindowFocusChanged,
    WindowFocusTimestampChanged,
    WindowUrgencyChanged,
    WindowLayoutsChanged,
    KeyboardLayoutsChanged,
    KeyboardLayoutSwitched,
    OverviewOpenedOrClosed,
    ConfigLoaded,
    ScreenshotCaptured,
    CastsChanged,
    CastStartedOrChanged,
    CastStopped,
    /// A variant this model does not list.
    Other,
}

} // verus!
