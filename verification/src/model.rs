//! The screen / workspace / client data model and its well-formedness
//! predicates.  All state the manager mutates lives here as plain values;
//! cross references are indices, never pointers.

use vstd::prelude::*;

verus! {

/// Number of workspaces every screen owns.
pub const NUMBER_OF_DESKTOPS: usize = 10;

/// Largest gap width the configuration may carry, in pixels.
pub const MAX_GAP: u32 = 256;

/// Largest border size the configuration may carry, in pixels.
pub const MAX_BORDER: u32 = 256;

/// Largest width or height of a monitor, in pixels.
pub const MAX_SCREEN_DIM: i64 = 65535;

/// Largest magnitude of a monitor origin coordinate.
pub const MAX_SCREEN_ORIGIN: i64 = 32767;

/// Most clients one workspace can hold; keeps every computed pixel
/// coordinate well inside the 32-bit range the protocol uses.
pub const MAX_CLIENTS: usize = 4096;

/// Bound on the magnitude of a client coordinate.
pub const MAX_CLIENT_COORD: i32 = 0x2000_0000;

/// Bound on a client width or height.
pub const MAX_CLIENT_DIM: u32 = 65535;

/// One managed top-level window.
pub struct Client {
    /// Protocol window id; unique across the whole application.
    pub window_id: u64,
    /// Cached window title.
    pub window_name: String,
    pub x: i32,
    pub y: i32,
    pub w: u32,
    pub h: u32,
    /// Saved geometry, restored when fullscreen is left.
    pub ox: i32,
    pub oy: i32,
    pub ow: u32,
    pub oh: u32,
    /// Current border width in pixels.
    pub border: u32,
    pub minw: i32,
    pub minh: i32,
    pub maxw: i32,
    pub maxh: i32,
    pub floating: bool,
    pub fullscreen: bool,
    pub fixed: bool,
    pub urgent: bool,
    pub visible: bool,
}

/// Tiling policy tag of one workspace.
#[derive(Clone, Copy, PartialEq, Eq, Structural)]
pub enum ArrangeEngine {
    Tiled,
    Floating,
}

/// One desk of clients on a screen.  The client order is the stacking and
/// tiling order; the last client is the topmost.
pub struct Workspace {
    pub number: u64,
    pub clients: Vec<Client>,
    /// Index of the selected client, `None` exactly when no client exists.
    pub current_client: Option<usize>,
    pub arrange: ArrangeEngine,
    /// How many clients the master column takes; normalized during
    /// arrangement when out of range.
    pub master_capacity: i64,
    /// Width fraction of the master column in thousandths, strictly
    /// between 0 and 1000.
    pub master_width: u32,
}

/// Edge insets a bar or dock reserves on a screen.
pub struct BarOffsets {
    pub up: u32,
    pub down: u32,
    pub left: u32,
    pub right: u32,
}

/// One physical monitor with its workspaces.
pub struct Screen {
    pub number: i64,
    pub x: i64,
    pub y: i64,
    pub width: i64,
    pub height: i64,
    pub workspaces: Vec<Workspace>,
    pub current_workspace: usize,
    pub bar_offsets: BarOffsets,
}

/// Size bounds a client published; fields are meaningful only where the
/// matching flag is set.
#[derive(Clone, Copy)]
pub struct NormalHints {
    pub has_min: bool,
    pub has_max: bool,
    pub min_width: i32,
    pub min_height: i32,
    pub max_width: i32,
    pub max_height: i32,
}

/// What the driver reports about a window when it first appears; the
/// placement resolver works from these plain values.
pub struct WindowProbe {
    /// Owner window id, where the window declares a parent relationship.
    pub transient_for: Option<u64>,
    /// Desktop index persisted on the window from an earlier session.
    pub stored_desktop: Option<u64>,
    /// Process id the window belongs to.
    pub pid: Option<i32>,
    pub title: Option<String>,
    pub instance: Option<String>,
    pub class: Option<String>,
}

/// Transient mouse drag session; zeroed when no drag is active.
pub struct MouseState {
    pub win: u64,
    pub button: u32,
    pub pos: (i64, i64),
}

/// Pending placement for the first window of a spawned process.
pub struct AutostartRulePID {
    pub pid: i32,
    pub screen: usize,
    pub workspace: usize,
}

/// The mutable state of the whole manager.
pub struct Runtime {
    pub screens: Vec<Screen>,
    pub current_screen: usize,
    pub current_workspace: usize,
    pub current_client: Option<usize>,
    pub mouse_state: MouseState,
    pub autostart_rules: Vec<AutostartRulePID>,
}

/// Direction for screen switching actions.
#[derive(Clone, Copy, PartialEq, Eq, Structural)]
pub enum ScreenSwitching {
    Next,
    Previous,
}

/// A configured placement rule; an unset field matches anything.
pub struct PlacementRule {
    pub instance: Option<String>,
    pub class: Option<String>,
    pub title: Option<String>,
    pub rule_screen: Option<usize>,
    pub rule_workspace: Option<usize>,
}

/// Semantic action a key chord is bound to.
pub enum ActionResult {
    KillClient,
    Spawn(Vec<String>),
    MoveToScreen(ScreenSwitching),
    FocusOnScreen(ScreenSwitching),
    MoveToWorkspace(u64),
    FocusOnWorkspace(u64),
    Quit,
    UpdateMasterCapacity(i64),
    /// Delta of the master width fraction, in thousandths.
    UpdateMasterWidth(i32),
    DumpInfo,
    ToggleFloat,
    CycleStack(i64),
    PopPushStack,
    RotateStack,
    SetArrangeEngine(ArrangeEngine),
}

/// One key binding.
pub struct KeyAction {
    pub keysym: u64,
    pub modifier: u32,
    pub result: ActionResult,
}

/// Per-screen workspace naming and master split configuration.
pub struct DesktopConfig {
    /// Workspace names, one inner vector per screen.
    pub names: Vec<Vec<String>>,
    /// Master width fractions in thousandths, one inner vector per screen.
    pub splits: Vec<Vec<u32>>,
}

/// Immutable configuration supplied by the loader at startup.
pub struct Config {
    pub gap_width: u32,
    pub border_size: u32,
    pub normal_border_color: u64,
    pub active_border_color: u64,
    pub urgent_border_color: u64,
    pub focus_ignores_geometry: bool,
    pub desktops: DesktopConfig,
    pub placements: Vec<PlacementRule>,
    pub key_actions: Vec<KeyAction>,
}

/// Display-independent core flags.
pub struct WmCore {
    pub root_win: u64,
    pub wm_check_win: u64,
    pub running: bool,
}

/// The process-wide root object.
pub struct Application {
    pub config: Config,
    pub core: WmCore,
    pub runtime: Runtime,
}

/// Bounds every client's geometry must satisfy.
pub open spec fn client_wf(c: Client) -> bool {
    &&& -MAX_CLIENT_COORD <= c.x <= MAX_CLIENT_COORD
    &&& -MAX_CLIENT_COORD <= c.y <= MAX_CLIENT_COORD
    &&& -MAX_CLIENT_COORD <= c.ox <= MAX_CLIENT_COORD
    &&& -MAX_CLIENT_COORD <= c.oy <= MAX_CLIENT_COORD
    &&& 1 <= c.w <= MAX_CLIENT_DIM
    &&& 1 <= c.h <= MAX_CLIENT_DIM
    &&& 1 <= c.ow <= MAX_CLIENT_DIM
    &&& 1 <= c.oh <= MAX_CLIENT_DIM
    &&& c.border <= MAX_BORDER
    &&& 0 <= c.minw <= MAX_CLIENT_DIM
    &&& 0 <= c.minh <= MAX_CLIENT_DIM
    &&& 0 <= c.maxw <= MAX_CLIENT_DIM
    &&& 0 <= c.maxh <= MAX_CLIENT_DIM
}

/// The workspace invariant: the cursor is `None` exactly when the client
/// list is empty and in range otherwise, the master fraction is a proper
/// fraction, and every client is well formed.
pub open spec fn workspace_wf(w: Workspace) -> bool {
    &&& match w.current_client {
        None => w.clients.len() == 0,
        Some(i) => i < w.clients.len(),
    }
    &&& w.clients.len() <= MAX_CLIENTS
    &&& 0 < w.master_width < 1000
    &&& forall|c: int| 0 <= c < w.clients.len() ==> client_wf(#[trigger] w.clients[c])
}

/// Geometry bounds of one monitor.
pub open spec fn screen_geometry_wf(s: Screen) -> bool {
    &&& -MAX_SCREEN_ORIGIN <= s.x <= MAX_SCREEN_ORIGIN
    &&& -MAX_SCREEN_ORIGIN <= s.y <= MAX_SCREEN_ORIGIN
    &&& 1 <= s.width <= MAX_SCREEN_DIM
    &&& 1 <= s.height <= MAX_SCREEN_DIM
    &&& s.bar_offsets.up + s.bar_offsets.down < s.height
}

/// The screen invariant: sane geometry, the full workspace set, a valid
/// workspace cursor, and well-formed workspaces.
pub open spec fn screen_wf(s: Screen) -> bool {
    &&& screen_geometry_wf(s)
    &&& s.workspaces.len() == NUMBER_OF_DESKTOPS
    &&& s.current_workspace < s.workspaces.len()
    &&& forall|w: int| 0 <= w < s.workspaces.len() ==> workspace_wf(#[trigger] s.workspaces[w])
}

/// Whether `(s, w, c)` indexes an existing client.
pub open spec fn pos_ok(rt: Runtime, s: int, w: int, c: int) -> bool {
    &&& 0 <= s < rt.screens.len()
    &&& 0 <= w < rt.screens[s].workspaces.len()
    &&& 0 <= c < rt.screens[s].workspaces[w].clients.len()
}

/// The client stored at position `(s, w, c)`.
pub open spec fn client_at(rt: Runtime, s: int, w: int, c: int) -> Client {
    rt.screens[s].workspaces[w].clients[c]
}

/// No two clients anywhere share a window id.
pub open spec fn ids_unique(rt: Runtime) -> bool {
    forall|s1: int, w1: int, c1: int, s2: int, w2: int, c2: int|
        pos_ok(rt, s1, w1, c1) && pos_ok(rt, s2, w2, c2)
            && #[trigger] client_at(rt, s1, w1, c1).window_id
                == #[trigger] client_at(rt, s2, w2, c2).window_id
            ==> s1 == s2 && w1 == w2 && c1 == c2
}

/// Some client with id `win` is managed.
pub open spec fn window_present(rt: Runtime, win: u64) -> bool {
    exists|s: int, w: int, c: int|
        pos_ok(rt, s, w, c) && #[trigger] client_at(rt, s, w, c).window_id == win
}

/// The runtime invariant: at least one well-formed screen, global cursors
/// that mirror the active screen's and workspace's own cursors, and
/// application-wide unique window ids.
pub open spec fn runtime_wf(rt: Runtime) -> bool {
    &&& 1 <= rt.screens.len() <= 64
    &&& forall|s: int| 0 <= s < rt.screens.len() ==> screen_wf(#[trigger] rt.screens[s])
    &&& rt.current_screen < rt.screens.len()
    &&& rt.current_workspace == rt.screens[rt.current_screen as int].current_workspace
    &&& rt.current_client
        == rt.screens[rt.current_screen as int].workspaces[rt.current_workspace as int].current_client
    &&& ids_unique(rt)
}

/// Every semantic action an input chord may map to keeps its argument in
/// the range the handlers accept.
pub open spec fn action_wf(a: ActionResult) -> bool {
    match a {
        ActionResult::MoveToWorkspace(n) => n < NUMBER_OF_DESKTOPS,
        ActionResult::FocusOnWorkspace(n) => n < NUMBER_OF_DESKTOPS,
        ActionResult::CycleStack(d) => d == 1 || d == -1,
        ActionResult::UpdateMasterWidth(d) => -999 <= d <= 999,
        _ => true,
    }
}

/// The configuration invariant.
pub open spec fn config_wf(cfg: Config) -> bool {
    &&& cfg.gap_width <= MAX_GAP
    &&& cfg.border_size <= MAX_BORDER
    &&& forall|s: int| 0 <= s < cfg.desktops.splits.len()
        ==> (#[trigger] cfg.desktops.splits[s]).len() == NUMBER_OF_DESKTOPS
    &&& forall|s: int, i: int|
        0 <= s < cfg.desktops.splits.len() && 0 <= i < cfg.desktops.splits[s].len()
            ==> 0 < #[trigger] cfg.desktops.splits[s][i] < 1000
    &&& forall|s: int| 0 <= s < cfg.desktops.names.len()
        ==> (#[trigger] cfg.desktops.names[s]).len() == NUMBER_OF_DESKTOPS
    &&& forall|a: int| 0 <= a < cfg.key_actions.len()
        ==> action_wf((#[trigger] cfg.key_actions[a]).result)
}

/// The application invariant every handler preserves.
pub open spec fn wf(app: Application) -> bool {
    &&& config_wf(app.config)
    &&& runtime_wf(app.runtime)
}

/// The workspace invariant with the cursor clause dropped: the state a
/// workspace is in right after a client was removed, before the cursor
/// was clamped back into range.
pub open spec fn workspace_wf_except_cursor(w: Workspace) -> bool {
    &&& w.clients.len() <= MAX_CLIENTS
    &&& 0 < w.master_width < 1000
    &&& forall|c: int| 0 <= c < w.clients.len() ==> client_wf(#[trigger] w.clients[c])
}

/// The application invariant, except that the workspace at `(s, w)` may
/// carry a stale client cursor.  The global cursors still mirror the
/// active workspace's own cursor.
pub open spec fn wf_except_cursor(a: Application, s: int, w: int) -> bool {
    &&& config_wf(a.config)
    &&& 1 <= a.runtime.screens.len() <= 64
    &&& forall|s2: int|
        0 <= s2 < a.runtime.screens.len() ==> {
            let scr = #[trigger] a.runtime.screens[s2];
            &&& screen_geometry_wf(scr)
            &&& scr.workspaces.len() == NUMBER_OF_DESKTOPS
            &&& scr.current_workspace < scr.workspaces.len()
            &&& forall|w2: int|
                0 <= w2 < scr.workspaces.len() ==> workspace_wf_except_cursor(
                    #[trigger] scr.workspaces[w2],
                )
        }
    &&& forall|s2: int, w2: int|
        0 <= s2 < a.runtime.screens.len() && 0 <= w2 < a.runtime.screens[s2].workspaces.len() && !(
        s2 == s && w2 == w) ==> workspace_wf(#[trigger] a.runtime.screens[s2].workspaces[w2])
    &&& a.runtime.current_screen < a.runtime.screens.len()
    &&& a.runtime.current_workspace == a.runtime.screens[a.runtime.current_screen as int].current_workspace
    &&& a.runtime.current_client
        == a.runtime.screens[a.runtime.current_screen as int].workspaces[a.runtime.current_workspace as int].current_client
    &&& ids_unique(a.runtime)
}

/// Two workspaces that agree on everything but the stored clients
/// themselves (the client count still agrees).
pub open spec fn ws_same_structure(w1: Workspace, w2: Workspace) -> bool {
    &&& w2.number == w1.number
    &&& w2.current_client == w1.current_client
    &&& w2.arrange == w1.arrange
    &&& w2.master_capacity == w1.master_capacity
    &&& w2.master_width == w1.master_width
    &&& w2.clients.len() == w1.clients.len()
}

/// Two screens of the same shape: geometry, cursors and counts agree.
pub open spec fn screen_same_structure(s1: Screen, s2: Screen) -> bool {
    &&& s2.number == s1.number
    &&& s2.x == s1.x
    &&& s2.y == s1.y
    &&& s2.width == s1.width
    &&& s2.height == s1.height
    &&& s2.current_workspace == s1.current_workspace
    &&& s2.bar_offsets == s1.bar_offsets
    &&& s2.workspaces.len() == s1.workspaces.len()
    &&& forall|w: int|
        0 <= w < s1.workspaces.len() ==> ws_same_structure(
            #[trigger] s1.workspaces[w],
            s2.workspaces[w],
        )
}

/// Two applications of the same shape: everything agrees except possibly
/// the fields of individual clients.
pub open spec fn app_same_structure(a1: Application, a2: Application) -> bool {
    &&& a2.config == a1.config
    &&& a2.core == a1.core
    &&& a2.runtime.current_screen == a1.runtime.current_screen
    &&& a2.runtime.current_workspace == a1.runtime.current_workspace
    &&& a2.runtime.current_client == a1.runtime.current_client
    &&& a2.runtime.mouse_state == a1.runtime.mouse_state
    &&& a2.runtime.autostart_rules == a1.runtime.autostart_rules
    &&& a2.runtime.screens.len() == a1.runtime.screens.len()
    &&& forall|s: int|
        0 <= s < a1.runtime.screens.len() ==> screen_same_structure(
            #[trigger] a1.runtime.screens[s],
            a2.runtime.screens[s],
        )
}

/// `a2` is `a1` with exactly the client at `(s, w, c)` replaced by
/// `newc`; every other value, cursor and count is untouched.
pub open spec fn client_replaced_at(
    a1: Application,
    a2: Application,
    s: int,
    w: int,
    c: int,
    newc: Client,
) -> bool {
    &&& a2.config == a1.config
    &&& a2.core == a1.core
    &&& a2.runtime.current_screen == a1.runtime.current_screen
    &&& a2.runtime.current_workspace == a1.runtime.current_workspace
    &&& a2.runtime.current_client == a1.runtime.current_client
    &&& a2.runtime.mouse_state == a1.runtime.mouse_state
    &&& a2.runtime.autostart_rules == a1.runtime.autostart_rules
    &&& a2.runtime.screens.len() == a1.runtime.screens.len()
    &&& forall|s2: int|
        0 <= s2 < a1.runtime.screens.len() && s2 != s ==> a2.runtime.screens[s2]
            == a1.runtime.screens[s2]
    &&& a2.runtime.screens[s] == Screen {
        workspaces: a2.runtime.screens[s].workspaces,
        ..a1.runtime.screens[s]
    }
    &&& a2.runtime.screens[s].workspaces.len() == a1.runtime.screens[s].workspaces.len()
    &&& forall|w2: int|
        0 <= w2 < a1.runtime.screens[s].workspaces.len() && w2 != w
            ==> a2.runtime.screens[s].workspaces[w2] == a1.runtime.screens[s].workspaces[w2]
    &&& a2.runtime.screens[s].workspaces[w] == Workspace {
        clients: a2.runtime.screens[s].workspaces[w].clients,
        ..a1.runtime.screens[s].workspaces[w]
    }
    &&& a2.runtime.screens[s].workspaces[w].clients.len()
        == a1.runtime.screens[s].workspaces[w].clients.len()
    &&& forall|c2: int|
        0 <= c2 < a1.runtime.screens[s].workspaces[w].clients.len() && c2 != c ==> client_at(
            a2.runtime,
            s,
            w,
            c2,
        ) == client_at(a1.runtime, s, w, c2)
    &&& client_at(a2.runtime, s, w, c) == newc
}

/// Unique ids carry over to a runtime of the same shape whose clients
/// kept their window ids.
pub proof fn lemma_ids_unique_pointwise(r1: Runtime, r2: Runtime)
    requires
        ids_unique(r1),
        r2.screens.len() == r1.screens.len(),
        forall|s: int|
            0 <= s < r1.screens.len() ==> (#[trigger] r2.screens[s]).workspaces.len()
                == r1.screens[s].workspaces.len(),
        forall|s: int, w: int|
            0 <= s < r1.screens.len() && 0 <= w < r1.screens[s].workspaces.len()
                ==> (#[trigger] r2.screens[s].workspaces[w]).clients.len()
                == r1.screens[s].workspaces[w].clients.len(),
        forall|s: int, w: int, c: int|
            pos_ok(r1, s, w, c) ==> #[trigger] client_at(r2, s, w, c).window_id == client_at(
                r1,
                s,
                w,
                c,
            ).window_id,
    ensures
        ids_unique(r2),
{
    assert forall|s1: int, w1: int, c1: int, s2: int, w2: int, c2: int|
        pos_ok(r2, s1, w1, c1) && pos_ok(r2, s2, w2, c2) && #[trigger] client_at(
            r2,
            s1,
            w1,
            c1,
        ).window_id == #[trigger] client_at(r2, s2, w2, c2).window_id implies s1 == s2 && w1 == w2
        && c1 == c2 by {
        assert(pos_ok(r1, s1, w1, c1));
        assert(pos_ok(r1, s2, w2, c2));
        assert(client_at(r2, s1, w1, c1).window_id == client_at(r1, s1, w1, c1).window_id);
        assert(client_at(r2, s2, w2, c2).window_id == client_at(r1, s2, w2, c2).window_id);
    }
}

/// Everything but the clients of the workspace at `(s, w)` agrees
/// between the two runtimes (including every other workspace's value).
pub open spec fn runtimes_agree_except_clients(r1: Runtime, r2: Runtime, s: int, w: int) -> bool {
    &&& r2.screens.len() == r1.screens.len()
    &&& forall|s2: int|
        0 <= s2 < r1.screens.len() && s2 != s ==> r2.screens[s2] == r1.screens[s2]
    &&& 0 <= s < r1.screens.len()
    &&& r2.screens[s].workspaces.len() == r1.screens[s].workspaces.len()
    &&& forall|w2: int|
        0 <= w2 < r1.screens[s].workspaces.len() && w2 != w ==> r2.screens[s].workspaces[w2]
            == r1.screens[s].workspaces[w2]
    &&& 0 <= w < r1.screens[s].workspaces.len()
}

/// Unique ids survive removing the client at `(s, w, k)`.
pub proof fn lemma_ids_unique_after_remove(r1: Runtime, r2: Runtime, s: int, w: int, k: int)
    requires
        ids_unique(r1),
        runtimes_agree_except_clients(r1, r2, s, w),
        0 <= k < r1.screens[s].workspaces[w].clients.len(),
        r2.screens[s].workspaces[w].clients@ == r1.screens[s].workspaces[w].clients@.remove(k),
    ensures
        ids_unique(r2),
{
    let f = |s2: int, w2: int, c2: int| -> (int, int, int)
        {
            if s2 == s && w2 == w && c2 >= k {
                (s2, w2, c2 + 1)
            } else {
                (s2, w2, c2)
            }
        };
    assert forall|s1: int, w1: int, c1: int, s2: int, w2: int, c2: int|
        pos_ok(r2, s1, w1, c1) && pos_ok(r2, s2, w2, c2) && #[trigger] client_at(
            r2,
            s1,
            w1,
            c1,
        ).window_id == #[trigger] client_at(r2, s2, w2, c2).window_id implies s1 == s2 && w1 == w2
        && c1 == c2 by {
        let p1 = f(s1, w1, c1);
        let p2 = f(s2, w2, c2);
        assert(pos_ok(r1, p1.0, p1.1, p1.2) && client_at(r2, s1, w1, c1) == client_at(
            r1,
            p1.0,
            p1.1,
            p1.2,
        ));
        assert(pos_ok(r1, p2.0, p2.1, p2.2) && client_at(r2, s2, w2, c2) == client_at(
            r1,
            p2.0,
            p2.1,
            p2.2,
        ));
    }
}

/// Unique ids survive appending a client with a fresh window id at
/// `(s, w)`.
pub proof fn lemma_ids_unique_after_push(r1: Runtime, r2: Runtime, s: int, w: int, newc: Client)
    requires
        ids_unique(r1),
        runtimes_agree_except_clients(r1, r2, s, w),
        !window_present(r1, newc.window_id),
        r2.screens[s].workspaces[w].clients@ == r1.screens[s].workspaces[w].clients@.push(newc),
    ensures
        ids_unique(r2),
{
    let oldlen = r1.screens[s].workspaces[w].clients.len() as int;
    assert forall|s1: int, w1: int, c1: int, s2: int, w2: int, c2: int|
        pos_ok(r2, s1, w1, c1) && pos_ok(r2, s2, w2, c2) && #[trigger] client_at(
            r2,
            s1,
            w1,
            c1,
        ).window_id == #[trigger] client_at(r2, s2, w2, c2).window_id implies s1 == s2 && w1 == w2
        && c1 == c2 by {
        let fresh1 = s1 == s && w1 == w && c1 == oldlen;
        let fresh2 = s2 == s && w2 == w && c2 == oldlen;
        if fresh1 && fresh2 {
        } else if fresh1 {
            assert(pos_ok(r1, s2, w2, c2) && client_at(r2, s2, w2, c2) == client_at(
                r1,
                s2,
                w2,
                c2,
            ));
            assert(client_at(r1, s2, w2, c2).window_id == newc.window_id);
            assert(window_present(r1, newc.window_id));
        } else if fresh2 {
            assert(pos_ok(r1, s1, w1, c1) && client_at(r2, s1, w1, c1) == client_at(
                r1,
                s1,
                w1,
                c1,
            ));
            assert(client_at(r1, s1, w1, c1).window_id == newc.window_id);
            assert(window_present(r1, newc.window_id));
        } else {
            assert(pos_ok(r1, s1, w1, c1) && client_at(r2, s1, w1, c1) == client_at(
                r1,
                s1,
                w1,
                c1,
            ));
            assert(pos_ok(r1, s2, w2, c2) && client_at(r2, s2, w2, c2) == client_at(
                r1,
                s2,
                w2,
                c2,
            ));
        }
    }
}

/// Unique ids survive moving the client at `(sa, wa, k)` to the end of
/// the workspace at `(sb, wb)` by value.
pub proof fn lemma_ids_unique_after_transfer(
    r1: Runtime,
    r2: Runtime,
    sa: int,
    wa: int,
    k: int,
    sb: int,
    wb: int,
)
    requires
        ids_unique(r1),
        r2.screens.len() == r1.screens.len(),
        forall|s2: int|
            0 <= s2 < r1.screens.len() && s2 != sa && s2 != sb ==> r2.screens[s2]
                == r1.screens[s2],
        0 <= sa < r1.screens.len(),
        0 <= sb < r1.screens.len(),
        r2.screens[sa].workspaces.len() == r1.screens[sa].workspaces.len(),
        r2.screens[sb].workspaces.len() == r1.screens[sb].workspaces.len(),
        forall|s2: int, w2: int|
            0 <= s2 < r1.screens.len() && 0 <= w2 < r1.screens[s2].workspaces.len() && !(s2 == sa
                && w2 == wa) && !(s2 == sb && w2 == wb)
                ==> #[trigger] r2.screens[s2].workspaces[w2] == r1.screens[s2].workspaces[w2],
        0 <= wa < r1.screens[sa].workspaces.len(),
        0 <= wb < r1.screens[sb].workspaces.len(),
        0 <= k < r1.screens[sa].workspaces[wa].clients.len(),
        !(sa == sb && wa == wb),
        r2.screens[sa].workspaces[wa].clients@ == r1.screens[sa].workspaces[wa].clients@.remove(k),
        r2.screens[sb].workspaces[wb].clients@.len() == r1.screens[sb].workspaces[wb].clients.len()
            + 1,
        forall|c: int|
            0 <= c < r1.screens[sb].workspaces[wb].clients.len() ==> #[trigger] r2.screens[sb].workspaces[wb].clients@[c]
                == r1.screens[sb].workspaces[wb].clients@[c],
        r2.screens[sb].workspaces[wb].clients@.last().window_id
            == r1.screens[sa].workspaces[wa].clients@[k].window_id,
    ensures
        ids_unique(r2),
{
    let blen = r1.screens[sb].workspaces[wb].clients.len() as int;
    let f = |s2: int, w2: int, c2: int| -> (int, int, int)
        {
            if s2 == sa && w2 == wa && c2 >= k {
                (s2, w2, c2 + 1)
            } else if s2 == sb && w2 == wb && c2 == blen {
                (sa, wa, k)
            } else {
                (s2, w2, c2)
            }
        };
    assert forall|s1: int, w1: int, c1: int, s2: int, w2: int, c2: int|
        pos_ok(r2, s1, w1, c1) && pos_ok(r2, s2, w2, c2) && #[trigger] client_at(
            r2,
            s1,
            w1,
            c1,
        ).window_id == #[trigger] client_at(r2, s2, w2, c2).window_id implies s1 == s2 && w1 == w2
        && c1 == c2 by {
        let p1 = f(s1, w1, c1);
        let p2 = f(s2, w2, c2);
        assert(pos_ok(r1, p1.0, p1.1, p1.2) && client_at(r2, s1, w1, c1).window_id == client_at(
            r1,
            p1.0,
            p1.1,
            p1.2,
        ).window_id);
        assert(pos_ok(r1, p2.0, p2.1, p2.2) && client_at(r2, s2, w2, c2).window_id == client_at(
            r1,
            p2.0,
            p2.1,
            p2.2,
        ).window_id);
        assert(p1 == p2);
    }
}

/// After removing the only client that owned a window id, the id is gone.
pub proof fn lemma_removed_window_absent(r1: Runtime, r2: Runtime, s: int, w: int, k: int)
    requires
        ids_unique(r1),
        runtimes_agree_except_clients(r1, r2, s, w),
        0 <= k < r1.screens[s].workspaces[w].clients.len(),
        r2.screens[s].workspaces[w].clients@ == r1.screens[s].workspaces[w].clients@.remove(k),
    ensures
        !window_present(r2, client_at(r1, s, w, k).window_id),
{
    let win = client_at(r1, s, w, k).window_id;
    assert forall|s2: int, w2: int, c2: int|
        pos_ok(r2, s2, w2, c2) implies #[trigger] client_at(r2, s2, w2, c2).window_id != win by {
        if s2 == s && w2 == w {
            if c2 >= k {
                assert(client_at(r2, s2, w2, c2) == client_at(r1, s2, w2, c2 + 1));
            } else {
                assert(client_at(r2, s2, w2, c2) == client_at(r1, s2, w2, c2));
            }
        } else {
            assert(client_at(r2, s2, w2, c2) == client_at(r1, s2, w2, c2));
        }
    }
}

/// Unique ids survive moving the client at `(s, w, k)` to the top of its
/// own workspace.
pub proof fn lemma_ids_unique_after_rotate(r1: Runtime, r2: Runtime, s: int, w: int, k: int)
    requires
        ids_unique(r1),
        runtimes_agree_except_clients(r1, r2, s, w),
        0 <= k < r1.screens[s].workspaces[w].clients.len(),
        r2.screens[s].workspaces[w].clients@ == r1.screens[s].workspaces[w].clients@.remove(
            k,
        ).push(r1.screens[s].workspaces[w].clients@[k]),
    ensures
        ids_unique(r2),
{
    let len = r1.screens[s].workspaces[w].clients.len() as int;
    let f = |s2: int, w2: int, c2: int| -> (int, int, int)
        {
            if s2 == s && w2 == w && c2 == len - 1 {
                (s2, w2, k)
            } else if s2 == s && w2 == w && c2 >= k {
                (s2, w2, c2 + 1)
            } else {
                (s2, w2, c2)
            }
        };
    assert forall|s1: int, w1: int, c1: int, s2: int, w2: int, c2: int|
        pos_ok(r2, s1, w1, c1) && pos_ok(r2, s2, w2, c2) && #[trigger] client_at(
            r2,
            s1,
            w1,
            c1,
        ).window_id == #[trigger] client_at(r2, s2, w2, c2).window_id implies s1 == s2 && w1 == w2
        && c1 == c2 by {
        let p1 = f(s1, w1, c1);
        let p2 = f(s2, w2, c2);
        assert(pos_ok(r1, p1.0, p1.1, p1.2) && client_at(r2, s1, w1, c1) == client_at(
            r1,
            p1.0,
            p1.1,
            p1.2,
        ));
        assert(pos_ok(r1, p2.0, p2.1, p2.2) && client_at(r2, s2, w2, c2) == client_at(
            r1,
            p2.0,
            p2.1,
            p2.2,
        ));
        assert(p1 == p2);
    }
}

/// Window presence carries over to a runtime of the same shape whose
/// clients kept their window ids.
pub proof fn lemma_window_present_pointwise(r1: Runtime, r2: Runtime, win: u64)
    requires
        r2.screens.len() == r1.screens.len(),
        forall|s: int|
            0 <= s < r1.screens.len() ==> (#[trigger] r2.screens[s]).workspaces.len()
                == r1.screens[s].workspaces.len(),
        forall|s: int, w: int|
            0 <= s < r1.screens.len() && 0 <= w < r1.screens[s].workspaces.len()
                ==> (#[trigger] r2.screens[s].workspaces[w]).clients.len()
                == r1.screens[s].workspaces[w].clients.len(),
        forall|s: int, w: int, c: int|
            pos_ok(r1, s, w, c) ==> #[trigger] client_at(r2, s, w, c).window_id == client_at(
                r1,
                s,
                w,
                c,
            ).window_id,
    ensures
        window_present(r1, win) == window_present(r2, win),
{
    if window_present(r1, win) {
        let (s, w, c) = choose|s: int, w: int, c: int|
            pos_ok(r1, s, w, c) && #[trigger] client_at(r1, s, w, c).window_id == win;
        assert(pos_ok(r2, s, w, c) && client_at(r2, s, w, c).window_id == win);
    }
    if window_present(r2, win) {
        let (s, w, c) = choose|s: int, w: int, c: int|
            pos_ok(r2, s, w, c) && #[trigger] client_at(r2, s, w, c).window_id == win;
        assert(pos_ok(r1, s, w, c) && client_at(r1, s, w, c).window_id == win);
    }
}

/// The position of the client holding window id `win`; meaningful only
/// when `window_present` holds.
pub open spec fn window_pos(rt: Runtime, win: u64) -> (int, int, int) {
    choose|s: int, w: int, c: int|
        pos_ok(rt, s, w, c) && #[trigger] client_at(rt, s, w, c).window_id == win
}

/// Build an empty workspace with the given number and master fraction.
pub fn init_workspace(number: u64, master_width: u32) -> (w: Workspace)
    requires
        0 < master_width < 1000,
    ensures
        workspace_wf(w),
        w.number == number,
        w.clients.len() == 0,
        w.current_client is None,
        w.arrange == ArrangeEngine::Tiled,
        w.master_capacity == 1int,
        w.master_width == master_width,
{
    Workspace {
        number,
        clients: Vec::new(),
        current_client: None,
        arrange: ArrangeEngine::Tiled,
        master_capacity: 1,
        master_width,
    }
}

/// Build a screen with its full set of empty workspaces.
pub fn init_screen(number: i64, x: i64, y: i64, width: i64, height: i64, master_width: u32) -> (s:
    Screen)
    requires
        -MAX_SCREEN_ORIGIN <= x <= MAX_SCREEN_ORIGIN,
        -MAX_SCREEN_ORIGIN <= y <= MAX_SCREEN_ORIGIN,
        1 <= width <= MAX_SCREEN_DIM,
        1 <= height <= MAX_SCREEN_DIM,
        0 < master_width < 1000,
    ensures
        screen_wf(s),
        s.number == number,
        s.x == x,
        s.y == y,
        s.width == width,
        s.height == height,
        s.current_workspace == 0,
        s.bar_offsets.up == 0,
        s.bar_offsets.down == 0,
        forall|w: int| 0 <= w < NUMBER_OF_DESKTOPS ==> (#[trigger] s.workspaces[w]).clients.len() == 0,
        forall|w: int|
            0 <= w < NUMBER_OF_DESKTOPS ==> (#[trigger] s.workspaces[w]).current_client is None,
{
    let mut workspaces: Vec<Workspace> = Vec::new();
    let mut i: usize = 0;
    while i < NUMBER_OF_DESKTOPS
        invariant
            0 < master_width < 1000,
            i <= NUMBER_OF_DESKTOPS,
            workspaces.len() == i,
            forall|w: int| 0 <= w < i ==> workspace_wf(#[trigger] workspaces[w]),
            forall|w: int| 0 <= w < i ==> (#[trigger] workspaces[w]).clients.len() == 0,
            forall|w: int| 0 <= w < i ==> (#[trigger] workspaces[w]).current_client is None,
        decreases NUMBER_OF_DESKTOPS - i,
    {
        let ws = init_workspace(i as u64, master_width);
        workspaces.push(ws);
        i = i + 1;
    }
    Screen {
        number,
        x,
        y,
        width,
        height,
        workspaces,
        current_workspace: 0,
        bar_offsets: BarOffsets { up: 0, down: 0, left: 0, right: 0 },
    }
}

/// Assemble the application state around prepared screens.
pub fn init_application(config: Config, root_win: u64, screens: Vec<Screen>) -> (a: Application)
    requires
        config_wf(config),
        1 <= screens.len() <= 64,
        forall|s: int| 0 <= s < screens.len() ==> screen_wf(#[trigger] screens[s]),
        forall|s: int, w: int|
            0 <= s < screens.len() && 0 <= w < screens[s].workspaces.len()
                ==> (#[trigger] screens[s].workspaces[w]).clients.len() == 0,
    ensures
        wf(a),
        a.config == config,
        a.core.root_win == root_win,
        a.core.running,
        a.runtime.screens == screens,
        a.runtime.current_screen == 0,
{
    let current_workspace = screens[0].current_workspace;
    let current_client = screens[0].workspaces[current_workspace].current_client;
    let a = Application {
        config,
        core: WmCore { root_win, wm_check_win: 0, running: true },
        runtime: Runtime {
            screens,
            current_screen: 0,
            current_workspace,
            current_client,
            mouse_state: MouseState { win: 0, button: 0, pos: (0, 0) },
            autostart_rules: Vec::new(),
        },
    };
    proof {
        assert(ids_unique(a.runtime));
    }
    a
}

/// Where a removal left the cursor pointing past the end, pull it back to
/// the last client; where the list emptied, clear it.
pub open spec fn shifted_cursor(cc: Option<usize>, len: nat) -> Option<usize> {
    if len == 0 {
        None
    } else {
        match cc {
            Some(i) => if i < len { Some(i) } else { Some((len - 1) as usize) },
            None => None,
        }
    }
}

/// Unique ids survive dropping the last screen wholesale.
pub proof fn lemma_ids_unique_after_screen_pop(r1: Runtime, r2: Runtime)
    requires
        ids_unique(r1),
        r2.screens.len() == r1.screens.len() - 1,
        forall|s: int| 0 <= s < r2.screens.len() ==> r2.screens[s] == r1.screens[s],
    ensures
        ids_unique(r2),
{
    assert forall|s1: int, w1: int, c1: int, s2: int, w2: int, c2: int|
        pos_ok(r2, s1, w1, c1) && pos_ok(r2, s2, w2, c2) && #[trigger] client_at(
            r2,
            s1,
            w1,
            c1,
        ).window_id == #[trigger] client_at(r2, s2, w2, c2).window_id implies s1 == s2 && w1 == w2
        && c1 == c2 by {
        assert(pos_ok(r1, s1, w1, c1) && client_at(r2, s1, w1, c1) == client_at(r1, s1, w1, c1));
        assert(pos_ok(r1, s2, w2, c2) && client_at(r2, s2, w2, c2) == client_at(r1, s2, w2, c2));
    }
}

/// Unique ids survive appending a screen that holds no clients.
pub proof fn lemma_ids_unique_after_screen_push(r1: Runtime, r2: Runtime)
    requires
        ids_unique(r1),
        r2.screens.len() == r1.screens.len() + 1,
        forall|s: int| 0 <= s < r1.screens.len() ==> r2.screens[s] == r1.screens[s],
        forall|w: int|
            0 <= w < r2.screens[r1.screens.len() as int].workspaces.len()
                ==> (#[trigger] r2.screens[r1.screens.len() as int].workspaces[w]).clients.len()
                == 0,
    ensures
        ids_unique(r2),
{
    assert forall|s1: int, w1: int, c1: int, s2: int, w2: int, c2: int|
        pos_ok(r2, s1, w1, c1) && pos_ok(r2, s2, w2, c2) && #[trigger] client_at(
            r2,
            s1,
            w1,
            c1,
        ).window_id == #[trigger] client_at(r2, s2, w2, c2).window_id implies s1 == s2 && w1 == w2
        && c1 == c2 by {
        assert(s1 < r1.screens.len() && s2 < r1.screens.len());
        assert(pos_ok(r1, s1, w1, c1) && client_at(r2, s1, w1, c1) == client_at(r1, s1, w1, c1));
        assert(pos_ok(r1, s2, w2, c2) && client_at(r2, s2, w2, c2) == client_at(r1, s2, w2, c2));
    }
}

/// One freshly reported monitor, as plain values.
pub struct MonitorInfo {
    pub number: i64,
    pub x: i64,
    pub y: i64,
    pub width: i64,
    pub height: i64,
}

/// Geometry bounds every reported monitor must satisfy.
pub open spec fn monitor_wf(m: MonitorInfo) -> bool {
    &&& -MAX_SCREEN_ORIGIN <= m.x <= MAX_SCREEN_ORIGIN
    &&& -MAX_SCREEN_ORIGIN <= m.y <= MAX_SCREEN_ORIGIN
    &&& 1 <= m.width <= MAX_SCREEN_DIM
    &&& 1 <= m.height <= MAX_SCREEN_DIM
}

} // verus!
