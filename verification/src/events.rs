//! The event handlers: one function per protocol notification kind, plus
//! the dispatcher mapping recognized input chords to semantic actions.

use vstd::prelude::*;

use crate::actions::{
    cycle_stack, cycle_stack_post, engine_set_post, focus_on_screen, focus_on_screen_post,
    focus_on_workspace, focus_on_workspace_post, kill_client, kill_post, master_capacity_post,
    master_width_post, move_to_screen, move_to_screen_post, move_to_workspace,
    move_to_workspace_post, pop_push_post, pop_push_stack, set_arrange_engine, toggle_float,
    toggle_float_post, update_master_capacity, update_master_width,
};
use crate::arrange::{arrange_visible, arrange_workspace, arranged_seq};
use crate::commands::DriverCommand;
use crate::helper::{
    find_window_indexes, get_current_client_id, match_modifier, set_urgent, show_workspace,
    show_ws_cmds, update_client_desktop, update_client_list, update_normal_hints,
};
use crate::logic::{
    focus, focus_cmds, focused_at, get_window_placement, shift_current_client_at,
    update_client_name, unfocus,
};
use crate::model::{
    action_wf, client_at, client_wf, pos_ok, screen_wf, wf, window_present, workspace_wf,
    workspace_wf_except_cursor, ActionResult, Application, Client, KeyAction, NormalHints,
    Screen, WindowProbe, Workspace, MAX_CLIENTS, MAX_CLIENT_COORD, MAX_CLIENT_DIM,
    NUMBER_OF_DESKTOPS,
};

verus! {

/// A configure request, already decoded into plain values; each `has_*`
/// flag mirrors a bit of the request's value mask.
#[derive(Clone, Copy)]
pub struct ConfigureRequest {
    pub win: u64,
    pub x: i32,
    pub y: i32,
    pub w: i32,
    pub h: i32,
    pub border: i32,
    pub sibling: u64,
    pub stack_mode: i32,
    pub value_mask: u64,
    pub has_x: bool,
    pub has_y: bool,
    pub has_w: bool,
    pub has_h: bool,
    pub has_border: bool,
}

/// A client message, already decoded into plain values.
pub enum WmMessage {
    /// A fullscreen state change request: 0 clears, 1 sets, 2 toggles.
    FullscreenState { win: u64, action: i64 },
    /// A request to activate a window.
    ActivateWindow { win: u64 },
    /// A request to switch to a global desktop index.
    SwitchDesktop { desktop: u64 },
    /// Anything else; dropped.
    Other,
}

/// Two semantic actions that mean the same thing: the same variant with
/// the same payload, comparing a spawn's arguments by value.
pub open spec fn action_equiv(x: ActionResult, y: ActionResult) -> bool {
    match (x, y) {
        (ActionResult::KillClient, ActionResult::KillClient) => true,
        (ActionResult::Spawn(a), ActionResult::Spawn(b)) => a@ == b@,
        (ActionResult::MoveToScreen(d1), ActionResult::MoveToScreen(d2)) => d1 == d2,
        (ActionResult::FocusOnScreen(d1), ActionResult::FocusOnScreen(d2)) => d1 == d2,
        (ActionResult::MoveToWorkspace(n1), ActionResult::MoveToWorkspace(n2)) => n1 == n2,
        (ActionResult::FocusOnWorkspace(n1), ActionResult::FocusOnWorkspace(n2)) => n1 == n2,
        (ActionResult::Quit, ActionResult::Quit) => true,
        (ActionResult::UpdateMasterCapacity(i1), ActionResult::UpdateMasterCapacity(i2)) => i1
            == i2,
        (ActionResult::UpdateMasterWidth(w1), ActionResult::UpdateMasterWidth(w2)) => w1 == w2,
        (ActionResult::DumpInfo, ActionResult::DumpInfo) => true,
        (ActionResult::ToggleFloat, ActionResult::ToggleFloat) => true,
        (ActionResult::CycleStack(d1), ActionResult::CycleStack(d2)) => d1 == d2,
        (ActionResult::PopPushStack, ActionResult::PopPushStack) => true,
        (ActionResult::RotateStack, ActionResult::RotateStack) => true,
        (ActionResult::SetArrangeEngine(e1), ActionResult::SetArrangeEngine(e2)) => e1 == e2,
        _ => false,
    }
}

/// Copy a vector of strings by value.
fn clone_string_vec(v: &Vec<String>) -> (r: Vec<String>)
    ensures
        r@ == v@,
{
    let mut r: Vec<String> = Vec::new();
    let n = v.len();
    let mut i: usize = 0;
    while i < n
        invariant
            n == v@.len(),
            i <= n,
            r@.len() == i,
            forall|j: int| 0 <= j < i ==> r@[j] == v@[j],
        decreases n - i,
    {
        r.push(v[i].clone());
        i = i + 1;
    }
    assert(r@ =~= v@);
    r
}

/// Copy a semantic action so the dispatcher can run it while the
/// configuration stays borrowed elsewhere.
fn clone_action(a: &ActionResult) -> (r: ActionResult)
    ensures
        action_equiv(r, *a),
        action_wf(*a) ==> action_wf(r),
{
    match a {
        ActionResult::KillClient => ActionResult::KillClient,
        ActionResult::Spawn(cmd) => ActionResult::Spawn(clone_string_vec(cmd)),
        ActionResult::MoveToScreen(d) => ActionResult::MoveToScreen(*d),
        ActionResult::FocusOnScreen(d) => ActionResult::FocusOnScreen(*d),
        ActionResult::MoveToWorkspace(n) => ActionResult::MoveToWorkspace(*n),
        ActionResult::FocusOnWorkspace(n) => ActionResult::FocusOnWorkspace(*n),
        ActionResult::Quit => ActionResult::Quit,
        ActionResult::UpdateMasterCapacity(i) => ActionResult::UpdateMasterCapacity(*i),
        ActionResult::UpdateMasterWidth(w) => ActionResult::UpdateMasterWidth(*w),
        ActionResult::DumpInfo => ActionResult::DumpInfo,
        ActionResult::ToggleFloat => ActionResult::ToggleFloat,
        ActionResult::CycleStack(d) => ActionResult::CycleStack(*d),
        ActionResult::PopPushStack => ActionResult::PopPushStack,
        ActionResult::RotateStack => ActionResult::RotateStack,
        ActionResult::SetArrangeEngine(ae) => ActionResult::SetArrangeEngine(*ae),
    }
}

/// What running one semantic action does, arm by arm: each case is the
/// postcondition of the function the dispatcher calls for it.
pub open spec fn action_performed(
    a1: Application,
    a2: Application,
    action: ActionResult,
    o1: Seq<DriverCommand>,
    o2: Seq<DriverCommand>,
) -> bool {
    match action {
        ActionResult::KillClient => kill_post(a1, a2, true, o1, o2),
        ActionResult::Spawn(cmd) => a2 == a1 && o2.len() == o1.len() + 1 && o2.subrange(
            0,
            o1.len() as int,
        ) == o1 && (o2.last() matches DriverCommand::Spawn { argv } && argv@ == cmd@),
        ActionResult::MoveToScreen(d) => move_to_screen_post(a1, a2, d, o1, o2),
        ActionResult::FocusOnScreen(d) => focus_on_screen_post(a1, a2, d, o1, o2),
        ActionResult::MoveToWorkspace(n) => move_to_workspace_post(a1, a2, n, o1, o2),
        ActionResult::FocusOnWorkspace(n) => focus_on_workspace_post(a1, a2, n, true, o1, o2),
        ActionResult::Quit => a2 == (Application {
            core: crate::model::WmCore { running: false, ..a1.core },
            ..a1
        }) && o2 == o1,
        ActionResult::UpdateMasterCapacity(i) => master_capacity_post(a1, a2, i, o1, o2),
        ActionResult::UpdateMasterWidth(w) => master_width_post(a1, a2, w, o1, o2),
        ActionResult::DumpInfo => a2 == a1 && o2 == o1,
        ActionResult::ToggleFloat => toggle_float_post(a1, a2, o1, o2),
        ActionResult::CycleStack(d) => cycle_stack_post(a1, a2, d, o1, o2),
        ActionResult::PopPushStack => pop_push_post(a1, a2, true, o1, o2),
        ActionResult::RotateStack => pop_push_post(a1, a2, false, o1, o2),
        ActionResult::SetArrangeEngine(ae) => engine_set_post(a1, a2, ae, o1, o2),
    }
}

/// An action's effect depends only on what the action means, not on
/// which copy of it ran.
pub proof fn lemma_action_performed_equiv(
    a1: Application,
    a2: Application,
    x: ActionResult,
    y: ActionResult,
    o1: Seq<DriverCommand>,
    o2: Seq<DriverCommand>,
)
    requires
        action_equiv(x, y),
        action_performed(a1, a2, x, o1, o2),
    ensures
        action_performed(a1, a2, y, o1, o2),
{
}

/// Run one semantic action against the state.  The closed action set is
/// matched exhaustively; each arm's precise effect is the contract of
/// the function it calls.
#[verifier::rlimit(100)]
#[verifier::spinoff_prover]
pub fn perform_action(app: &mut Application, action: &ActionResult, out: &mut Vec<DriverCommand>)
    requires
        wf(*old(app)),
        action_wf(*action),
    ensures
        wf(*final(app)),
        action_performed(*old(app), *final(app), *action, old(out)@, final(out)@),
        old(out)@.is_prefix_of(final(out)@),
{
    match action {
        ActionResult::KillClient => {
            // The shell decides politeness from the window's protocols;
            // asking politely first is its duty, so request the polite
            // close here and let it downgrade only when unsupported.
            kill_client(app, true, out);
        },
        ActionResult::Spawn(cmd) => {
            let argv = clone_string_vec(cmd);
            out.push(DriverCommand::Spawn { argv });
            proof {
                assert(out@.subrange(0, old(out)@.len() as int) =~= old(out)@);
            }
        },
        ActionResult::MoveToScreen(d) => {
            move_to_screen(app, *d, out);
        },
        ActionResult::FocusOnScreen(d) => {
            focus_on_screen(app, *d, out);
        },
        ActionResult::MoveToWorkspace(n) => {
            move_to_workspace(app, *n, out);
        },
        ActionResult::FocusOnWorkspace(n) => {
            focus_on_workspace(app, *n, true, out);
        },
        ActionResult::Quit => {
            app.core.running = false;
        },
        ActionResult::UpdateMasterCapacity(i) => {
            update_master_capacity(app, *i, out);
        },
        ActionResult::UpdateMasterWidth(w) => {
            update_master_width(app, *w, out);
        },
        ActionResult::DumpInfo => {},
        ActionResult::ToggleFloat => {
            toggle_float(app, out);
        },
        ActionResult::CycleStack(d) => {
            cycle_stack(app, *d, out);
        },
        ActionResult::PopPushStack => {
            pop_push_stack(app, true, out);
        },
        ActionResult::RotateStack => {
            pop_push_stack(app, false, out);
        },
        ActionResult::SetArrangeEngine(ae) => {
            set_arrange_engine(app, *ae, out);
        },
    }
    proof {
        assert(old(out)@.is_prefix_of(final(out)@));
    }
}

/// One binding matches the input: its resolved key code equals the
/// pressed one and the modifiers agree up to the lock bit.
pub open spec fn chord_matches(ka: KeyAction, kc: u32, keycode: u32, state: u32) -> bool {
    keycode == kc && crate::helper::cleaned_modifier(state) == crate::helper::cleaned_modifier(
        ka.modifier,
    )
}

/// The first `i` configured bindings ran against the input: every
/// matching binding performed its action, in configuration order,
/// through some chain of intermediate states; the others changed
/// nothing.
pub open spec fn dispatched_upto(
    actions: Seq<KeyAction>,
    kcs: Seq<u32>,
    keycode: u32,
    state: u32,
    i: int,
    a1: Application,
    o1: Seq<DriverCommand>,
    a2: Application,
    o2: Seq<DriverCommand>,
) -> bool
    decreases i,
{
    if i <= 0 {
        a2 == a1 && o2 == o1
    } else if i - 1 < actions.len() && i - 1 < kcs.len() && chord_matches(
        actions[i - 1],
        kcs[i - 1],
        keycode,
        state,
    ) {
        exists|am: Application, om: Seq<DriverCommand>|
            #[trigger] action_performed(am, a2, actions[i - 1].result, om, o2)
                && dispatched_upto(actions, kcs, keycode, state, i - 1, a1, o1, am, om)
    } else {
        dispatched_upto(actions, kcs, keycode, state, i - 1, a1, o1, a2, o2)
    }
}

/// Handle a key press: run every configured action whose key code and
/// modifiers match the input.  The caller resolves each binding's key
/// symbol to a key code and passes the table alongside.
pub fn key_press(
    app: &mut Application,
    keycode: u32,
    state: u32,
    keycodes: &Vec<u32>,
    out: &mut Vec<DriverCommand>,
)
    requires
        wf(*old(app)),
        keycodes.len() == old(app).config.key_actions.len(),
    ensures
        wf(*final(app)),
        old(out)@.is_prefix_of(final(out)@),
        dispatched_upto(
            old(app).config.key_actions@,
            keycodes@,
            keycode,
            state,
            old(app).config.key_actions@.len() as int,
            *old(app),
            old(out)@,
            *final(app),
            final(out)@,
        ),
{
    let total = app.config.key_actions.len();
    let mut i: usize = 0;
    while i < total
        invariant
            wf(*app),
            app.config == old(app).config,
            total == app.config.key_actions.len(),
            keycodes@.len() == total,
            i <= total,
            old(out)@.is_prefix_of(out@),
            dispatched_upto(
                old(app).config.key_actions@,
                keycodes@,
                keycode,
                state,
                i as int,
                *old(app),
                old(out)@,
                *app,
                out@,
            ),
        decreases total - i,
    {
        let modifier = app.config.key_actions[i].modifier;
        let matched = keycode == keycodes[i] && match_modifier(state, modifier);
        if matched {
            proof {
                assert(action_wf(app.config.key_actions[i as int].result));
                assert(chord_matches(
                    old(app).config.key_actions@[i as int],
                    keycodes@[i as int],
                    keycode,
                    state,
                ));
            }
            let action = clone_action(&app.config.key_actions[i].result);
            let ghost am = *app;
            let ghost om = out@;
            perform_action(app, &action, out);
            proof {
                lemma_action_performed_equiv(
                    am,
                    *app,
                    action,
                    old(app).config.key_actions@[i as int].result,
                    om,
                    out@,
                );
                assert(dispatched_upto(
                    old(app).config.key_actions@,
                    keycodes@,
                    keycode,
                    state,
                    i as int + 1,
                    *old(app),
                    old(out)@,
                    *app,
                    out@,
                ));
                assert(old(out)@.is_prefix_of(out@)) by {
                    assert(out@.subrange(0, old(out)@.len() as int) =~= old(out)@);
                }
            }
        } else {
            proof {
                assert(!chord_matches(
                    old(app).config.key_actions@[i as int],
                    keycodes@[i as int],
                    keycode,
                    state,
                ));
                assert(dispatched_upto(
                    old(app).config.key_actions@,
                    keycodes@,
                    keycode,
                    state,
                    i as int + 1,
                    *old(app),
                    old(out)@,
                    *app,
                    out@,
                ));
            }
        }
        i = i + 1;
    }
}

/// What adopting window `win` does.  A window already managed, or a
/// placement workspace at capacity, leaves everything but the consumed
/// autostart rule alone.  Otherwise a client record built from the
/// probed values (title, geometry, size bounds, the configured border)
/// is appended to the workspace the placement names and selected there
/// (and globally, when that workspace is the active one); the driver is
/// asked to watch the window, its desktop and the client list are
/// published, and the workspace is retiled and shown when it is the
/// visible one of its screen.
pub open spec fn managed_post(
    a1: Application,
    a2: Application,
    win: u64,
    probe: WindowProbe,
    x: i32,
    y: i32,
    w: u32,
    h: u32,
    hints: Option<NormalHints>,
    scan: bool,
    o1: Seq<DriverCommand>,
    o2: Seq<DriverCommand>,
) -> bool {
    if window_present(a1.runtime, win) {
        a2 == a1 && o2 == o1
    } else {
        let pl = crate::logic::placement_of(a1, probe, scan);
        let s = pl.0;
        let wsi = pl.1;
        let scr0 = a1.runtime.screens[s];
        let ws0 = scr0.workspaces[wsi];
        let k = ws0.clients.len() as int;
        let consumed_rules = match pl.3 {
            Some(i) => a1.runtime.autostart_rules@.remove(i),
            None => a1.runtime.autostart_rules@,
        };
        if ws0.clients.len() >= MAX_CLIENTS {
            &&& a2 == (Application {
                runtime: crate::model::Runtime {
                    autostart_rules: a2.runtime.autostart_rules,
                    ..a1.runtime
                },
                ..a1
            })
            &&& a2.runtime.autostart_rules@ == consumed_rules
            &&& o2 == o1
        } else {
            let visible = scr0.current_workspace as int == wsi;
            let adopted = crate::helper::apply_normal_hints(
                Client {
                    window_id: win,
                    window_name: client_at(a2.runtime, s, wsi, k).window_name,
                    x,
                    y,
                    w,
                    h,
                    ox: x,
                    oy: y,
                    ow: w,
                    oh: h,
                    border: a1.config.border_size,
                    minw: 0,
                    minh: 0,
                    maxw: 0,
                    maxh: 0,
                    floating: false,
                    fullscreen: false,
                    fixed: false,
                    urgent: false,
                    visible: false,
                },
                hints,
            );
            let pushed = ws0.clients@.push(adopted);
            let arr = arranged_seq(
                a1.config,
                scr0,
                ws0.master_capacity,
                ws0.master_width,
                pushed,
            );
            &&& a2.config == a1.config
            &&& a2.core == a1.core
            &&& a2.runtime.mouse_state == a1.runtime.mouse_state
            &&& a2.runtime.autostart_rules@ == consumed_rules
            &&& a2.runtime.current_screen == a1.runtime.current_screen
            &&& a2.runtime.current_workspace == a1.runtime.current_workspace
            &&& a2.runtime.current_client == (if s == a1.runtime.current_screen as int && wsi
                == a1.runtime.current_workspace as int {
                Some(k as usize)
            } else {
                a1.runtime.current_client
            })
            &&& a2.runtime.screens.len() == a1.runtime.screens.len()
            &&& forall|s2: int|
                0 <= s2 < a1.runtime.screens.len() && s2 != s ==> a2.runtime.screens[s2]
                    == a1.runtime.screens[s2]
            &&& a2.runtime.screens[s] == (Screen {
                workspaces: a2.runtime.screens[s].workspaces,
                ..scr0
            })
            &&& a2.runtime.screens[s].workspaces.len() == scr0.workspaces.len()
            &&& forall|w2: int|
                0 <= w2 < scr0.workspaces.len() && w2 != wsi
                    ==> a2.runtime.screens[s].workspaces[w2] == scr0.workspaces[w2]
            &&& a2.runtime.screens[s].workspaces[wsi] == (Workspace {
                clients: a2.runtime.screens[s].workspaces[wsi].clients,
                current_client: Some(k as usize),
                ..ws0
            })
            &&& a2.runtime.screens[s].workspaces[wsi].clients.len() == k + 1
            &&& client_at(a2.runtime, s, wsi, k).window_name@ == crate::logic::stored_title(
                probe.title,
            )
            &&& (visible ==> forall|p: int|
                0 <= p < k + 1 ==> client_at(a2.runtime, s, wsi, p) == (Client {
                    visible: true,
                    ..#[trigger] arr[p]
                }))
            &&& (!visible ==> forall|p: int|
                0 <= p < k ==> client_at(a2.runtime, s, wsi, p) == #[trigger] ws0.clients[p])
            &&& (!visible ==> client_at(a2.runtime, s, wsi, k) == adopted)
            &&& o2.len() >= o1.len() + 3
            &&& o2.subrange(0, o1.len() as int) == o1
            &&& o2[o1.len() as int] == (DriverCommand::GrabClientEvents { win })
            &&& o2[o1.len() as int + 1] == (DriverCommand::SetClientDesktop {
                win,
                desktop: (wsi + s * NUMBER_OF_DESKTOPS) as u64,
            })
            &&& (o2[o1.len() as int + 2] matches DriverCommand::SetClientList { .. })
            &&& (visible ==> o2.subrange(o1.len() as int + 3, o2.len() as int) == show_ws_cmds(
                scr0,
                arr,
                k + 1,
            ))
            &&& (!visible ==> o2.len() == o1.len() + 3)
        }
    }
}

/// Take a newly seen window under management: resolve its placement,
/// build its client record from the probed values, honor its size
/// bounds, select it on its workspace (and globally when that workspace
/// is the active one), publish the bookkeeping and retile its workspace
/// when visible.  A window already managed, or a full workspace, leaves
/// the state alone.
/// The state right after a window was adopted: a client record built
/// from the probed values (size bounds applied, the stored title cached,
/// the configured border, not floating, not fullscreen, not yet visible)
/// sits on top of workspace `(s, wsi)` and is selected there, and
/// globally too when that workspace is the active one.
pub open spec fn adopted_state(
    a1: Application,
    a2: Application,
    win: u64,
    title: Option<String>,
    x: i32,
    y: i32,
    w: u32,
    h: u32,
    hints: Option<NormalHints>,
    s: int,
    wsi: int,
) -> bool {
    let scr0 = a1.runtime.screens[s];
    let ws0 = scr0.workspaces[wsi];
    let k = ws0.clients.len() as int;
    let adopted = crate::helper::apply_normal_hints(
        Client {
            window_id: win,
            window_name: client_at(a2.runtime, s, wsi, k).window_name,
            x,
            y,
            w,
            h,
            ox: x,
            oy: y,
            ow: w,
            oh: h,
            border: a1.config.border_size,
            minw: 0,
            minh: 0,
            maxw: 0,
            maxh: 0,
            floating: false,
            fullscreen: false,
            fixed: false,
            urgent: false,
            visible: false,
        },
        hints,
    );
    &&& a2.config == a1.config
    &&& a2.core == a1.core
    &&& a2.runtime.mouse_state == a1.runtime.mouse_state
    &&& a2.runtime.autostart_rules == a1.runtime.autostart_rules
    &&& a2.runtime.current_screen == a1.runtime.current_screen
    &&& a2.runtime.current_workspace == a1.runtime.current_workspace
    &&& a2.runtime.current_client == (if s == a1.runtime.current_screen as int && wsi
        == a1.runtime.current_workspace as int {
        Some(k as usize)
    } else {
        a1.runtime.current_client
    })
    &&& a2.runtime.screens.len() == a1.runtime.screens.len()
    &&& forall|s2: int|
        0 <= s2 < a1.runtime.screens.len() && s2 != s ==> a2.runtime.screens[s2]
            == a1.runtime.screens[s2]
    &&& a2.runtime.screens[s] == (Screen { workspaces: a2.runtime.screens[s].workspaces, ..scr0 })
    &&& a2.runtime.screens[s].workspaces.len() == scr0.workspaces.len()
    &&& forall|w2: int|
        0 <= w2 < scr0.workspaces.len() && w2 != wsi ==> a2.runtime.screens[s].workspaces[w2]
            == scr0.workspaces[w2]
    &&& a2.runtime.screens[s].workspaces[wsi] == (Workspace {
        clients: a2.runtime.screens[s].workspaces[wsi].clients,
        current_client: Some(k as usize),
        ..ws0
    })
    &&& a2.runtime.screens[s].workspaces[wsi].clients@ == ws0.clients@.push(adopted)
    &&& client_at(a2.runtime, s, wsi, k).window_name@ == crate::logic::stored_title(title)
}

/// Build the client record for a freshly placed window and put it on top
/// of its workspace's stack, selected; ask the driver to watch the
/// window and publish its desktop.
#[verifier::rlimit(100)]
#[verifier::spinoff_prover]
fn adopt_window(
    app: &mut Application,
    win: u64,
    probe: &WindowProbe,
    x: i32,
    y: i32,
    w: u32,
    h: u32,
    hints: Option<NormalHints>,
    s: usize,
    wsi: usize,
    out: &mut Vec<DriverCommand>,
)
    requires
        wf(*old(app)),
        !window_present(old(app).runtime, win),
        s < old(app).runtime.screens.len(),
        wsi < old(app).runtime.screens[s as int].workspaces.len(),
        old(app).runtime.screens[s as int].workspaces[wsi as int].clients.len() < MAX_CLIENTS,
        -MAX_CLIENT_COORD <= x <= MAX_CLIENT_COORD,
        -MAX_CLIENT_COORD <= y <= MAX_CLIENT_COORD,
        1 <= w <= MAX_CLIENT_DIM,
        1 <= h <= MAX_CLIENT_DIM,
        match hints {
            Some(hv) => 0 <= hv.min_width <= 65535 && 0 <= hv.min_height <= 65535 && 0
                <= hv.max_width <= 65535 && 0 <= hv.max_height <= 65535,
            None => true,
        },
    ensures
        wf(*final(app)),
        adopted_state(
            *old(app),
            *final(app),
            win,
            probe.title,
            x,
            y,
            w,
            h,
            hints,
            s as int,
            wsi as int,
        ),
        final(out)@ == old(out)@ + seq![
            DriverCommand::GrabClientEvents { win },
            DriverCommand::SetClientDesktop {
                win,
                desktop: (wsi + s * NUMBER_OF_DESKTOPS) as u64,
            },
        ],
{
    // Build the client record.
    let name = match &probe.title {
        Some(t) => t.clone(),
        None => String::new(),
    };
    let mut c = Client {
        window_id: win,
        window_name: name,
        x,
        y,
        w,
        h,
        ox: x,
        oy: y,
        ow: w,
        oh: h,
        border: app.config.border_size,
        minw: 0,
        minh: 0,
        maxw: 0,
        maxh: 0,
        floating: false,
        fullscreen: false,
        fixed: false,
        urgent: false,
        visible: false,
    };
    update_normal_hints(&mut c, hints);
    let ghost adopted0 = c;

    // Subscribe to the window's events and publish its desktop.
    out.push(DriverCommand::GrabClientEvents { win });
    let desk: u64 = (wsi as u64) + (s as u64) * (NUMBER_OF_DESKTOPS as u64);
    update_client_desktop(app, win, desk, out);

    // Add it to its workspace's stack and select it there.
    let wref = &mut app.runtime.screens[s].workspaces[wsi];
    let newidx = wref.clients.len();
    wref.current_client = Some(newidx);
    wref.clients.push(c);
    // A client landing on the globally active workspace becomes the
    // globally selected client.
    let active = s == app.runtime.current_screen && wsi == app.runtime.current_workspace;
    if active {
        app.runtime.current_client = Some(newidx);
    }
    proof {
        crate::model::lemma_ids_unique_after_push(
            old(app).runtime,
            app.runtime,
            s as int,
            wsi as int,
            app.runtime.screens[s as int].workspaces[wsi as int].clients[newidx as int],
        );
        assert forall|s2: int|
            0 <= s2 < app.runtime.screens.len() implies screen_wf(
            #[trigger] app.runtime.screens[s2],
        ) by {
            assert(screen_wf(old(app).runtime.screens[s2]));
            assert forall|w2: int|
                0 <= w2 < app.runtime.screens[s2].workspaces.len() implies workspace_wf(
                #[trigger] app.runtime.screens[s2].workspaces[w2],
            ) by {
                assert(workspace_wf(old(app).runtime.screens[s2].workspaces[w2]));
                if !(s2 == s as int && w2 == wsi as int) {
                    assert(app.runtime.screens[s2].workspaces[w2] == old(
                        app,
                    ).runtime.screens[s2].workspaces[w2]);
                } else {
                    let s1c = old(app).runtime.screens[s2].workspaces[w2].clients@;
                    assert forall|c2: int|
                        0 <= c2 < app.runtime.screens[s2].workspaces[w2].clients.len()
                            implies client_wf(
                        #[trigger] app.runtime.screens[s2].workspaces[w2].clients[c2],
                    ) by {
                        if c2 < s1c.len() {
                            assert(client_wf(s1c[c2]));
                        }
                    }
                }
            }
        }
        assert(wf(*app));
        // The stored record matches the adopted-record shape named from
        // the final state.
        let ws0 = old(app).runtime.screens[s as int].workspaces[wsi as int];
        let k = ws0.clients.len() as int;
        assert(client_at(app.runtime, s as int, wsi as int, k) == adopted0);
        assert(adopted0.window_name@ == crate::logic::stored_title(probe.title));
        assert(adopted0 == crate::helper::apply_normal_hints(
            Client {
                window_id: win,
                window_name: client_at(app.runtime, s as int, wsi as int, k).window_name,
                x,
                y,
                w,
                h,
                ox: x,
                oy: y,
                ow: w,
                oh: h,
                border: old(app).config.border_size,
                minw: 0,
                minh: 0,
                maxw: 0,
                maxh: 0,
                floating: false,
                fullscreen: false,
                fixed: false,
                urgent: false,
                visible: false,
            },
            hints,
        )) by {
            assert(adopted0.window_name == client_at(
                app.runtime,
                s as int,
                wsi as int,
                k,
            ).window_name);
        }
        assert(final(out)@ =~= old(out)@ + seq![
            DriverCommand::GrabClientEvents { win },
            DriverCommand::SetClientDesktop { win, desktop: desk },
        ]);
    }
}

/// Take a newly seen window under management: resolve its placement,
/// build its client record from the probed values, honor its size
/// bounds, select it on its workspace (and globally when that workspace
/// is the active one), publish the bookkeeping and retile its workspace
/// when visible.  A window already managed, or a full workspace, leaves
/// the state alone.
#[verifier::rlimit(100)]
#[verifier::spinoff_prover]
pub fn manage_client(
    app: &mut Application,
    win: u64,
    probe: &WindowProbe,
    x: i32,
    y: i32,
    w: u32,
    h: u32,
    hints: Option<NormalHints>,
    scan: bool,
    out: &mut Vec<DriverCommand>,
)
    requires
        wf(*old(app)),
        -MAX_CLIENT_COORD <= x <= MAX_CLIENT_COORD,
        -MAX_CLIENT_COORD <= y <= MAX_CLIENT_COORD,
        1 <= w <= MAX_CLIENT_DIM,
        1 <= h <= MAX_CLIENT_DIM,
        match hints {
            Some(hv) => 0 <= hv.min_width <= 65535 && 0 <= hv.min_height <= 65535 && 0
                <= hv.max_width <= 65535 && 0 <= hv.max_height <= 65535,
            None => true,
        },
    ensures
        wf(*final(app)),
        old(out)@.is_prefix_of(final(out)@),
        managed_post(
            *old(app),
            *final(app),
            win,
            *probe,
            x,
            y,
            w,
            h,
            hints,
            scan,
            old(out)@,
            final(out)@,
        ),
{
    let found = find_window_indexes(app, win);
    if found.is_some() {
        // Already managed: nothing to do.
        return ;
    }
    let ((s, ws_index), _owner) = get_window_placement(app, probe, scan);
    if app.runtime.screens[s].workspaces[ws_index].clients.len() >= MAX_CLIENTS {
        // The workspace cannot take another client.
        return ;
    }
    let ghost a1 = *app;
    proof {
        crate::model::lemma_window_present_pointwise(old(app).runtime, a1.runtime, win);
        assert(!window_present(a1.runtime, win));
    }
    adopt_window(app, win, probe, x, y, w, h, hints, s, ws_index, out);
    let ghost apush = *app;
    let ghost opre = out@;

    // Publish the new client list.
    update_client_list(app, out);
    let ghost oc = out@;

    // Retile and show the workspace when it is the visible one of its
    // screen.
    let visible = app.runtime.screens[s].current_workspace == ws_index;
    if visible {
        arrange_workspace(app, s, ws_index);
    }
    let ghost a4 = *app;
    if visible {
        show_workspace(app, s, ws_index, out);
    }
    proof {
        assert(old(out)@.is_prefix_of(final(out)@)) by {
            assert(oc.subrange(0, opre.len() as int) == opre);
            assert forall|i2: int| 0 <= i2 < old(out)@.len() implies final(out)@[i2] == old(
                out,
            )@[i2] by {
                assert(opre[i2] == old(out)@[i2]);
                assert(oc.subrange(0, opre.len() as int)[i2] == oc[i2]);
                assert(oc[i2] == opre[i2]);
                assert(final(out)@[i2] == oc[i2]);
            }
            assert(old(out)@ =~= final(out)@.subrange(0, old(out)@.len() as int));
        }
        let a0 = *old(app);
        let pl = crate::logic::placement_of(a0, *probe, scan);
        let scr0 = a0.runtime.screens[pl.0];
        let ws0 = scr0.workspaces[pl.1];
        let k = ws0.clients.len() as int;
        assert(pl.0 == s as int && pl.1 == ws_index as int);
        assert(a1.runtime.screens == a0.runtime.screens);
        assert(adopted_state(
            a1,
            apush,
            win,
            probe.title,
            x,
            y,
            w,
            h,
            hints,
            s as int,
            ws_index as int,
        ));
        let ad = client_at(apush.runtime, s as int, ws_index as int, k);
        let pushed = ws0.clients@.push(ad);
        assert(apush.runtime.screens[s as int].workspaces[ws_index as int].clients@ == pushed);
        let namefinal = client_at(final(app).runtime, s as int, ws_index as int, k).window_name;
        assert(namefinal == ad.window_name) by {
            if visible {
                assert(client_at(a4.runtime, s as int, ws_index as int, k)
                    == crate::arrange::arranged_client(
                    a0.config,
                    apush.runtime.screens[s as int],
                    ws0.master_capacity,
                    ws0.master_width,
                    crate::arrange::num_eligible(pushed, 0, pushed.len() as int),
                    pushed[k],
                    crate::arrange::tile_index(pushed, k),
                ));
                assert(client_at(final(app).runtime, s as int, ws_index as int, k) == Client {
                    visible: true,
                    ..client_at(a4.runtime, s as int, ws_index as int, k)
                });
            } else {
                assert(client_at(final(app).runtime, s as int, ws_index as int, k)
                    == client_at(apush.runtime, s as int, ws_index as int, k));
            }
        }
        assert(client_at(final(app).runtime, s as int, ws_index as int, k).window_name@
            == crate::logic::stored_title(probe.title));
        let adopted_fin = crate::helper::apply_normal_hints(
            Client {
                window_id: win,
                window_name: namefinal,
                x,
                y,
                w,
                h,
                ox: x,
                oy: y,
                ow: w,
                oh: h,
                border: a0.config.border_size,
                minw: 0,
                minh: 0,
                maxw: 0,
                maxh: 0,
                floating: false,
                fullscreen: false,
                fixed: false,
                urgent: false,
                visible: false,
            },
            hints,
        );
        assert(adopted_fin == ad);
        assert(pushed == ws0.clients@.push(adopted_fin));
        if visible {
            let scrp = apush.runtime.screens[s as int];
            let arr = arranged_seq(
                a0.config,
                scr0,
                ws0.master_capacity,
                ws0.master_width,
                pushed,
            );
            assert(crate::arrange::ws_arranged(
                a0.config,
                scrp,
                apush.runtime.screens[s as int].workspaces[ws_index as int],
                a4.runtime.screens[s as int].workspaces[ws_index as int],
            ));
            crate::arrange::lemma_ws_arranged_seq_is_arranged_seq(
                a0.config,
                scrp,
                ws0.master_capacity,
                ws0.master_width,
                pushed,
                a4.runtime.screens[s as int].workspaces[ws_index as int].clients@,
            );
            crate::arrange::lemma_arranged_seq_same_geometry(
                a0.config,
                scr0,
                scrp,
                ws0.master_capacity,
                ws0.master_width,
                pushed,
            );
            assert(a4.runtime.screens[s as int].workspaces[ws_index as int].clients@ == arr);
            assert forall|p: int| 0 <= p < k + 1 implies client_at(
                final(app).runtime,
                s as int,
                ws_index as int,
                p,
            ) == (Client { visible: true, ..arr[p] }) by {
                assert(client_at(final(app).runtime, s as int, ws_index as int, p) == Client {
                    visible: true,
                    ..client_at(a4.runtime, s as int, ws_index as int, p)
                });
            }
            crate::helper::lemma_show_ws_cmds_same_geometry(
                scr0,
                a4.runtime.screens[s as int],
                arr,
                k + 1,
            );
            assert(final(out)@.subrange(oc.len() as int, final(out)@.len() as int)
                =~= show_ws_cmds(scr0, arr, k + 1));
        }
        assert forall|s2: int|
            0 <= s2 < a0.runtime.screens.len() && s2 != s as int
                implies final(app).runtime.screens[s2] == a0.runtime.screens[s2] by {
            assert(apush.runtime.screens[s2] == a1.runtime.screens[s2]);
            assert(a4.runtime.screens[s2] == apush.runtime.screens[s2]);
            assert(final(app).runtime.screens[s2] == a4.runtime.screens[s2]);
        }
        assert forall|w2: int|
            0 <= w2 < scr0.workspaces.len() && w2 != ws_index as int
                implies final(app).runtime.screens[s as int].workspaces[w2]
            == scr0.workspaces[w2] by {
            assert(apush.runtime.screens[s as int].workspaces[w2]
                == a1.runtime.screens[s as int].workspaces[w2]);
            assert(a4.runtime.screens[s as int].workspaces[w2]
                == apush.runtime.screens[s as int].workspaces[w2]);
            assert(final(app).runtime.screens[s as int].workspaces[w2]
                == a4.runtime.screens[s as int].workspaces[w2]);
        }
        assert(oc[opre.len() as int] matches DriverCommand::SetClientList { .. });
        assert forall|i2: int| 0 <= i2 < oc.len() && i2 < opre.len() implies oc[i2]
            == opre[i2] by {
            assert(oc.subrange(0, opre.len() as int)[i2] == oc[i2]);
        }
        assert forall|i2: int|
            old(out)@.len() <= i2 < old(out)@.len() + 3 implies final(out)@[i2] == oc[i2] by {}
        assert(opre[old(out)@.len() as int] == (DriverCommand::GrabClientEvents { win }));
        assert(opre[old(out)@.len() as int + 1] == (DriverCommand::SetClientDesktop {
            win,
            desktop: (pl.1 + pl.0 * NUMBER_OF_DESKTOPS) as u64,
        }));
        assert(final(out)@[old(out)@.len() as int] == (DriverCommand::GrabClientEvents {
            win,
        }));
        assert(final(out)@[old(out)@.len() as int + 1] == (DriverCommand::SetClientDesktop {
            win,
            desktop: (pl.1 + pl.0 * NUMBER_OF_DESKTOPS) as u64,
        }));
        assert(final(out)@[old(out)@.len() as int + 2]
            matches DriverCommand::SetClientList { .. });
        assert(final(out)@.subrange(0, old(out)@.len() as int) =~= old(out)@);
        assert(managed_post(
            a0,
            *final(app),
            win,
            *probe,
            x,
            y,
            w,
            h,
            hints,
            scan,
            old(out)@,
            final(out)@,
        ));
    }
}

/// What dropping the client at `(s, w, c)` does: the client leaves the
/// stack, the cursor is pulled back into range (propagating to the
/// global cursor when the workspace is the active one), the client list
/// is republished, and the workspace is retiled and re-shown.
pub open spec fn unmanaged_at(
    a1: Application,
    a2: Application,
    s: int,
    w: int,
    c: int,
    o1: Seq<DriverCommand>,
    o2: Seq<DriverCommand>,
) -> bool {
    let scr0 = a1.runtime.screens[s];
    let ws0 = scr0.workspaces[w];
    let removed = ws0.clients@.remove(c);
    let ncc = crate::model::shifted_cursor(ws0.current_client, removed.len() as nat);
    let active = s == a1.runtime.current_screen as int && w
        == a1.runtime.current_workspace as int;
    let shiftc = if active {
        crate::actions::shift_repair_cmds(removed, ncc)
    } else {
        Seq::<DriverCommand>::empty()
    };
    let arr = arranged_seq(a1.config, scr0, ws0.master_capacity, ws0.master_width, removed);
    &&& a2.config == a1.config
    &&& a2.core == a1.core
    &&& a2.runtime.mouse_state == a1.runtime.mouse_state
    &&& a2.runtime.autostart_rules == a1.runtime.autostart_rules
    &&& a2.runtime.current_screen == a1.runtime.current_screen
    &&& a2.runtime.current_workspace == a1.runtime.current_workspace
    &&& a2.runtime.current_client == (if active {
        ncc
    } else {
        a1.runtime.current_client
    })
    &&& a2.runtime.screens.len() == a1.runtime.screens.len()
    &&& forall|s2: int|
        0 <= s2 < a1.runtime.screens.len() && s2 != s ==> a2.runtime.screens[s2]
            == a1.runtime.screens[s2]
    &&& a2.runtime.screens[s] == (Screen { workspaces: a2.runtime.screens[s].workspaces, ..scr0 })
    &&& a2.runtime.screens[s].workspaces.len() == scr0.workspaces.len()
    &&& forall|w2: int|
        0 <= w2 < scr0.workspaces.len() && w2 != w ==> a2.runtime.screens[s].workspaces[w2]
            == scr0.workspaces[w2]
    &&& a2.runtime.screens[s].workspaces[w] == (Workspace {
        clients: a2.runtime.screens[s].workspaces[w].clients,
        current_client: ncc,
        ..ws0
    })
    &&& a2.runtime.screens[s].workspaces[w].clients.len() == removed.len()
    &&& forall|p: int|
        0 <= p < removed.len() ==> client_at(a2.runtime, s, w, p) == (Client {
            visible: true,
            ..#[trigger] arr[p]
        })
    &&& o2 == o1 + shiftc + seq![o2[(o1.len() + shiftc.len()) as int]] + show_ws_cmds(
        scr0,
        arr,
        removed.len() as int,
    )
    &&& (o2[(o1.len() + shiftc.len()) as int] matches DriverCommand::SetClientList { .. })
}

/// Drop a window from management: remove its client, pull the cursor
/// back into range, republish the client list and retile and re-show the
/// affected workspace.  A window no client owns leaves the state alone.
#[verifier::rlimit(100)]
#[verifier::spinoff_prover]
pub fn unmanage_window(app: &mut Application, win: u64, out: &mut Vec<DriverCommand>)
    requires
        wf(*old(app)),
    ensures
        wf(*final(app)),
        old(out)@.is_prefix_of(final(out)@),
        !window_present(final(app).runtime, win),
        !window_present(old(app).runtime, win) ==> *final(app) == *old(app) && final(out)@ == old(
            out,
        )@,
        forall|s: int, w: int, c: int|
            pos_ok(old(app).runtime, s, w, c) && #[trigger] client_at(
                old(app).runtime,
                s,
                w,
                c,
            ).window_id == win ==> unmanaged_at(
                *old(app),
                *final(app),
                s,
                w,
                c,
                old(out)@,
                final(out)@,
            ),
{
    let found = find_window_indexes(app, win);
    if let Some((s, w, c)) = found {
        let wref = &mut app.runtime.screens[s].workspaces[w];
        let _removed = wref.clients.remove(c);
        let ghost a1 = *app;
        proof {
            crate::model::lemma_ids_unique_after_remove(
                old(app).runtime,
                a1.runtime,
                s as int,
                w as int,
                c as int,
            );
            crate::model::lemma_removed_window_absent(
                old(app).runtime,
                a1.runtime,
                s as int,
                w as int,
                c as int,
            );
            assert forall|s2: int|
                0 <= s2 < a1.runtime.screens.len() implies {
                let scr = #[trigger] a1.runtime.screens[s2];
                &&& crate::model::screen_geometry_wf(scr)
                &&& scr.workspaces.len() == NUMBER_OF_DESKTOPS
                &&& scr.current_workspace < scr.workspaces.len()
                &&& forall|w2: int|
                    0 <= w2 < scr.workspaces.len() ==> workspace_wf_except_cursor(
                        #[trigger] scr.workspaces[w2],
                    )
            } by {
                assert(screen_wf(old(app).runtime.screens[s2]));
                assert forall|w2: int|
                    0 <= w2 < a1.runtime.screens[s2].workspaces.len()
                        implies workspace_wf_except_cursor(
                    #[trigger] a1.runtime.screens[s2].workspaces[w2],
                ) by {
                    assert(workspace_wf(old(app).runtime.screens[s2].workspaces[w2]));
                    if s2 == s as int && w2 == w as int {
                        let s1c = old(app).runtime.screens[s2].workspaces[w2].clients@;
                        assert forall|c2: int|
                            0 <= c2 < a1.runtime.screens[s2].workspaces[w2].clients.len()
                                implies client_wf(
                            #[trigger] a1.runtime.screens[s2].workspaces[w2].clients[c2],
                        ) by {
                            if c2 >= c {
                                assert(client_wf(s1c[c2 + 1]));
                            } else {
                                assert(client_wf(s1c[c2]));
                            }
                        }
                    } else {
                        assert(a1.runtime.screens[s2].workspaces[w2] == old(
                            app,
                        ).runtime.screens[s2].workspaces[w2]);
                    }
                }
            }
            assert forall|s2: int, w2: int|
                0 <= s2 < a1.runtime.screens.len() && 0 <= w2
                    < a1.runtime.screens[s2].workspaces.len() && !(s2 == s as int && w2
                    == w as int) implies workspace_wf(
                #[trigger] a1.runtime.screens[s2].workspaces[w2],
            ) by {
                assert(a1.runtime.screens[s2].workspaces[w2] == old(
                    app,
                ).runtime.screens[s2].workspaces[w2]);
                assert(workspace_wf(old(app).runtime.screens[s2].workspaces[w2]));
            }
            assert(crate::model::wf_except_cursor(a1, s as int, w as int));
        }
        shift_current_client_at(app, s, w, out);
        let ghost a2 = *app;
        proof {
            assert forall|s2: int|
                0 <= s2 < a1.runtime.screens.len()
                    implies (#[trigger] a2.runtime.screens[s2]).workspaces.len()
                == a1.runtime.screens[s2].workspaces.len() by {
                if s2 != s as int {
                    assert(a2.runtime.screens[s2] == a1.runtime.screens[s2]);
                }
            }
            assert forall|s2: int, w2: int|
                0 <= s2 < a1.runtime.screens.len() && 0 <= w2
                    < a1.runtime.screens[s2].workspaces.len()
                    implies (#[trigger] a2.runtime.screens[s2].workspaces[w2]).clients.len()
                == a1.runtime.screens[s2].workspaces[w2].clients.len() by {
                if s2 != s as int {
                    assert(a2.runtime.screens[s2] == a1.runtime.screens[s2]);
                } else if w2 != w as int {
                    assert(a2.runtime.screens[s as int].workspaces[w2]
                        == a1.runtime.screens[s as int].workspaces[w2]);
                }
            }
            assert forall|s2: int, w2: int, c2: int|
                pos_ok(a1.runtime, s2, w2, c2) implies #[trigger] client_at(
                a2.runtime,
                s2,
                w2,
                c2,
            ).window_id == client_at(a1.runtime, s2, w2, c2).window_id by {
                if s2 != s as int {
                    assert(a2.runtime.screens[s2] == a1.runtime.screens[s2]);
                } else if w2 != w as int {
                    assert(a2.runtime.screens[s as int].workspaces[w2]
                        == a1.runtime.screens[s as int].workspaces[w2]);
                } else {
                    assert(a2.runtime.screens[s as int].workspaces[w as int].clients
                        == a1.runtime.screens[s as int].workspaces[w as int].clients);
                }
            }
            crate::model::lemma_window_present_pointwise(a1.runtime, a2.runtime, win);
        }
        let ghost opre = out@;
        update_client_list(app, out);
        let ghost oc = out@;
        arrange_workspace(app, s, w);
        let ghost a4 = *app;
        show_workspace(app, s, w, out);
        proof {
            crate::model::lemma_window_present_pointwise(a2.runtime, a4.runtime, win);
            assert forall|s2: int, w2: int, c2: int|
                pos_ok(a4.runtime, s2, w2, c2) implies #[trigger] client_at(
                app.runtime,
                s2,
                w2,
                c2,
            ).window_id == client_at(a4.runtime, s2, w2, c2).window_id by {}
            crate::model::lemma_window_present_pointwise(a4.runtime, app.runtime, win);
            assert(old(out)@.is_prefix_of(final(out)@)) by {
                assert(oc.subrange(0, opre.len() as int) == opre);
                assert forall|i: int| 0 <= i < old(out)@.len() implies final(out)@[i] == old(
                    out,
                )@[i] by {
                    assert(opre[i] == old(out)@[i]);
                    assert(oc.subrange(0, opre.len() as int)[i] == oc[i]);
                    assert(oc[i] == opre[i]);
                    assert(final(out)@[i] == oc[i]);
                }
                assert(old(out)@ =~= final(out)@.subrange(0, old(out)@.len() as int));
            }
            let a0 = *old(app);
            let scr0 = a0.runtime.screens[s as int];
            let ws0 = scr0.workspaces[w as int];
            let removed = ws0.clients@.remove(c as int);
            let ncc = crate::model::shifted_cursor(ws0.current_client, removed.len() as nat);
            let active = s as int == a0.runtime.current_screen as int && w as int
                == a0.runtime.current_workspace as int;
            let shiftc = if active {
                crate::actions::shift_repair_cmds(removed, ncc)
            } else {
                Seq::<DriverCommand>::empty()
            };
            let arr = arranged_seq(
                a0.config,
                scr0,
                ws0.master_capacity,
                ws0.master_width,
                removed,
            );
            assert(a1.runtime.screens[s as int].workspaces[w as int].clients@ == removed);
            // The cursor repair emitted exactly the focus-repair work.
            assert(opre =~= old(out)@ + shiftc) by {
                if active {
                    assert(crate::logic::shift_cmds(a1, s as int, w as int)
                        =~= crate::actions::shift_repair_cmds(removed, ncc));
                } else {
                    assert(crate::logic::shift_cmds(a1, s as int, w as int) =~= Seq::<
                        DriverCommand,
                    >::empty());
                }
            }
            // The retile recomputed the remaining clients' geometry.
            let scr2 = a2.runtime.screens[s as int];
            assert(a2.runtime.screens[s as int].workspaces[w as int].clients@ == removed);
            assert(crate::arrange::ws_arranged(
                a0.config,
                scr2,
                a2.runtime.screens[s as int].workspaces[w as int],
                a4.runtime.screens[s as int].workspaces[w as int],
            ));
            crate::arrange::lemma_ws_arranged_seq_is_arranged_seq(
                a0.config,
                scr2,
                ws0.master_capacity,
                ws0.master_width,
                removed,
                a4.runtime.screens[s as int].workspaces[w as int].clients@,
            );
            crate::arrange::lemma_arranged_seq_same_geometry(
                a0.config,
                scr0,
                scr2,
                ws0.master_capacity,
                ws0.master_width,
                removed,
            );
            assert(a4.runtime.screens[s as int].workspaces[w as int].clients@ == arr);
            assert forall|p: int| 0 <= p < removed.len() implies client_at(
                final(app).runtime,
                s as int,
                w as int,
                p,
            ) == (Client { visible: true, ..arr[p] }) by {
                assert(client_at(final(app).runtime, s as int, w as int, p) == Client {
                    visible: true,
                    ..client_at(a4.runtime, s as int, w as int, p)
                });
            }
            crate::helper::lemma_show_ws_cmds_same_geometry(
                scr0,
                a4.runtime.screens[s as int],
                arr,
                removed.len() as int,
            );
            assert(final(out)@.subrange(oc.len() as int, final(out)@.len() as int)
                =~= show_ws_cmds(scr0, arr, removed.len() as int));
            // Frames: nothing else moved.
            assert forall|s2: int|
                0 <= s2 < a0.runtime.screens.len() && s2 != s as int
                    implies final(app).runtime.screens[s2] == a0.runtime.screens[s2] by {
                assert(a1.runtime.screens[s2] == a0.runtime.screens[s2]);
                assert(a2.runtime.screens[s2] == a1.runtime.screens[s2]);
                assert(a4.runtime.screens[s2] == a2.runtime.screens[s2]);
                assert(final(app).runtime.screens[s2] == a4.runtime.screens[s2]);
            }
            assert forall|w2: int|
                0 <= w2 < scr0.workspaces.len() && w2 != w as int
                    implies final(app).runtime.screens[s as int].workspaces[w2]
                == scr0.workspaces[w2] by {
                assert(a1.runtime.screens[s as int].workspaces[w2]
                    == a0.runtime.screens[s as int].workspaces[w2]);
                assert(a2.runtime.screens[s as int].workspaces[w2]
                    == a1.runtime.screens[s as int].workspaces[w2]);
                assert(a4.runtime.screens[s as int].workspaces[w2]
                    == a2.runtime.screens[s as int].workspaces[w2]);
                assert(final(app).runtime.screens[s as int].workspaces[w2]
                    == a4.runtime.screens[s as int].workspaces[w2]);
            }
            // Command assembly.
            assert(oc[opre.len() as int] matches DriverCommand::SetClientList { .. });
            assert forall|i2: int| 0 <= i2 < oc.len() && i2 < opre.len() implies oc[i2]
                == opre[i2] by {
                assert(oc.subrange(0, opre.len() as int)[i2] == oc[i2]);
            }
            assert(final(out)@[old(out)@.len() as int + shiftc.len() as int]
                matches DriverCommand::SetClientList { .. }) by {
                assert(final(out)@[opre.len() as int] == oc[opre.len() as int]);
            }
            assert(final(out)@ =~= old(out)@ + shiftc + seq![
                final(out)@[(old(out)@.len() + shiftc.len()) as int],
            ] + show_ws_cmds(scr0, arr, removed.len() as int));
            assert forall|s2: int, w2: int, c2: int|
                pos_ok(a0.runtime, s2, w2, c2) && #[trigger] client_at(
                    a0.runtime,
                    s2,
                    w2,
                    c2,
                ).window_id == win implies unmanaged_at(
                a0,
                *final(app),
                s2,
                w2,
                c2,
                old(out)@,
                final(out)@,
            ) by {
                assert(client_at(a0.runtime, s as int, w as int, c as int).window_id == win);
                assert(s2 == s as int && w2 == w as int && c2 == c as int);
            }
        }
    }
}

/// Handle a pointer crossing into a window: a tracked, non-synthetic,
/// non-inferior crossing of a managed window moves the focus to it.
pub fn enter_notify(
    app: &mut Application,
    win: u64,
    normal: bool,
    inferior: bool,
    out: &mut Vec<DriverCommand>,
)
    requires
        wf(*old(app)),
    ensures
        wf(*final(app)),
        ({
            let skip = win == old(app).core.root_win || !normal || inferior || !window_present(
                old(app).runtime,
                win,
            );
            if skip {
                *final(app) == *old(app) && final(out)@ == old(out)@
            } else {
                let unf = match crate::helper::current_client_id_spec(old(app).runtime) {
                    Some(oldwin) => seq![
                        DriverCommand::SetBorderColor {
                            win: oldwin,
                            color: old(app).config.normal_border_color,
                        },
                        DriverCommand::ReleaseDragButtons { win: oldwin },
                    ],
                    None => Seq::empty(),
                };
                &&& (forall|s: int, w: int, c: int|
                    pos_ok(old(app).runtime, s, w, c) && #[trigger] client_at(
                        old(app).runtime,
                        s,
                        w,
                        c,
                    ).window_id == win ==> focused_at(*old(app), *final(app), s, w, c))
                &&& final(out)@ == old(out)@ + unf + focus_cmds(*old(app), win)
            }
        }),
{
    if win == app.core.root_win {
        return ;
    }
    if !normal || inferior {
        return ;
    }
    let found = find_window_indexes(app, win);
    if found.is_none() {
        return ;
    }
    let cur = get_current_client_id(app);
    if let Some(cw) = cur {
        unfocus(app, cw, out);
    }
    focus(app, win, out);
    proof {
        assert(final(out)@ =~= old(out)@ + (match crate::helper::current_client_id_spec(
            old(app).runtime,
        ) {
            Some(oldwin) => seq![
                DriverCommand::SetBorderColor {
                    win: oldwin,
                    color: old(app).config.normal_border_color,
                },
                DriverCommand::ReleaseDragButtons { win: oldwin },
            ],
            None => Seq::empty(),
        }) + focus_cmds(*old(app), win));
    }
}

/// Handle a destroy notification: the window leaves management.
pub fn destroy_notify(app: &mut Application, win: u64, out: &mut Vec<DriverCommand>)
    requires
        wf(*old(app)),
    ensures
        wf(*final(app)),
        old(out)@.is_prefix_of(final(out)@),
        !window_present(final(app).runtime, win),
        !window_present(old(app).runtime, win) ==> *final(app) == *old(app) && final(out)@ == old(
            out,
        )@,
{
    unmanage_window(app, win, out);
}

/// Handle an unmap notification: a synthetic unmap of a managed window
/// only marks it withdrawn for external consumers; a real unmap drops it
/// from management.
pub fn unmap_notify(app: &mut Application, win: u64, synthetic: bool, out: &mut Vec<
    DriverCommand,
>)
    requires
        wf(*old(app)),
    ensures
        wf(*final(app)),
        old(out)@.is_prefix_of(final(out)@),
        !window_present(old(app).runtime, win) ==> *final(app) == *old(app) && final(out)@ == old(
            out,
        )@,
        window_present(old(app).runtime, win) && synthetic ==> *final(app) == *old(app)
            && final(out)@ == old(out)@.push((DriverCommand::SetWithdrawnState { win })),
        window_present(old(app).runtime, win) && !synthetic ==> !window_present(
            final(app).runtime,
            win,
        ),
{
    let found = find_window_indexes(app, win);
    if found.is_some() {
        if synthetic {
            out.push(DriverCommand::SetWithdrawnState { win });
        } else {
            unmanage_window(app, win, out);
        }
    }
}

/// Handle a property notification: a title change on anything but the
/// root window refreshes the cached title.
pub fn property_notify(app: &mut Application, win: u64, title: Option<String>)
    requires
        wf(*old(app)),
    ensures
        wf(*final(app)),
        win == old(app).core.root_win ==> *final(app) == *old(app),
        win != old(app).core.root_win ==> crate::logic::title_updated(
            *old(app),
            *final(app),
            win,
            title,
        ),
{
    if win != app.core.root_win {
        update_client_name(app, win, title);
    }
}

/// Handle a client message: a fullscreen request saves or restores the
/// window's geometry and retiles; an activation request from a window on
/// an inactive workspace marks it urgent; a desktop switch request
/// focuses that desktop.
#[verifier::rlimit(100)]
#[verifier::spinoff_prover]
pub fn client_message(app: &mut Application, msg: WmMessage, out: &mut Vec<DriverCommand>)
    requires
        wf(*old(app)),
    ensures
        wf(*final(app)),
        old(out)@.is_prefix_of(final(out)@),
        final(app).config == old(app).config,
        final(app).core == old(app).core,
        (msg matches WmMessage::Other) ==> *final(app) == *old(app) && final(out)@ == old(out)@,
        (msg matches WmMessage::FullscreenState { win, action } ==> forall|s: int, w: int, c: int|
            pos_ok(old(app).runtime, s, w, c) && #[trigger] client_at(
                old(app).runtime,
                s,
                w,
                c,
            ).window_id == win ==> {
                let cc0 = client_at(old(app).runtime, s, w, c);
                let c2 = client_at(final(app).runtime, s, w, c);
                let scr0 = old(app).runtime.screens[s];
                let sf = action == 1 || (action == 2 && cc0.fullscreen);
                &&& c2.fullscreen == sf
                // Entering fullscreen saves the size and covers the monitor.
                &&& (sf && !cc0.fullscreen ==> c2 == (Client {
                    w: scr0.width as u32,
                    h: scr0.height as u32,
                    ow: cc0.w,
                    oh: cc0.h,
                    fullscreen: true,
                    visible: c2.visible,
                    ..cc0
                }) && final(out)@.len() > old(out)@.len() && final(out)@[old(out)@.len() as int]
                    == (DriverCommand::SetFullscreenProp { win, on: true }))
                // Leaving fullscreen restores the saved size (until the
                // retile of a visible workspace recomputes it).
                &&& (!sf && cc0.fullscreen ==> c2.ow == cc0.ow && c2.oh == cc0.oh && (w
                    != scr0.current_workspace as int ==> c2 == (Client {
                    w: cc0.ow,
                    h: cc0.oh,
                    fullscreen: false,
                    visible: c2.visible,
                    ..cc0
                })) && final(out)@.len() > old(out)@.len() && final(out)@[old(out)@.len() as int]
                    == (DriverCommand::SetFullscreenProp { win, on: false }))
            }),
        (msg matches WmMessage::ActivateWindow { win } ==> {
            &&& final(app).runtime.current_screen == old(app).runtime.current_screen
            &&& final(app).runtime.current_workspace == old(app).runtime.current_workspace
            &&& final(app).runtime.current_client == old(app).runtime.current_client
            &&& (!window_present(old(app).runtime, win) ==> *final(app) == *old(app)
                && final(out)@ == old(out)@)
            &&& forall|s: int, w: int, c: int|
                pos_ok(old(app).runtime, s, w, c) && #[trigger] client_at(
                    old(app).runtime,
                    s,
                    w,
                    c,
                ).window_id == win ==> {
                    let cc0 = client_at(old(app).runtime, s, w, c);
                    let inactive = w != old(app).runtime.screens[s].current_workspace as int;
                    &&& client_at(final(app).runtime, s, w, c).urgent == (cc0.urgent || inactive)
                    // Marked urgent instead of focused: one hint update,
                    // nothing else.
                    &&& (inactive && !cc0.urgent ==> crate::model::client_replaced_at(
                        *old(app),
                        *final(app),
                        s,
                        w,
                        c,
                        Client { urgent: true, ..cc0 },
                    ) && final(out)@ == old(out)@.push(
                        (DriverCommand::SetUrgencyHint { win, urgent: true }),
                    ))
                    &&& (!(inactive && !cc0.urgent) ==> *final(app) == *old(app) && final(out)@
                        == old(out)@)
                }
        }),
        (msg matches WmMessage::SwitchDesktop { desktop } ==> {
            if desktop < (NUMBER_OF_DESKTOPS as u64) * old(app).runtime.screens.len() {
                focus_on_workspace_post(
                    *old(app),
                    *final(app),
                    desktop,
                    false,
                    old(out)@,
                    final(out)@,
                )
            } else {
                *final(app) == *old(app) && final(out)@ == old(out)@
            }
        }),
{
    match msg {
        WmMessage::FullscreenState { win, action } => {
            let found = find_window_indexes(app, win);
            if let Some((s, w, c)) = found {
                proof {
                    assert(screen_wf(app.runtime.screens[s as int]));
                    assert(workspace_wf(app.runtime.screens[s as int].workspaces[w as int]));
                    assert(client_wf(app.runtime.screens[s as int].workspaces[w as int].clients[c as int]));
                }
                let screen_width = app.runtime.screens[s].width;
                let screen_height = app.runtime.screens[s].height;
                let was_fullscreen =
                    app.runtime.screens[s].workspaces[w].clients[c].fullscreen;
                let sf = action == 1 || (action == 2 && was_fullscreen);
                if sf && !was_fullscreen {
                    // Save the geometry and cover the whole monitor.
                    let cref = &mut app.runtime.screens[s].workspaces[w].clients[c];
                    cref.ow = cref.w;
                    cref.oh = cref.h;
                    cref.w = screen_width as u32;
                    cref.h = screen_height as u32;
                    cref.fullscreen = true;
                    out.push(DriverCommand::SetFullscreenProp { win, on: true });
                } else if !sf && was_fullscreen {
                    // Restore the saved geometry.
                    let cref = &mut app.runtime.screens[s].workspaces[w].clients[c];
                    cref.w = cref.ow;
                    cref.h = cref.oh;
                    cref.fullscreen = false;
                    out.push(DriverCommand::SetFullscreenProp { win, on: false });
                }
                proof {
                    crate::model::lemma_ids_unique_pointwise(old(app).runtime, app.runtime);
                    assert forall|s2: int|
                        0 <= s2 < app.runtime.screens.len() implies screen_wf(
                        #[trigger] app.runtime.screens[s2],
                    ) by {
                        assert(screen_wf(old(app).runtime.screens[s2]));
                        assert forall|w2: int|
                            0 <= w2 < app.runtime.screens[s2].workspaces.len()
                                implies workspace_wf(
                            #[trigger] app.runtime.screens[s2].workspaces[w2],
                        ) by {
                            assert(workspace_wf(old(app).runtime.screens[s2].workspaces[w2]));
                            if s2 == s as int && w2 == w as int {
                                assert forall|c2: int|
                                    0 <= c2
                                        < app.runtime.screens[s2].workspaces[w2].clients.len()
                                        implies client_wf(
                                    #[trigger] app.runtime.screens[s2].workspaces[w2].clients[c2],
                                ) by {
                                    assert(client_wf(
                                        old(app).runtime.screens[s2].workspaces[w2].clients[c2],
                                    ));
                                }
                            } else {
                                assert(app.runtime.screens[s2].workspaces[w2] == old(
                                    app,
                                ).runtime.screens[s2].workspaces[w2]);
                            }
                        }
                    }
                    assert(wf(*app));
                }
                arrange_visible(app);
                let cs = app.runtime.current_screen;
                let cw2 = app.runtime.current_workspace;
                show_workspace(app, cs, cw2, out);
                proof {
                    assert forall|s2: int, w2: int, c2: int|
                        pos_ok(old(app).runtime, s2, w2, c2) && #[trigger] client_at(
                            old(app).runtime,
                            s2,
                            w2,
                            c2,
                        ).window_id == win implies {
                        let cc0 = client_at(old(app).runtime, s2, w2, c2);
                        let sfv = action == 1 || (action == 2 && cc0.fullscreen);
                        client_at(final(app).runtime, s2, w2, c2).fullscreen == sfv
                    } by {
                        assert(s2 == s as int && w2 == w as int && c2 == c as int);
                    }
                }
            }
        },
        WmMessage::ActivateWindow { win } => {
            let found = find_window_indexes(app, win);
            if let Some((s, w, c)) = found {
                let on_inactive = w != app.runtime.screens[s].current_workspace;
                let already_urgent = app.runtime.screens[s].workspaces[w].clients[c].urgent;
                if on_inactive && !already_urgent {
                    set_urgent(app, win, true, out);
                }
                proof {
                    assert forall|s2: int, w2: int, c2: int|
                        pos_ok(old(app).runtime, s2, w2, c2) && #[trigger] client_at(
                            old(app).runtime,
                            s2,
                            w2,
                            c2,
                        ).window_id == win implies {
                        let cc0 = client_at(old(app).runtime, s2, w2, c2);
                        let inactive = w2 != old(app).runtime.screens[s2].current_workspace as int;
                        client_at(final(app).runtime, s2, w2, c2).urgent == (cc0.urgent
                            || inactive)
                    } by {
                        assert(s2 == s as int && w2 == w as int && c2 == c as int);
                    }
                }
            }
        },
        WmMessage::SwitchDesktop { desktop } => {
            let nscreens = app.runtime.screens.len();
            if desktop < (NUMBER_OF_DESKTOPS as u64) * (nscreens as u64) {
                focus_on_workspace(app, desktop, false, out);
            }
        },
        WmMessage::Other => {},
    }
    proof {
        assert(old(out)@.is_prefix_of(final(out)@));
    }
}

/// Clamp a requested dimension into the range a client may take.
pub open spec fn clamp_dim_spec(v: int) -> u32 {
    if v < 1 {
        1u32
    } else if v > MAX_CLIENT_DIM {
        MAX_CLIENT_DIM
    } else {
        v as u32
    }
}

/// Clamp a requested coordinate into the range a client may occupy.
pub open spec fn clamp_coord_spec(v: int) -> i32 {
    if v < -MAX_CLIENT_COORD {
        (-MAX_CLIENT_COORD) as i32
    } else if v > MAX_CLIENT_COORD {
        MAX_CLIENT_COORD as i32
    } else {
        v as i32
    }
}

/// What a configure request makes of a managed client: a border-width
/// request updates the border alone; a floating client honors the
/// requested fields (clamped sane, and re-centered when it would leave
/// the screen); a tiled client is not changed at all.
pub open spec fn configured_client(c: Client, req: ConfigureRequest, scr: crate::model::Screen) -> Client {
    if req.has_border {
        Client { border: (if req.border < 0 { 0u32 } else if req.border > 256 { 256u32 } else { req.border as u32 }), ..c }
    } else if c.floating {
        let c1 = Client {
            ow: if req.has_w { c.w } else { c.ow },
            w: if req.has_w { clamp_dim_spec(req.w as int) } else { c.w },
            oh: if req.has_h { c.h } else { c.oh },
            h: if req.has_h { clamp_dim_spec(req.h as int) } else { c.h },
            ox: if req.has_x { c.x } else { c.ox },
            x: if req.has_x { clamp_coord_spec(scr.x + req.x) } else { c.x },
            oy: if req.has_y { c.y } else { c.oy },
            y: if req.has_y { clamp_coord_spec(scr.y + req.y) } else { c.y },
            ..c
        };
        let c2 = if c1.x + c1.w > scr.x + scr.width {
            Client { x: clamp_coord_spec(scr.x + (scr.width / 2 - c1.w / 2)), ..c1 }
        } else {
            c1
        };
        if c2.y + c2.h > scr.y + scr.height {
            Client { y: clamp_coord_spec(scr.y + (scr.height / 2 - c2.h / 2)), ..c2 }
        } else {
            c2
        }
    } else {
        c
    }
}

/// The driver work a configure request triggers for a managed client.
pub open spec fn configure_request_cmds(
    c: Client,
    req: ConfigureRequest,
    scr: crate::model::Screen,
) -> Seq<DriverCommand> {
    let nc = configured_client(c, req, scr);
    if req.has_border {
        Seq::empty()
    } else if c.floating {
        let confirm = if (req.has_x || req.has_y) && !(req.has_w || req.has_h) {
            seq![crate::helper::configure_cmd(nc)]
        } else {
            Seq::<DriverCommand>::empty()
        };
        confirm + if c.visible {
            seq![
                DriverCommand::MoveResize { win: c.window_id, x: nc.x, y: nc.y, w: nc.w, h: nc.h },
            ]
        } else {
            Seq::<DriverCommand>::empty()
        }
    } else {
        seq![crate::helper::configure_cmd(c)]
    }
}

/// Copy the client record at `(s, w, c)` by value.
fn client_fields(app: &Application, s: usize, w: usize, c: usize) -> (r: Client)
    requires
        pos_ok(app.runtime, s as int, w as int, c as int),
    ensures
        r == client_at(app.runtime, s as int, w as int, c as int),
{
    let cl = &app.runtime.screens[s].workspaces[w].clients[c];
    let name = cl.window_name.clone();
    Client {
        window_id: cl.window_id,
        window_name: name,
        x: cl.x,
        y: cl.y,
        w: cl.w,
        h: cl.h,
        ox: cl.ox,
        oy: cl.oy,
        ow: cl.ow,
        oh: cl.oh,
        border: cl.border,
        minw: cl.minw,
        minh: cl.minh,
        maxw: cl.maxw,
        maxh: cl.maxh,
        floating: cl.floating,
        fullscreen: cl.fullscreen,
        fixed: cl.fixed,
        urgent: cl.urgent,
        visible: cl.visible,
    }
}

/// Apply a configure request to the stored client record alone.
#[verifier::rlimit(100)]
#[verifier::spinoff_prover]
fn configure_apply_state(
    app: &mut Application,
    req: &ConfigureRequest,
    s: usize,
    w: usize,
    c: usize,
)
    requires
        wf(*old(app)),
        pos_ok(old(app).runtime, s as int, w as int, c as int),
        client_at(old(app).runtime, s as int, w as int, c as int).window_id == req.win,
    ensures
        wf(*final(app)),
        crate::model::client_replaced_at(
            *old(app),
            *final(app),
            s as int,
            w as int,
            c as int,
            configured_client(
                client_at(old(app).runtime, s as int, w as int, c as int),
                *req,
                old(app).runtime.screens[s as int],
            ),
        ),
{
    proof {
        assert(screen_wf(app.runtime.screens[s as int]));
        assert(workspace_wf(app.runtime.screens[s as int].workspaces[w as int]));
        assert(client_wf(app.runtime.screens[s as int].workspaces[w as int].clients[c as int]));
    }
    let ghost orig = client_at(old(app).runtime, s as int, w as int, c as int);
    let ghost scr = old(app).runtime.screens[s as int];
    let sx: i64 = app.runtime.screens[s].x;
    let sy: i64 = app.runtime.screens[s].y;
    let sw_: i64 = app.runtime.screens[s].width;
    let sh_: i64 = app.runtime.screens[s].height;
    let floating = app.runtime.screens[s].workspaces[w].clients[c].floating;

    if req.has_border {
        let nb: u32 = if req.border < 0 {
            0
        } else if req.border > 256 {
            256
        } else {
            req.border as u32
        };
        let name = app.runtime.screens[s].workspaces[w].clients[c].window_name.clone();
        let newc = Client {
            window_name: name,
            border: nb,
            ..client_fields(app, s, w, c)
        };
        crate::helper::set_client(app, s, w, c, newc);
        proof {
            assert(client_at(final(app).runtime, s as int, w as int, c as int)
                == configured_client(orig, *req, scr));
        }
    } else if floating {
        let c_x = app.runtime.screens[s].workspaces[w].clients[c].x;
        let c_y = app.runtime.screens[s].workspaces[w].clients[c].y;
        let c_w = app.runtime.screens[s].workspaces[w].clients[c].w;
        let c_h = app.runtime.screens[s].workspaces[w].clients[c].h;
        // Honor the requested fields, clamped sane.
        let n_w: u32 = if req.has_w {
            if req.w < 1 {
                1
            } else if req.w > MAX_CLIENT_DIM as i32 {
                MAX_CLIENT_DIM
            } else {
                req.w as u32
            }
        } else {
            c_w
        };
        let n_h: u32 = if req.has_h {
            if req.h < 1 {
                1
            } else if req.h > MAX_CLIENT_DIM as i32 {
                MAX_CLIENT_DIM
            } else {
                req.h as u32
            }
        } else {
            c_h
        };
        let mut n_x: i32 = if req.has_x {
            let v: i64 = sx + req.x as i64;
            if v < -(MAX_CLIENT_COORD as i64) {
                -MAX_CLIENT_COORD
            } else if v > MAX_CLIENT_COORD as i64 {
                MAX_CLIENT_COORD
            } else {
                v as i32
            }
        } else {
            c_x
        };
        let mut n_y: i32 = if req.has_y {
            let v: i64 = sy + req.y as i64;
            if v < -(MAX_CLIENT_COORD as i64) {
                -MAX_CLIENT_COORD
            } else if v > MAX_CLIENT_COORD as i64 {
                MAX_CLIENT_COORD
            } else {
                v as i32
            }
        } else {
            c_y
        };
        // Pull a window drifting off the right or bottom edge back to the
        // screen's center.
        if n_x as i64 + n_w as i64 > sx + sw_ {
            let v: i64 = sx + (sw_ / 2 - n_w as i64 / 2);
            n_x = if v < -(MAX_CLIENT_COORD as i64) {
                -MAX_CLIENT_COORD
            } else if v > MAX_CLIENT_COORD as i64 {
                MAX_CLIENT_COORD
            } else {
                v as i32
            };
        }
        if n_y as i64 + n_h as i64 > sy + sh_ {
            let v: i64 = sy + (sh_ / 2 - n_h as i64 / 2);
            n_y = if v < -(MAX_CLIENT_COORD as i64) {
                -MAX_CLIENT_COORD
            } else if v > MAX_CLIENT_COORD as i64 {
                MAX_CLIENT_COORD
            } else {
                v as i32
            };
        }
        let name = app.runtime.screens[s].workspaces[w].clients[c].window_name.clone();
        let newc = Client {
            window_name: name,
            x: n_x,
            y: n_y,
            w: n_w,
            h: n_h,
            ox: if req.has_x {
                c_x
            } else {
                app.runtime.screens[s].workspaces[w].clients[c].ox
            },
            oy: if req.has_y {
                c_y
            } else {
                app.runtime.screens[s].workspaces[w].clients[c].oy
            },
            ow: if req.has_w {
                c_w
            } else {
                app.runtime.screens[s].workspaces[w].clients[c].ow
            },
            oh: if req.has_h {
                c_h
            } else {
                app.runtime.screens[s].workspaces[w].clients[c].oh
            },
            ..client_fields(app, s, w, c)
        };
        crate::helper::set_client(app, s, w, c, newc);
        proof {
            assert(client_at(final(app).runtime, s as int, w as int, c as int)
                == configured_client(orig, *req, scr));
        }
    }
}


/// The request handling for a managed client at a known position.
#[verifier::rlimit(100)]
#[verifier::spinoff_prover]
fn configure_request_at(
    app: &mut Application,
    req: &ConfigureRequest,
    s: usize,
    w: usize,
    c: usize,
    out: &mut Vec<DriverCommand>,
)
    requires
        wf(*old(app)),
        pos_ok(old(app).runtime, s as int, w as int, c as int),
        client_at(old(app).runtime, s as int, w as int, c as int).window_id == req.win,
    ensures
        wf(*final(app)),
        crate::model::client_replaced_at(
            *old(app),
            *final(app),
            s as int,
            w as int,
            c as int,
            configured_client(
                client_at(old(app).runtime, s as int, w as int, c as int),
                *req,
                old(app).runtime.screens[s as int],
            ),
        ),
        final(out)@ == old(out)@ + configure_request_cmds(
            client_at(old(app).runtime, s as int, w as int, c as int),
            *req,
            old(app).runtime.screens[s as int],
        ),
{
    let ghost orig = client_at(old(app).runtime, s as int, w as int, c as int);
    let ghost scr = old(app).runtime.screens[s as int];
    let floating = app.runtime.screens[s].workspaces[w].clients[c].floating;
    let visible = app.runtime.screens[s].workspaces[w].clients[c].visible;
    configure_apply_state(app, req, s, w, c);
    proof {
        assert(client_at(app.runtime, s as int, w as int, c as int) == configured_client(
            orig,
            *req,
            scr,
        ));
        assert(pos_ok(app.runtime, s as int, w as int, c as int));
    }
    // Confirm or apply the resulting geometry.
    let moved_only = (req.has_x || req.has_y) && !(req.has_w || req.has_h);
    if !req.has_border && floating {
        if moved_only {
            let cl = &app.runtime.screens[s].workspaces[w].clients[c];
            crate::helper::configure(cl, out);
        }
        if visible {
            let win = req.win;
            let cx = app.runtime.screens[s].workspaces[w].clients[c].x;
            let cy = app.runtime.screens[s].workspaces[w].clients[c].y;
            let cw2 = app.runtime.screens[s].workspaces[w].clients[c].w;
            let ch2 = app.runtime.screens[s].workspaces[w].clients[c].h;
            out.push(DriverCommand::MoveResize { win, x: cx, y: cy, w: cw2, h: ch2 });
        }
    } else if !req.has_border {
        let cl = &app.runtime.screens[s].workspaces[w].clients[c];
        crate::helper::configure(cl, out);
    }
    proof {
        assert(final(out)@ =~= old(out)@ + configure_request_cmds(orig, *req, scr));
    }
}

/// Handle a configure request: a floating client gets the requested
/// geometry (clamped on screen), a tiled client is confirmed at its
/// engine-computed geometry, and a request for an unmanaged window is
/// forwarded to the driver unchanged.
pub fn configure_request(app: &mut Application, req: &ConfigureRequest, out: &mut Vec<
    DriverCommand,
>)
    requires
        wf(*old(app)),
    ensures
        wf(*final(app)),
        !window_present(old(app).runtime, req.win) ==> *final(app) == *old(app) && final(out)@
            == old(out)@.push((DriverCommand::ForwardConfigure {
            win: req.win,
            x: req.x,
            y: req.y,
            w: req.w,
            h: req.h,
            border: req.border,
            sibling: req.sibling,
            stack_mode: req.stack_mode,
            mask: req.value_mask,
        })),
        forall|s: int, w: int, c: int|
            pos_ok(old(app).runtime, s, w, c) && #[trigger] client_at(
                old(app).runtime,
                s,
                w,
                c,
            ).window_id == req.win ==> crate::model::client_replaced_at(
                *old(app),
                *final(app),
                s,
                w,
                c,
                configured_client(
                    client_at(old(app).runtime, s, w, c),
                    *req,
                    old(app).runtime.screens[s],
                ),
            ) && final(out)@ == old(out)@ + configure_request_cmds(
                client_at(old(app).runtime, s, w, c),
                *req,
                old(app).runtime.screens[s],
            ),
{
    let found = find_window_indexes(app, req.win);
    if let Some((s, w, c)) = found {
        configure_request_at(app, req, s, w, c, out);
        proof {
            assert forall|s2: int, w2: int, c2: int|
                pos_ok(old(app).runtime, s2, w2, c2) && #[trigger] client_at(
                    old(app).runtime,
                    s2,
                    w2,
                    c2,
                ).window_id == req.win implies s2 == s as int && w2 == w as int && c2
                == c as int by {}
        }
    } else {
        out.push(DriverCommand::ForwardConfigure {
            win: req.win,
            x: req.x,
            y: req.y,
            w: req.w,
            h: req.h,
            border: req.border,
            sibling: req.sibling,
            stack_mode: req.stack_mode,
            mask: req.value_mask,
        });
    }
}


/// Handle a button press: a press on a floating managed client starts a
/// drag session; the resize button warps the pointer to the lower right
/// corner first.
pub fn button_press(
    app: &mut Application,
    win: u64,
    button: u32,
    x_root: i32,
    y_root: i32,
    x: i32,
    y: i32,
    out: &mut Vec<DriverCommand>,
)
    requires
        wf(*old(app)),
    ensures
        wf(*final(app)),
        !window_present(old(app).runtime, win) ==> *final(app) == *old(app) && final(out)@ == old(
            out,
        )@,
        forall|s: int, w: int, c: int|
            pos_ok(old(app).runtime, s, w, c) && #[trigger] client_at(
                old(app).runtime,
                s,
                w,
                c,
            ).window_id == win ==> {
                let cc0 = client_at(old(app).runtime, s, w, c);
                if cc0.floating {
                    &&& *final(app) == (Application {
                        runtime: crate::model::Runtime {
                            mouse_state: final(app).runtime.mouse_state,
                            ..old(app).runtime
                        },
                        ..*old(app)
                    })
                    &&& final(app).runtime.mouse_state == (if button == 3 {
                        crate::model::MouseState {
                            win,
                            button,
                            pos: (
                                (x_root - x + cc0.w) as i64,
                                (y_root - y + cc0.h) as i64,
                            ),
                        }
                    } else {
                        crate::model::MouseState {
                            win,
                            button,
                            pos: (x_root as i64, y_root as i64),
                        }
                    })
                    &&& (button == 3 ==> final(out)@ == old(out)@.push(
                        (DriverCommand::WarpPointer {
                            win,
                            x: cc0.w as i32,
                            y: cc0.h as i32,
                        }),
                    ))
                    &&& (button != 3 ==> final(out)@ == old(out)@)
                } else {
                    *final(app) == *old(app) && final(out)@ == old(out)@
                }
            },
{
    let found = find_window_indexes(app, win);
    if let Some((s, w, c)) = found {
        proof {
            assert(screen_wf(app.runtime.screens[s as int]));
            assert(workspace_wf(app.runtime.screens[s as int].workspaces[w as int]));
            assert(client_wf(app.runtime.screens[s as int].workspaces[w as int].clients[c as int]));
        }
        let floating = app.runtime.screens[s].workspaces[w].clients[c].floating;
        if floating {
            app.runtime.mouse_state = crate::model::MouseState {
                win,
                button,
                pos: (x_root as i64, y_root as i64),
            };
            if button == 3 {
                let cw2 = app.runtime.screens[s].workspaces[w].clients[c].w;
                let ch2 = app.runtime.screens[s].workspaces[w].clients[c].h;
                out.push(DriverCommand::WarpPointer { win, x: cw2 as i32, y: ch2 as i32 });
                app.runtime.mouse_state.pos = (
                    (x_root as i64) - (x as i64) + (cw2 as i64),
                    (y_root as i64) - (y as i64) + (ch2 as i64),
                );
            }
        }
        proof {
            crate::model::lemma_ids_unique_pointwise(old(app).runtime, app.runtime);
            assert(wf(*app));
            assert forall|s2: int, w2: int, c2: int|
                pos_ok(old(app).runtime, s2, w2, c2) && #[trigger] client_at(
                    old(app).runtime,
                    s2,
                    w2,
                    c2,
                ).window_id == win implies s2 == s as int && w2 == w as int && c2 == c as int by {
                assert(client_at(old(app).runtime, s as int, w as int, c as int).window_id
                    == win);
            }
        }
    }
}

/// Handle a button release: the drag session ends.
pub fn button_release(app: &mut Application)
    requires
        wf(*old(app)),
    ensures
        wf(*final(app)),
        *final(app) == (Application {
            runtime: crate::model::Runtime {
                mouse_state: crate::model::MouseState { win: 0, button: 0, pos: (0, 0) },
                ..old(app).runtime
            },
            ..*old(app)
        }),
{
    app.runtime.mouse_state = crate::model::MouseState { win: 0, button: 0, pos: (0, 0) };
    proof {
        crate::model::lemma_ids_unique_pointwise(old(app).runtime, app.runtime);
    }
}

/// Handle a configure notification: one for the root window means the
/// monitor topology changed, so the screens are rebuilt from the given
/// monitor list and the desktop metadata is republished.  Notifications
/// for other windows carry no work.
pub fn configure_notify(
    app: &mut Application,
    win: u64,
    monitors: &Vec<crate::model::MonitorInfo>,
    out: &mut Vec<DriverCommand>,
)
    requires
        wf(*old(app)),
        win == old(app).core.root_win ==> 1 <= monitors.len() <= 64 && (forall|i: int|
            0 <= i < monitors.len() ==> crate::model::monitor_wf(#[trigger] monitors@[i])),
    ensures
        wf(*final(app)),
        old(out)@.is_prefix_of(final(out)@),
        win != old(app).core.root_win ==> *final(app) == *old(app) && final(out)@ == old(out)@,
        win == old(app).core.root_win ==> final(app).runtime.screens.len() == monitors.len(),
{
    if win == app.core.root_win {
        crate::logic::update_screens(app, monitors, out);
        crate::logic::update_desktops(app, out);
        proof {
            assert(old(out)@.is_prefix_of(final(out)@)) by {
                assert(old(out)@ =~= final(out)@.subrange(0, old(out)@.len() as int));
            }
        }
    }
}

/// Handle a map request: the window is taken under management.
pub fn map_request(
    app: &mut Application,
    win: u64,
    probe: &WindowProbe,
    x: i32,
    y: i32,
    w: u32,
    h: u32,
    hints: Option<NormalHints>,
    out: &mut Vec<DriverCommand>,
)
    requires
        wf(*old(app)),
        -MAX_CLIENT_COORD <= x <= MAX_CLIENT_COORD,
        -MAX_CLIENT_COORD <= y <= MAX_CLIENT_COORD,
        1 <= w <= MAX_CLIENT_DIM,
        1 <= h <= MAX_CLIENT_DIM,
        match hints {
            Some(hv) => 0 <= hv.min_width <= 65535 && 0 <= hv.min_height <= 65535 && 0
                <= hv.max_width <= 65535 && 0 <= hv.max_height <= 65535,
            None => true,
        },
    ensures
        wf(*final(app)),
        old(out)@.is_prefix_of(final(out)@),
        managed_post(
            *old(app),
            *final(app),
            win,
            *probe,
            x,
            y,
            w,
            h,
            hints,
            false,
            old(out)@,
            final(out)@,
        ),
{
    manage_client(app, win, probe, x, y, w, h, hints, false, out);
}

/// Handle pointer motion during a drag: a move drag shifts the floating
/// client by the pointer delta since the last motion, a resize drag
/// grows its size by it; the session's reference position advances and
/// the new geometry is applied.  Motion without a drag session, or with
/// a window that is not a managed floating client, changes nothing.
pub fn motion_notify(app: &mut Application, x_root: i32, y_root: i32, out: &mut Vec<DriverCommand>)
    requires
        wf(*old(app)),
    ensures
        wf(*final(app)),
        ({
            let st = old(app).runtime.mouse_state;
            let dragging = st.button == 1 || st.button == 3;
            &&& (!dragging || !window_present(old(app).runtime, st.win) ==> *final(app) == *old(
                app,
            ) && final(out)@ == old(out)@)
            &&& forall|s: int, w: int, c: int|
                dragging && pos_ok(old(app).runtime, s, w, c) && #[trigger] client_at(
                    old(app).runtime,
                    s,
                    w,
                    c,
                ).window_id == st.win ==> {
                    let cc0 = client_at(old(app).runtime, s, w, c);
                    if cc0.floating {
                        let dx = x_root - st.pos.0;
                        let dy = y_root - st.pos.1;
                        let newc = if st.button == 1 {
                            Client {
                                x: clamp_coord_spec(cc0.x + dx),
                                y: clamp_coord_spec(cc0.y + dy),
                                ..cc0
                            }
                        } else {
                            Client {
                                w: clamp_dim_spec(cc0.w + dx),
                                h: clamp_dim_spec(cc0.h + dy),
                                ..cc0
                            }
                        };
                        &&& crate::model::client_replaced_at(
                            Application {
                                runtime: crate::model::Runtime {
                                    mouse_state: final(app).runtime.mouse_state,
                                    ..old(app).runtime
                                },
                                ..*old(app)
                            },
                            *final(app),
                            s,
                            w,
                            c,
                            newc,
                        )
                        &&& final(app).runtime.mouse_state == (crate::model::MouseState {
                            win: st.win,
                            button: st.button,
                            pos: (x_root as i64, y_root as i64),
                        })
                        &&& client_at(final(app).runtime, s, w, c) == newc
                        &&& final(out)@ == old(out)@.push(
                            (DriverCommand::MoveResize {
                                win: st.win,
                                x: newc.x,
                                y: newc.y,
                                w: newc.w,
                                h: newc.h,
                            }),
                        )
                    } else {
                        *final(app) == *old(app) && final(out)@ == old(out)@
                    }
                }
        }),
{
    let button = app.runtime.mouse_state.button;
    let win = app.runtime.mouse_state.win;
    if button != 1 && button != 3 {
        return ;
    }
    let found = find_window_indexes(app, win);
    if let Some((s, w, c)) = found {
        proof {
            assert(screen_wf(app.runtime.screens[s as int]));
            assert(workspace_wf(app.runtime.screens[s as int].workspaces[w as int]));
            assert(client_wf(app.runtime.screens[s as int].workspaces[w as int].clients[c as int]));
        }
        let floating = app.runtime.screens[s].workspaces[w].clients[c].floating;
        if !floating {
            return ;
        }
        let (px, py) = app.runtime.mouse_state.pos;
        let dx: i128 = x_root as i128 - px as i128;
        let dy: i128 = y_root as i128 - py as i128;
        let cur = client_fields(app, s, w, c);
        let newc = if button == 1 {
            let nx: i128 = cur.x as i128 + dx;
            let ny: i128 = cur.y as i128 + dy;
            Client {
                x: if nx < -(MAX_CLIENT_COORD as i128) {
                    -MAX_CLIENT_COORD
                } else if nx > MAX_CLIENT_COORD as i128 {
                    MAX_CLIENT_COORD
                } else {
                    nx as i32
                },
                y: if ny < -(MAX_CLIENT_COORD as i128) {
                    -MAX_CLIENT_COORD
                } else if ny > MAX_CLIENT_COORD as i128 {
                    MAX_CLIENT_COORD
                } else {
                    ny as i32
                },
                ..cur
            }
        } else {
            let nw: i128 = cur.w as i128 + dx;
            let nh: i128 = cur.h as i128 + dy;
            Client {
                w: if nw < 1 {
                    1
                } else if nw > MAX_CLIENT_DIM as i128 {
                    MAX_CLIENT_DIM
                } else {
                    nw as u32
                },
                h: if nh < 1 {
                    1
                } else if nh > MAX_CLIENT_DIM as i128 {
                    MAX_CLIENT_DIM
                } else {
                    nh as u32
                },
                ..cur
            }
        };
        let nx = newc.x;
        let ny = newc.y;
        let nw2 = newc.w;
        let nh2 = newc.h;
        crate::helper::set_client(app, s, w, c, newc);
        let ghost am = *app;
        app.runtime.mouse_state = crate::model::MouseState {
            win,
            button,
            pos: (x_root as i64, y_root as i64),
        };
        out.push(DriverCommand::MoveResize { win, x: nx, y: ny, w: nw2, h: nh2 });
        proof {
            crate::model::lemma_ids_unique_pointwise(old(app).runtime, app.runtime);
            assert(wf(*app));
            assert forall|s2: int, w2: int, c2: int|
                pos_ok(old(app).runtime, s2, w2, c2) && #[trigger] client_at(
                    old(app).runtime,
                    s2,
                    w2,
                    c2,
                ).window_id == win implies s2 == s as int && w2 == w as int && c2 == c as int by {
                assert(client_at(old(app).runtime, s as int, w as int, c as int).window_id
                    == win);
            }
            let synth = Application {
                runtime: crate::model::Runtime {
                    mouse_state: final(app).runtime.mouse_state,
                    ..old(app).runtime
                },
                ..*old(app)
            };
            assert(crate::model::client_replaced_at(
                synth,
                *final(app),
                s as int,
                w as int,
                c as int,
                newc,
            )) by {
                assert(crate::model::client_replaced_at(
                    *old(app),
                    am,
                    s as int,
                    w as int,
                    c as int,
                    newc,
                ));
                assert(final(app).runtime.screens == am.runtime.screens);
                assert forall|c2: int|
                    0 <= c2
                        < old(app).runtime.screens[s as int].workspaces[w as int].clients.len()
                        && c2 != c as int implies client_at(
                    final(app).runtime,
                    s as int,
                    w as int,
                    c2,
                ) == client_at(synth.runtime, s as int, w as int, c2) by {
                    assert(client_at(am.runtime, s as int, w as int, c2) == client_at(
                        old(app).runtime,
                        s as int,
                        w as int,
                        c2,
                    ));
                    assert(client_at(final(app).runtime, s as int, w as int, c2) == client_at(
                        am.runtime,
                        s as int,
                        w as int,
                        c2,
                    ));
                }
            }
            assert(client_at(final(app).runtime, s as int, w as int, c as int) == newc);
        }
    }
}

} // verus!
