//! End-to-end checks of the window-management core on concrete states.

use rtwm::commands::DriverCommand;
use rtwm::arrange::arrange_workspace;
use rtwm::actions::{cycle_stack, kill_client, move_to_workspace, switch_workspace, toggle_float};
use rtwm::events::{destroy_notify, manage_client, unmap_notify};
use rtwm::logic::get_window_placement;
use rtwm::model::{
    init_application, init_screen, Application, Config, DesktopConfig, PlacementRule, WindowProbe,
};

fn test_config(gap: u32, border: u32) -> Config {
    Config {
        gap_width: gap,
        border_size: border,
        normal_border_color: 1,
        active_border_color: 2,
        urgent_border_color: 3,
        focus_ignores_geometry: false,
        desktops: DesktopConfig { names: Vec::new(), splits: Vec::new() },
        placements: Vec::new(),
        key_actions: Vec::new(),
    }
}

fn empty_probe() -> WindowProbe {
    WindowProbe {
        transient_for: None,
        stored_desktop: None,
        pid: None,
        title: None,
        instance: None,
        class: None,
    }
}

fn single_screen_app(gap: u32, border: u32) -> Application {
    let screen = init_screen(0, 0, 0, 1920, 1080, 500);
    init_application(test_config(gap, border), 42, vec![screen])
}

fn add_window(app: &mut Application, win: u64) {
    let mut out: Vec<DriverCommand> = Vec::new();
    let probe = empty_probe();
    manage_client(app, win, &probe, 0, 0, 100, 100, None, false, &mut out);
}

fn has(cmds: &[DriverCommand], wanted: &DriverCommand) -> bool {
    cmds.iter().any(|c| c == wanted)
}

#[test]
fn three_tiled_clients_split_master_and_stack() {
    // master capacity 1, master width one half, three tiled clients on a
    // 1920 by 1080 screen without gaps or borders.
    let mut app = single_screen_app(0, 0);
    add_window(&mut app, 11);
    add_window(&mut app, 12);
    add_window(&mut app, 13);
    arrange_workspace(&mut app, 0, 0);
    let ws = &app.runtime.screens[0].workspaces[0];
    assert_eq!(ws.clients.len(), 3);
    // Reverse stacking order: the last client is the master.
    let master = &ws.clients[2];
    assert_eq!((master.x, master.y, master.w, master.h), (0, 0, 960, 1080));
    let stack_top = &ws.clients[1];
    assert_eq!(
        (stack_top.x, stack_top.y, stack_top.w, stack_top.h),
        (960, 0, 960, 540)
    );
    let stack_bottom = &ws.clients[0];
    assert_eq!(
        (stack_bottom.x, stack_bottom.y, stack_bottom.w, stack_bottom.h),
        (960, 540, 960, 540)
    );
    assert_eq!(master.border, 0);
}

#[test]
fn sole_client_fills_usable_rectangle_without_border() {
    let mut app = single_screen_app(8, 4);
    add_window(&mut app, 21);
    arrange_workspace(&mut app, 0, 0);
    let c = &app.runtime.screens[0].workspaces[0].clients[0];
    assert_eq!((c.x, c.y, c.w, c.h), (0, 0, 1920, 1080));
    assert_eq!(c.border, 0);
}

#[test]
fn gaps_and_borders_tile_the_screen_exactly() {
    let mut app = single_screen_app(10, 2);
    add_window(&mut app, 31);
    add_window(&mut app, 32);
    arrange_workspace(&mut app, 0, 0);
    let ws = &app.runtime.screens[0].workspaces[0];
    let master = &ws.clients[1];
    let stack = &ws.clients[0];
    // Widths: gap + master + gap + stack + gap covers the screen.
    assert_eq!(master.x, 10);
    assert_eq!(
        10 + (master.w + 2 * master.border) as i32 + 10 + (stack.w + 2 * stack.border) as i32 + 10,
        1920
    );
    // Each column fills the height: gap above and below.
    assert_eq!(master.y, 10);
    assert_eq!(master.y + (master.h + 2 * master.border) as i32 + 10, 1080);
    assert_eq!(stack.y + (stack.h + 2 * stack.border) as i32 + 10, 1080);
    // Both clients carry the configured border.
    assert_eq!(master.border, 2);
    assert_eq!(stack.border, 2);
}

#[test]
fn arrangement_is_idempotent_on_unchanged_input() {
    let mut app = single_screen_app(6, 3);
    add_window(&mut app, 41);
    add_window(&mut app, 42);
    add_window(&mut app, 43);
    arrange_workspace(&mut app, 0, 0);
    let first: Vec<(i32, i32, u32, u32, u32)> = app.runtime.screens[0].workspaces[0]
        .clients
        .iter()
        .map(|c| (c.x, c.y, c.w, c.h, c.border))
        .collect();
    arrange_workspace(&mut app, 0, 0);
    let second: Vec<(i32, i32, u32, u32, u32)> = app.runtime.screens[0].workspaces[0]
        .clients
        .iter()
        .map(|c| (c.x, c.y, c.w, c.h, c.border))
        .collect();
    assert_eq!(first, second);
}

#[test]
fn removing_current_client_pulls_cursor_back() {
    // Four clients; the cursor sits on the last one.  Removing it leaves
    // the cursor on the new last client.
    let mut app = single_screen_app(0, 0);
    add_window(&mut app, 51);
    add_window(&mut app, 52);
    add_window(&mut app, 53);
    add_window(&mut app, 54);
    assert_eq!(app.runtime.current_client, Some(3));
    let mut out: Vec<DriverCommand> = Vec::new();
    destroy_notify(&mut app, 54, &mut out);
    assert_eq!(app.runtime.screens[0].workspaces[0].clients.len(), 3);
    assert_eq!(app.runtime.current_client, Some(2));
    // Removing a client in the middle keeps the cursor index.
    destroy_notify(&mut app, 52, &mut out);
    assert_eq!(app.runtime.current_client, Some(1));
    // Emptying the workspace clears the cursor.
    destroy_notify(&mut app, 53, &mut out);
    destroy_notify(&mut app, 51, &mut out);
    assert_eq!(app.runtime.current_client, None);
    assert!(app.runtime.screens[0].workspaces[0].clients.is_empty());
}

#[test]
fn managing_same_window_twice_keeps_one_client() {
    let mut app = single_screen_app(0, 0);
    add_window(&mut app, 61);
    add_window(&mut app, 61);
    assert_eq!(app.runtime.screens[0].workspaces[0].clients.len(), 1);
}

#[test]
fn transient_window_follows_owner_over_class_rule() {
    let mut app = single_screen_app(0, 0);
    // A rule that sends every window of this class to workspace 5.
    app.config.placements.push(PlacementRule {
        instance: None,
        class: Some("editor".to_string()),
        title: None,
        rule_screen: Some(0),
        rule_workspace: Some(5),
    });
    // The owner lives on workspace 3.
    let mut out: Vec<DriverCommand> = Vec::new();
    switch_workspace(&mut app, 3, &mut out);
    add_window(&mut app, 71);
    switch_workspace(&mut app, 0, &mut out);
    // A transient window of the owner that also matches the class rule.
    let probe = WindowProbe {
        transient_for: Some(71),
        class: Some("editor".to_string()),
        ..empty_probe()
    };
    let ((s, w), owner) = get_window_placement(&mut app, &probe, false);
    assert_eq!((s, w), (0, 3));
    assert_eq!(owner, 71);
    // Without the transient relationship the class rule decides.
    let probe2 = WindowProbe { transient_for: None, ..probe };
    let ((s2, w2), owner2) = get_window_placement(&mut app, &probe2, false);
    assert_eq!((s2, w2), (0, 5));
    assert_eq!(owner2, 0);
}

#[test]
fn switching_workspace_unfocuses_and_republishes_desktop() {
    let mut app = single_screen_app(0, 0);
    add_window(&mut app, 81);
    let mut out: Vec<DriverCommand> = Vec::new();
    switch_workspace(&mut app, 2, &mut out);
    add_window(&mut app, 82);
    switch_workspace(&mut app, 0, &mut out);
    // Workspace 0 is active with client 81 selected; workspace 2 keeps a
    // remembered selection of client 82.
    assert_eq!(app.runtime.current_workspace, 0);
    out.clear();
    switch_workspace(&mut app, 2, &mut out);
    // The outgoing client is unfocused.
    assert!(has(&out, &DriverCommand::SetBorderColor { win: 81, color: 1 }));
    assert!(has(&out, &DriverCommand::ReleaseDragButtons { win: 81 }));
    // All global cursors follow workspace 2's saved selection.
    assert_eq!(app.runtime.current_workspace, 2);
    assert_eq!(app.runtime.screens[0].current_workspace, 2);
    assert_eq!(app.runtime.current_client, Some(0));
    // The current desktop is republished with the new index.
    assert!(has(&out, &DriverCommand::SetCurrentDesktop { desktop: 2 }));
    // The incoming client is focused and shown, the outgoing one hidden.
    assert!(has(&out, &DriverCommand::SetInputFocus { win: 82 }));
    assert!(app.runtime.screens[0].workspaces[2].clients[0].visible);
    assert!(!app.runtime.screens[0].workspaces[0].clients[0].visible);
}

#[test]
fn kill_without_polite_protocol_forces_and_keeps_client() {
    let mut app = single_screen_app(0, 0);
    add_window(&mut app, 91);
    let mut out: Vec<DriverCommand> = Vec::new();
    // The window does not speak the polite delete protocol.
    kill_client(&mut app, false, &mut out);
    assert_eq!(out, vec![DriverCommand::ForceKill { win: 91 }]);
    // The client is still managed: removal waits for the destroy
    // notification.
    assert_eq!(app.runtime.screens[0].workspaces[0].clients.len(), 1);
    out.clear();
    destroy_notify(&mut app, 91, &mut out);
    assert!(app.runtime.screens[0].workspaces[0].clients.is_empty());
}

#[test]
fn kill_with_polite_protocol_requests_close() {
    let mut app = single_screen_app(0, 0);
    add_window(&mut app, 95);
    let mut out: Vec<DriverCommand> = Vec::new();
    kill_client(&mut app, true, &mut out);
    assert_eq!(out, vec![DriverCommand::RequestClose { win: 95 }]);
    assert_eq!(app.runtime.screens[0].workspaces[0].clients.len(), 1);
}

#[test]
fn cycle_stack_moves_selection_with_wraparound() {
    let mut app = single_screen_app(0, 0);
    add_window(&mut app, 101);
    add_window(&mut app, 102);
    add_window(&mut app, 103);
    assert_eq!(app.runtime.current_client, Some(2));
    let mut out: Vec<DriverCommand> = Vec::new();
    cycle_stack(&mut app, 1, &mut out);
    assert_eq!(app.runtime.current_client, Some(0));
    cycle_stack(&mut app, -1, &mut out);
    assert_eq!(app.runtime.current_client, Some(2));
}

#[test]
fn move_to_workspace_transfers_and_selects_there() {
    let mut app = single_screen_app(0, 0);
    add_window(&mut app, 111);
    add_window(&mut app, 112);
    let mut out: Vec<DriverCommand> = Vec::new();
    move_to_workspace(&mut app, 4, &mut out);
    // The selected client 112 moved to workspace 4 and is selected there.
    assert_eq!(app.runtime.screens[0].workspaces[0].clients.len(), 1);
    assert_eq!(app.runtime.screens[0].workspaces[4].clients.len(), 1);
    assert_eq!(app.runtime.screens[0].workspaces[4].clients[0].window_id, 112);
    assert_eq!(app.runtime.screens[0].workspaces[4].current_client, Some(0));
    // Its published desktop changed.
    assert!(has(&out, &DriverCommand::SetClientDesktop { win: 112, desktop: 4 }));
    // The source cursor fell back to the remaining client.
    assert_eq!(app.runtime.current_client, Some(0));
    assert_eq!(app.runtime.screens[0].workspaces[0].clients[0].window_id, 111);
}

#[test]
fn toggle_float_pulls_client_out_of_tiling() {
    let mut app = single_screen_app(0, 4);
    add_window(&mut app, 121);
    add_window(&mut app, 122);
    let mut out: Vec<DriverCommand> = Vec::new();
    toggle_float(&mut app, &mut out);
    let ws = &app.runtime.screens[0].workspaces[0];
    assert!(ws.clients[1].floating);
    assert_eq!(ws.clients[1].border, 4);
    // The remaining tiled client now fills the whole usable rectangle.
    assert_eq!(ws.clients[0].w, 1920);
    assert_eq!(ws.clients[0].h, 1080);
}

#[test]
fn synthetic_unmap_only_marks_withdrawn() {
    let mut app = single_screen_app(0, 0);
    add_window(&mut app, 131);
    let mut out: Vec<DriverCommand> = Vec::new();
    unmap_notify(&mut app, 131, true, &mut out);
    assert_eq!(out, vec![DriverCommand::SetWithdrawnState { win: 131 }]);
    assert_eq!(app.runtime.screens[0].workspaces[0].clients.len(), 1);
    out.clear();
    unmap_notify(&mut app, 131, false, &mut out);
    assert!(app.runtime.screens[0].workspaces[0].clients.is_empty());
}
