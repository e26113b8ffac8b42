//! Client messages and the input dispatcher on concrete states.

use rtwm::commands::DriverCommand;
use rtwm::events::{client_message, key_press, manage_client, WmMessage};
use rtwm::model::{
    init_application, init_screen, ActionResult, Application, Config, DesktopConfig, KeyAction,
    WindowProbe,
};

fn config_with_quit() -> Config {
    Config {
        gap_width: 0,
        border_size: 0,
        normal_border_color: 1,
        active_border_color: 2,
        urgent_border_color: 3,
        focus_ignores_geometry: false,
        desktops: DesktopConfig { names: Vec::new(), splits: Vec::new() },
        placements: Vec::new(),
        key_actions: vec![KeyAction { keysym: 24, modifier: 64, result: ActionResult::Quit }],
    }
}

fn app_with_windows(wins: &[u64]) -> Application {
    let screen = init_screen(0, 0, 0, 1920, 1080, 500);
    let mut app = init_application(config_with_quit(), 9, vec![screen]);
    for &win in wins {
        let probe = WindowProbe {
            transient_for: None,
            stored_desktop: None,
            pid: None,
            title: None,
            instance: None,
            class: None,
        };
        let mut out: Vec<DriverCommand> = Vec::new();
        manage_client(&mut app, win, &probe, 0, 0, 100, 100, None, false, &mut out);
    }
    app
}

#[test]
fn fullscreen_request_saves_and_restores_geometry() {
    let mut app = app_with_windows(&[301]);
    let mut out: Vec<DriverCommand> = Vec::new();
    client_message(
        &mut app,
        WmMessage::FullscreenState { win: 301, action: 1 },
        &mut out,
    );
    {
        let c = &app.runtime.screens[0].workspaces[0].clients[0];
        assert!(c.fullscreen);
        assert_eq!((c.w, c.h), (1920, 1080));
        // The pre-fullscreen size was saved (tiling had set it to the
        // full usable rectangle).
        assert_eq!((c.ow, c.oh), (1920, 1080));
    }
    assert!(out.contains(&DriverCommand::SetFullscreenProp { win: 301, on: true }));
    out.clear();
    // A clear request turns it back off and restores the saved size.
    client_message(
        &mut app,
        WmMessage::FullscreenState { win: 301, action: 0 },
        &mut out,
    );
    let c = &app.runtime.screens[0].workspaces[0].clients[0];
    assert!(!c.fullscreen);
    assert!(out.contains(&DriverCommand::SetFullscreenProp { win: 301, on: false }));
}

#[test]
fn activation_from_inactive_workspace_marks_urgent() {
    let mut app = app_with_windows(&[311]);
    let mut out: Vec<DriverCommand> = Vec::new();
    // Move the client's workspace out of view.
    rtwm::actions::switch_workspace(&mut app, 1, &mut out);
    out.clear();
    client_message(&mut app, WmMessage::ActivateWindow { win: 311 }, &mut out);
    assert!(app.runtime.screens[0].workspaces[0].clients[0].urgent);
    assert!(out.contains(&DriverCommand::SetUrgencyHint { win: 311, urgent: true }));
    // An activation on the visible workspace changes nothing.
    out.clear();
    rtwm::actions::switch_workspace(&mut app, 0, &mut out);
    out.clear();
    client_message(&mut app, WmMessage::ActivateWindow { win: 311 }, &mut out);
    assert!(out.is_empty());
}

#[test]
fn desktop_switch_message_changes_workspace() {
    let mut app = app_with_windows(&[321]);
    let mut out: Vec<DriverCommand> = Vec::new();
    client_message(&mut app, WmMessage::SwitchDesktop { desktop: 6 }, &mut out);
    assert_eq!(app.runtime.current_workspace, 6);
    assert!(out.contains(&DriverCommand::SetCurrentDesktop { desktop: 6 }));
}

#[test]
fn matching_chord_runs_its_action() {
    let mut app = app_with_windows(&[331]);
    let keycodes = vec![53u32];
    let mut out: Vec<DriverCommand> = Vec::new();
    // A chord that matches nothing leaves the manager running.
    key_press(&mut app, 99, 64, &keycodes, &mut out);
    assert!(app.core.running);
    // The configured quit chord stops it; a set caps-lock bit is ignored
    // by modifier matching.
    key_press(&mut app, 53, 64 | 2, &keycodes, &mut out);
    assert!(!app.core.running);
}

#[test]
fn autostart_rule_places_and_is_consumed() {
    let mut app = app_with_windows(&[]);
    rtwm::logic::record_autostart_rule(&mut app, 77, 0, 7);
    assert_eq!(app.runtime.autostart_rules.len(), 1);
    let probe = WindowProbe {
        transient_for: None,
        stored_desktop: None,
        pid: Some(77),
        title: None,
        instance: None,
        class: None,
    };
    let ((s, w), owner) = rtwm::logic::get_window_placement(&mut app, &probe, false);
    assert_eq!((s, w, owner), (0, 7, 0));
    // The rule was consumed: a second window of the process falls back.
    assert!(app.runtime.autostart_rules.is_empty());
    let ((s2, w2), _) = rtwm::logic::get_window_placement(&mut app, &probe, false);
    assert_eq!((s2, w2), (0, 0));
}

#[test]
fn missing_title_defaults_to_empty() {
    let mut app = app_with_windows(&[401]);
    assert_eq!(app.runtime.screens[0].workspaces[0].clients[0].window_name, "");
    rtwm::logic::update_client_name(&mut app, 401, Some("editor".to_string()));
    assert_eq!(app.runtime.screens[0].workspaces[0].clients[0].window_name, "editor");
    rtwm::logic::update_client_name(&mut app, 401, None);
    assert_eq!(app.runtime.screens[0].workspaces[0].clients[0].window_name, "");
}

#[test]
fn drag_motion_moves_a_floating_client() {
    let mut app = app_with_windows(&[411]);
    let mut out: Vec<DriverCommand> = Vec::new();
    rtwm::actions::toggle_float(&mut app, &mut out);
    let (x0, y0) = {
        let c = &app.runtime.screens[0].workspaces[0].clients[0];
        (c.x, c.y)
    };
    out.clear();
    // Start a move drag at (500, 400) and drag to (530, 390).
    rtwm::events::button_press(&mut app, 411, 1, 500, 400, 5, 5, &mut out);
    rtwm::events::motion_notify(&mut app, 530, 390, &mut out);
    let c = &app.runtime.screens[0].workspaces[0].clients[0];
    assert_eq!((c.x, c.y), (x0 + 30, y0 - 10));
    assert!(out.contains(&DriverCommand::MoveResize {
        win: 411,
        x: x0 + 30,
        y: y0 - 10,
        w: c.w,
        h: c.h,
    }));
    // The session advanced: a further motion moves relative to the last.
    rtwm::events::motion_notify(&mut app, 540, 390, &mut out);
    let c = &app.runtime.screens[0].workspaces[0].clients[0];
    assert_eq!((c.x, c.y), (x0 + 40, y0 - 10));
    // Releasing the button ends the drag.
    rtwm::events::button_release(&mut app);
    rtwm::events::motion_notify(&mut app, 600, 600, &mut out);
    let c = &app.runtime.screens[0].workspaces[0].clients[0];
    assert_eq!((c.x, c.y), (x0 + 40, y0 - 10));
}
