//! Monitor topology changes: screens appear, disappear and resize.

use rtwm::commands::DriverCommand;
use rtwm::events::{configure_notify, manage_client};
use rtwm::logic::update_screens;
use rtwm::model::{
    init_application, init_screen, Application, Config, DesktopConfig, MonitorInfo, WindowProbe,
};

fn config() -> Config {
    Config {
        gap_width: 0,
        border_size: 0,
        normal_border_color: 1,
        active_border_color: 2,
        urgent_border_color: 3,
        focus_ignores_geometry: false,
        desktops: DesktopConfig { names: Vec::new(), splits: Vec::new() },
        placements: Vec::new(),
        key_actions: Vec::new(),
    }
}

fn two_screen_app() -> Application {
    let s0 = init_screen(0, 0, 0, 1920, 1080, 500);
    let s1 = init_screen(1, 1920, 0, 1280, 1024, 500);
    init_application(config(), 7, vec![s0, s1])
}

fn add_window(app: &mut Application, win: u64) {
    let mut out: Vec<DriverCommand> = Vec::new();
    let probe = WindowProbe {
        transient_for: None,
        stored_desktop: None,
        pid: None,
        title: None,
        instance: None,
        class: None,
    };
    manage_client(app, win, &probe, 0, 0, 100, 100, None, false, &mut out);
}

#[test]
fn losing_a_screen_migrates_its_clients_to_the_first() {
    let mut app = two_screen_app();
    // One client on each screen's first workspace.
    add_window(&mut app, 201);
    rtwm::actions::focus_on_screen_index(&mut app, 1, &mut Vec::new());
    add_window(&mut app, 202);
    assert_eq!(app.runtime.screens[1].workspaces[0].clients.len(), 1);

    // The second monitor disappears.
    let monitors = vec![MonitorInfo { number: 0, x: 0, y: 0, width: 1920, height: 1080 }];
    let mut out: Vec<DriverCommand> = Vec::new();
    update_screens(&mut app, &monitors, &mut out);

    assert_eq!(app.runtime.screens.len(), 1);
    // Both clients now live on the first screen's first workspace, the
    // migrated one on top.
    let ws = &app.runtime.screens[0].workspaces[0];
    assert_eq!(ws.clients.len(), 2);
    assert_eq!(ws.clients[0].window_id, 201);
    assert_eq!(ws.clients[1].window_id, 202);
    // The cursors were parked back on the surviving screen.
    assert_eq!(app.runtime.current_screen, 0);
    // The migrated client's desktop was republished.
    assert!(out.contains(&DriverCommand::SetClientDesktop { win: 202, desktop: 0 }));
}

#[test]
fn a_new_monitor_adds_a_screen_with_fresh_workspaces() {
    let s0 = init_screen(0, 0, 0, 1920, 1080, 500);
    let mut app = init_application(config(), 7, vec![s0]);
    add_window(&mut app, 211);
    let monitors = vec![
        MonitorInfo { number: 0, x: 0, y: 0, width: 1920, height: 1080 },
        MonitorInfo { number: 1, x: 1920, y: 0, width: 1280, height: 1024 },
    ];
    let mut out: Vec<DriverCommand> = Vec::new();
    // A topology notification for the root window rebuilds the screens
    // and republishes the desktop metadata.
    configure_notify(&mut app, 7, &monitors, &mut out);
    assert_eq!(app.runtime.screens.len(), 2);
    assert_eq!(app.runtime.screens[1].x, 1920);
    assert_eq!(app.runtime.screens[1].width, 1280);
    assert!(app.runtime.screens[1].workspaces.iter().all(|w| w.clients.is_empty()));
    // The existing client stayed where it was.
    assert_eq!(app.runtime.screens[0].workspaces[0].clients[0].window_id, 211);
    // Desktop metadata mentions every workspace of both screens.
    let meta = out.iter().rev().find_map(|c| match c {
        DriverCommand::SetDesktopMeta { names, viewports } => {
            Some((names.len(), viewports.len()))
        }
        _ => None,
    });
    assert_eq!(meta, Some((20, 40)));
}

#[test]
fn resizing_a_monitor_updates_the_screen_geometry() {
    let s0 = init_screen(0, 0, 0, 1920, 1080, 500);
    let mut app = init_application(config(), 7, vec![s0]);
    let monitors = vec![MonitorInfo { number: 0, x: 0, y: 0, width: 2560, height: 1440 }];
    let mut out: Vec<DriverCommand> = Vec::new();
    update_screens(&mut app, &monitors, &mut out);
    assert_eq!(app.runtime.screens.len(), 1);
    assert_eq!(app.runtime.screens[0].width, 2560);
    assert_eq!(app.runtime.screens[0].height, 1440);
}
