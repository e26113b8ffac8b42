//! Focus and cursor synchronization: repairing the current-client cursor
//! after removals, moving the global cursors to a window, and the focus
//! and unfocus driver work.

use vstd::prelude::*;

use crate::commands::DriverCommand;
use crate::model::BarOffsets;
use crate::helper::{
    active_window_cmds, current_client_id_spec, find_window_indexes, set_urgent,
    update_active_window,
};
use crate::model::{
    app_same_structure, client_at, client_replaced_at, client_wf, lemma_ids_unique_pointwise,
    lemma_window_present_pointwise, pos_ok, screen_wf, shifted_cursor, wf, wf_except_cursor,
    window_pos, window_present, workspace_wf, workspace_wf_except_cursor, Application,
    AutostartRulePID, Client, PlacementRule, Runtime, Screen, WindowProbe, Workspace, MAX_CLIENTS,
    NUMBER_OF_DESKTOPS,
};

verus! {

/// The driver work of a cursor repair: when the repaired workspace is the
/// globally active one, input focus and the active-window property follow
/// the new cursor.
pub open spec fn shift_cmds(a: Application, s: int, w: int) -> Seq<DriverCommand> {
    let ws = a.runtime.screens[s].workspaces[w];
    let ncc = shifted_cursor(ws.current_client, ws.clients.len() as nat);
    if s == a.runtime.current_screen && w == a.runtime.current_workspace {
        match ncc {
            Some(i) => seq![
                DriverCommand::SetInputFocus { win: ws.clients[i as int].window_id },
                DriverCommand::SetActiveWindow { win: ws.clients[i as int].window_id },
            ],
            None => seq![DriverCommand::FocusRoot, DriverCommand::ClearActiveWindow],
        }
    } else {
        Seq::empty()
    }
}

/// Clamp the current-client cursor of the workspace at `(screen,
/// workspace)` back into range after a removal, and propagate the
/// repaired cursor to the global trackers when that workspace is active.
pub fn shift_current_client_at(
    app: &mut Application,
    screen: usize,
    workspace: usize,
    out: &mut Vec<DriverCommand>,
)
    requires
        ({
            let s = screen as int;
            let w = workspace as int;
            &&& wf_except_cursor(*old(app), s, w)
            &&& screen < old(app).runtime.screens.len()
            &&& workspace < NUMBER_OF_DESKTOPS
            &&& match old(app).runtime.screens[s].workspaces[w].current_client {
                None => old(app).runtime.screens[s].workspaces[w].clients.len() == 0,
                Some(_) => true,
            }
        }),
    ensures
        ({
            let s = screen as int;
            let w = workspace as int;
            let ws0 = old(app).runtime.screens[s].workspaces[w];
            let ncc = shifted_cursor(ws0.current_client, ws0.clients.len() as nat);
            let active = s == old(app).runtime.current_screen && w == old(
                app,
            ).runtime.current_workspace;
            &&& wf(*final(app))
            &&& final(app).config == old(app).config
            &&& final(app).core == old(app).core
            &&& final(app).runtime.mouse_state == old(app).runtime.mouse_state
            &&& final(app).runtime.autostart_rules == old(app).runtime.autostart_rules
            &&& final(app).runtime.screens.len() == old(app).runtime.screens.len()
            &&& forall|s2: int|
                0 <= s2 < old(app).runtime.screens.len() && s2 != s
                    ==> final(app).runtime.screens[s2] == old(app).runtime.screens[s2]
            &&& final(app).runtime.screens[s] == Screen {
                workspaces: final(app).runtime.screens[s].workspaces,
                ..old(app).runtime.screens[s]
            }
            &&& final(app).runtime.screens[s].workspaces.len() == old(
                app,
            ).runtime.screens[s].workspaces.len()
            &&& forall|w2: int|
                0 <= w2 < old(app).runtime.screens[s].workspaces.len() && w2 != w
                    ==> final(app).runtime.screens[s].workspaces[w2] == old(
                    app,
                ).runtime.screens[s].workspaces[w2]
            &&& final(app).runtime.screens[s].workspaces[w] == Workspace {
                current_client: ncc,
                ..ws0
            }
            &&& final(app).runtime.current_screen == old(app).runtime.current_screen
            &&& final(app).runtime.current_workspace == old(app).runtime.current_workspace
            &&& final(app).runtime.current_client == (if active {
                ncc
            } else {
                old(app).runtime.current_client
            })
            &&& final(out)@ == old(out)@ + shift_cmds(*old(app), s, w)
        }),
{
    let s = screen;
    let w = workspace;
    let len = app.runtime.screens[s].workspaces[w].clients.len();
    let cur = app.runtime.screens[s].workspaces[w].current_client;
    let ncc: Option<usize> = if len == 0 {
        None
    } else {
        match cur {
            Some(cc) => if cc < len {
                Some(cc)
            } else {
                Some(len - 1)
            },
            None => None,
        }
    };
    let wref = &mut app.runtime.screens[s].workspaces[w];
    wref.current_client = ncc;

    proof {
        lemma_ids_unique_pointwise(old(app).runtime, app.runtime);
        assert forall|s2: int|
            0 <= s2 < app.runtime.screens.len() implies screen_wf(
            #[trigger] app.runtime.screens[s2],
        ) by {
            assert(app.runtime.screens[s2].workspaces.len() == old(
                app,
            ).runtime.screens[s2].workspaces.len());
            assert forall|w2: int|
                0 <= w2 < app.runtime.screens[s2].workspaces.len() implies workspace_wf(
                #[trigger] app.runtime.screens[s2].workspaces[w2],
            ) by {
                if s2 == s as int && w2 == w as int {
                    assert(workspace_wf_except_cursor(
                        old(app).runtime.screens[s2].workspaces[w2],
                    ));
                } else {
                    assert(app.runtime.screens[s2].workspaces[w2] == old(
                        app,
                    ).runtime.screens[s2].workspaces[w2]);
                    assert(workspace_wf(old(app).runtime.screens[s2].workspaces[w2]));
                }
            }
        }
    }

    // Only the globally active workspace propagates to the global cursor.
    let ghost mid = *app;
    if s == app.runtime.current_screen && w == app.runtime.current_workspace {
        app.runtime.current_client = ncc;
        proof {
            lemma_ids_unique_pointwise(mid.runtime, app.runtime);
            assert(wf(*app));
        }
        if let Some(index) = ncc {
            let win = app.runtime.screens[s].workspaces[w].clients[index].window_id;
            out.push(DriverCommand::SetInputFocus { win });
        }
        update_active_window(app, out);
        assert(final(out)@ =~= old(out)@ + shift_cmds(*old(app), s as int, w as int));
    } else {
        proof {
            assert(wf(*app));
        }
        assert(final(out)@ =~= old(out)@ + shift_cmds(*old(app), s as int, w as int));
    }
}

/// Clamp the current-client cursor of the given workspace (defaulting to
/// the active one) back into range after a removal; see
/// `shift_current_client_at` for the effect.
pub fn shift_current_client(
    app: &mut Application,
    screen: Option<usize>,
    workspace: Option<usize>,
    out: &mut Vec<DriverCommand>,
)
    requires
        ({
            let s = match screen {
                Some(v) => v as int,
                None => old(app).runtime.current_screen as int,
            };
            let w = match workspace {
                Some(v) => v as int,
                None => old(app).runtime.current_workspace as int,
            };
            &&& wf_except_cursor(*old(app), s, w)
            &&& match screen {
                Some(v) => v < old(app).runtime.screens.len(),
                None => true,
            }
            &&& match workspace {
                Some(v) => v < NUMBER_OF_DESKTOPS,
                None => true,
            }
            &&& match old(app).runtime.screens[s].workspaces[w].current_client {
                None => old(app).runtime.screens[s].workspaces[w].clients.len() == 0,
                Some(_) => true,
            }
        }),
    ensures
        ({
            let s = match screen {
                Some(v) => v as int,
                None => old(app).runtime.current_screen as int,
            };
            let w = match workspace {
                Some(v) => v as int,
                None => old(app).runtime.current_workspace as int,
            };
            let ws0 = old(app).runtime.screens[s].workspaces[w];
            let ncc = shifted_cursor(ws0.current_client, ws0.clients.len() as nat);
            let active = s == old(app).runtime.current_screen && w == old(
                app,
            ).runtime.current_workspace;
            &&& wf(*final(app))
            &&& final(app).config == old(app).config
            &&& final(app).core == old(app).core
            &&& final(app).runtime.mouse_state == old(app).runtime.mouse_state
            &&& final(app).runtime.autostart_rules == old(app).runtime.autostart_rules
            &&& final(app).runtime.screens.len() == old(app).runtime.screens.len()
            &&& forall|s2: int|
                0 <= s2 < old(app).runtime.screens.len() && s2 != s
                    ==> final(app).runtime.screens[s2] == old(app).runtime.screens[s2]
            &&& final(app).runtime.screens[s] == Screen {
                workspaces: final(app).runtime.screens[s].workspaces,
                ..old(app).runtime.screens[s]
            }
            &&& final(app).runtime.screens[s].workspaces.len() == old(
                app,
            ).runtime.screens[s].workspaces.len()
            &&& forall|w2: int|
                0 <= w2 < old(app).runtime.screens[s].workspaces.len() && w2 != w
                    ==> final(app).runtime.screens[s].workspaces[w2] == old(
                    app,
                ).runtime.screens[s].workspaces[w2]
            &&& final(app).runtime.screens[s].workspaces[w] == Workspace {
                current_client: ncc,
                ..ws0
            }
            &&& final(app).runtime.current_screen == old(app).runtime.current_screen
            &&& final(app).runtime.current_workspace == old(app).runtime.current_workspace
            &&& final(app).runtime.current_client == (if active {
                ncc
            } else {
                old(app).runtime.current_client
            })
            &&& final(out)@ == old(out)@ + shift_cmds(*old(app), s, w)
        }),
{
    let s = match screen {
        Some(index) => index,
        None => app.runtime.current_screen,
    };
    let w = match workspace {
        Some(index) => index,
        None => app.runtime.current_workspace,
    };
    shift_current_client_at(app, s, w, out);
}

/// What cursor repair leaves behind, in terms of the removal that made it
/// necessary: removing the current client at index `k` from a workspace
/// of `n` clients leaves the cursor on the client now at `min(k, n - 2)`,
/// and clears it when the workspace emptied.
pub proof fn lemma_removal_cursor(k: usize, n: nat)
    requires
        k < n,
        n <= MAX_CLIENTS,
    ensures
        n > 1 && (k as int) < n - 1 ==> shifted_cursor(Some(k), (n - 1) as nat) == Some(k),
        n > 1 && k as int == n - 1 ==> shifted_cursor(Some(k), (n - 1) as nat) == Some(
            ((n - 2) as usize),
        ),
        n == 1 ==> shifted_cursor(Some(k), (n - 1) as nat) == None::<usize>,
{
}

/// Move every tracker (global and per screen and workspace) to the
/// client owning `win`; a window no client owns leaves the state alone.
pub fn update_trackers(app: &mut Application, win: u64)
    requires
        wf(*old(app)),
    ensures
        wf(*final(app)),
        !window_present(old(app).runtime, win) ==> *final(app) == *old(app),
        forall|s: int, w: int, c: int|
            pos_ok(old(app).runtime, s, w, c) && #[trigger] client_at(
                old(app).runtime,
                s,
                w,
                c,
            ).window_id == win ==> tracker_updated(*old(app), *final(app), s, w, c),
{
    let found = find_window_indexes(app, win);
    if let Some((s, w, c)) = found {
        app.runtime.current_screen = s;
        app.runtime.current_workspace = w;
        let sref = &mut app.runtime.screens[s];
        sref.current_workspace = w;
        app.runtime.current_client = Some(c);
        let wref = &mut app.runtime.screens[s].workspaces[w];
        wref.current_client = Some(c);
        proof {
            lemma_ids_unique_pointwise(old(app).runtime, app.runtime);
            assert(screen_wf(old(app).runtime.screens[s as int]));
            assert(workspace_wf(old(app).runtime.screens[s as int].workspaces[w as int]));
            assert forall|s2: int, w2: int, c2: int|
                pos_ok(old(app).runtime, s2, w2, c2) && #[trigger] client_at(
                    old(app).runtime,
                    s2,
                    w2,
                    c2,
                ).window_id == win implies tracker_updated(*old(app), *app, s2, w2, c2) by {
                assert(client_at(old(app).runtime, s as int, w as int, c as int).window_id == win);
            }
        }
    }
}

/// All trackers point at position `(s, w, c)`; nothing else changed.
pub open spec fn tracker_updated(a1: Application, a2: Application, s: int, w: int, c: int) -> bool {
    &&& a2.config == a1.config
    &&& a2.core == a1.core
    &&& a2.runtime.mouse_state == a1.runtime.mouse_state
    &&& a2.runtime.autostart_rules == a1.runtime.autostart_rules
    &&& a2.runtime.current_screen == s
    &&& a2.runtime.current_workspace == w
    &&& a2.runtime.current_client == Some(c as usize)
    &&& a2.runtime.screens.len() == a1.runtime.screens.len()
    &&& forall|s2: int|
        0 <= s2 < a1.runtime.screens.len() && s2 != s ==> a2.runtime.screens[s2]
            == a1.runtime.screens[s2]
    &&& a2.runtime.screens[s] == Screen {
        current_workspace: w as usize,
        workspaces: a2.runtime.screens[s].workspaces,
        ..a1.runtime.screens[s]
    }
    &&& a2.runtime.screens[s].workspaces.len() == a1.runtime.screens[s].workspaces.len()
    &&& forall|w2: int|
        0 <= w2 < a1.runtime.screens[s].workspaces.len() && w2 != w
            ==> a2.runtime.screens[s].workspaces[w2] == a1.runtime.screens[s].workspaces[w2]
    &&& a2.runtime.screens[s].workspaces[w] == Workspace {
        current_client: Some(c as usize),
        ..a1.runtime.screens[s].workspaces[w]
    }
}

/// `a2` is `a1` with the urgency of the client at `(s, w, c)` cleared
/// and every tracker moved onto that client; nothing else changed.
pub open spec fn focused_at(a1: Application, a2: Application, s: int, w: int, c: int) -> bool {
    &&& a2.config == a1.config
    &&& a2.core == a1.core
    &&& a2.runtime.mouse_state == a1.runtime.mouse_state
    &&& a2.runtime.autostart_rules == a1.runtime.autostart_rules
    &&& a2.runtime.current_screen == s
    &&& a2.runtime.current_workspace == w
    &&& a2.runtime.current_client == Some(c as usize)
    &&& a2.runtime.screens.len() == a1.runtime.screens.len()
    &&& forall|s2: int|
        0 <= s2 < a1.runtime.screens.len() && s2 != s ==> a2.runtime.screens[s2]
            == a1.runtime.screens[s2]
    &&& a2.runtime.screens[s] == Screen {
        current_workspace: w as usize,
        workspaces: a2.runtime.screens[s].workspaces,
        ..a1.runtime.screens[s]
    }
    &&& a2.runtime.screens[s].workspaces.len() == a1.runtime.screens[s].workspaces.len()
    &&& forall|w2: int|
        0 <= w2 < a1.runtime.screens[s].workspaces.len() && w2 != w
            ==> a2.runtime.screens[s].workspaces[w2] == a1.runtime.screens[s].workspaces[w2]
    &&& a2.runtime.screens[s].workspaces[w] == Workspace {
        current_client: Some(c as usize),
        clients: a2.runtime.screens[s].workspaces[w].clients,
        ..a1.runtime.screens[s].workspaces[w]
    }
    &&& a2.runtime.screens[s].workspaces[w].clients.len()
        == a1.runtime.screens[s].workspaces[w].clients.len()
    &&& forall|c2: int|
        0 <= c2 < a1.runtime.screens[s].workspaces[w].clients.len() && c2 != c ==> client_at(
            a2.runtime,
            s,
            w,
            c2,
        ) == client_at(a1.runtime, s, w, c2)
    &&& client_at(a2.runtime, s, w, c) == Client {
        urgent: false,
        ..client_at(a1.runtime, s, w, c)
    }
}

/// What focusing `win` does to the state: the window's urgency is
/// cleared, and when some client owns `win` every tracker moves to it;
/// an unmanaged window leaves the cursors alone.
pub open spec fn focus_state(a1: Application, a2: Application, win: u64) -> bool {
    &&& a2.config == a1.config
    &&& a2.core == a1.core
    &&& a2.runtime.mouse_state == a1.runtime.mouse_state
    &&& a2.runtime.autostart_rules == a1.runtime.autostart_rules
    &&& a2.runtime.screens.len() == a1.runtime.screens.len()
    &&& forall|s: int, w: int, c: int|
        pos_ok(a1.runtime, s, w, c) ==> #[trigger] client_at(a2.runtime, s, w, c) == (if client_at(
            a1.runtime,
            s,
            w,
            c,
        ).window_id == win {
            Client { urgent: false, ..client_at(a1.runtime, s, w, c) }
        } else {
            client_at(a1.runtime, s, w, c)
        })
    &&& (!window_present(a1.runtime, win) ==> {
        &&& a2.runtime.current_screen == a1.runtime.current_screen
        &&& a2.runtime.current_workspace == a1.runtime.current_workspace
        &&& a2.runtime.current_client == a1.runtime.current_client
        &&& forall|s2: int|
            0 <= s2 < a1.runtime.screens.len() ==> (#[trigger] a2.runtime.screens[s2]).current_workspace
                == a1.runtime.screens[s2].current_workspace
        &&& forall|s2: int, w2: int|
            0 <= s2 < a1.runtime.screens.len() && 0 <= w2 < a1.runtime.screens[s2].workspaces.len()
                ==> (#[trigger] a2.runtime.screens[s2].workspaces[w2]).current_client
                == a1.runtime.screens[s2].workspaces[w2].current_client
    })
    &&& forall|s: int, w: int, c: int|
        pos_ok(a1.runtime, s, w, c) && #[trigger] client_at(a1.runtime, s, w, c).window_id == win
            ==> {
            &&& a2.runtime.current_screen == s
            &&& a2.runtime.current_workspace == w
            &&& a2.runtime.current_client == Some(c as usize)
            &&& a2.runtime.screens[s].current_workspace == w
            &&& a2.runtime.screens[s].workspaces[w].current_client == Some(c as usize)
        }
}

/// The driver work of focusing `win`: clear urgency, paint the border
/// active, publish the (possibly moved) active window, grab the drag
/// buttons, hand over input focus, politely offer focus to the client,
/// and republish the current desktop.
pub open spec fn focus_cmds(a: Application, win: u64) -> Seq<DriverCommand> {
    let present = window_present(a.runtime, win);
    let p = window_pos(a.runtime, win);
    let cs = if present {
        p.0
    } else {
        a.runtime.current_screen as int
    };
    let cw = if present {
        p.1
    } else {
        a.runtime.current_workspace as int
    };
    let active = if present {
        seq![DriverCommand::SetActiveWindow { win }]
    } else {
        active_window_cmds(a.runtime)
    };
    seq![
        DriverCommand::SetUrgencyHint { win, urgent: false },
        DriverCommand::SetBorderColor { win, color: a.config.active_border_color },
    ] + active + seq![
        DriverCommand::GrabDragButton { win, button: 1 },
        DriverCommand::GrabDragButton { win, button: 3 },
        DriverCommand::SetInputFocus { win },
        DriverCommand::SendTakeFocus { win },
        DriverCommand::SetCurrentDesktop { desktop: (cw + cs * NUMBER_OF_DESKTOPS) as u64 },
    ]
}

/// Focus `win`: clear its urgency, move every tracker to it, publish the
/// focus-related properties and ask the driver to hand it input focus.
pub fn focus(app: &mut Application, win: u64, out: &mut Vec<DriverCommand>)
    requires
        wf(*old(app)),
    ensures
        wf(*final(app)),
        focus_state(*old(app), *final(app), win),
        !window_present(old(app).runtime, win) ==> *final(app) == *old(app),
        forall|s: int, w: int, c: int|
            pos_ok(old(app).runtime, s, w, c) && #[trigger] client_at(
                old(app).runtime,
                s,
                w,
                c,
            ).window_id == win ==> focused_at(*old(app), *final(app), s, w, c),
        final(out)@ == old(out)@ + focus_cmds(*old(app), win),
{
    set_urgent(app, win, false, out);
    let color = app.config.active_border_color;
    out.push(DriverCommand::SetBorderColor { win, color });
    let ghost a1 = *app;
    proof {
        lemma_window_present_pointwise(old(app).runtime, a1.runtime, win);
    }
    update_trackers(app, win);
    let ghost a2 = *app;
    update_active_window(app, out);
    out.push(DriverCommand::GrabDragButton { win, button: 1 });
    out.push(DriverCommand::GrabDragButton { win, button: 3 });
    out.push(DriverCommand::SetInputFocus { win });
    out.push(DriverCommand::SendTakeFocus { win });
    proof {
        assert(app.runtime.current_screen < app.runtime.screens.len() <= 64);
        assert(app.runtime.current_workspace
            < app.runtime.screens[app.runtime.current_screen as int].workspaces.len()) by {
            assert(screen_wf(app.runtime.screens[app.runtime.current_screen as int]));
        }
    }
    let w = app.runtime.current_workspace + app.runtime.current_screen * NUMBER_OF_DESKTOPS;
    out.push(DriverCommand::SetCurrentDesktop { desktop: w as u64 });
    proof {
        if window_present(old(app).runtime, win) {
            let p = window_pos(old(app).runtime, win);
            assert(pos_ok(old(app).runtime, p.0, p.1, p.2) && client_at(
                old(app).runtime,
                p.0,
                p.1,
                p.2,
            ).window_id == win);
            assert(client_at(a1.runtime, p.0, p.1, p.2).window_id == win);
            assert(tracker_updated(a1, a2, p.0, p.1, p.2));
            assert(client_at(a2.runtime, p.0, p.1, p.2) == client_at(a1.runtime, p.0, p.1, p.2));
            assert(current_client_id_spec_eq_win(a2, p.0, p.1, p.2, win));
            assert forall|s: int, w2: int, c: int|
                pos_ok(old(app).runtime, s, w2, c) && #[trigger] client_at(
                    old(app).runtime,
                    s,
                    w2,
                    c,
                ).window_id == win implies {
                &&& a2.runtime.current_screen == s
                &&& a2.runtime.current_workspace == w2
                &&& a2.runtime.current_client == Some(c as usize)
                &&& a2.runtime.screens[s].current_workspace == w2
                &&& a2.runtime.screens[s].workspaces[w2].current_client == Some(c as usize)
            } by {
                assert(client_at(a1.runtime, s, w2, c).window_id == win);
                assert(tracker_updated(a1, a2, s, w2, c));
            }
            assert forall|s: int, w2: int, c: int|
                pos_ok(old(app).runtime, s, w2, c) && #[trigger] client_at(
                    old(app).runtime,
                    s,
                    w2,
                    c,
                ).window_id == win implies focused_at(*old(app), *app, s, w2, c) by {
                assert(client_replaced_at(
                    *old(app),
                    a1,
                    s,
                    w2,
                    c,
                    Client { urgent: false, ..client_at(old(app).runtime, s, w2, c) },
                ));
                assert(client_at(a1.runtime, s, w2, c).window_id == win);
                assert(tracker_updated(a1, a2, s, w2, c));
            }
        } else {
            assert(a2 == a1);
            assert(current_client_id_spec(a1.runtime) == current_client_id_spec(
                old(app).runtime,
            )) by {
                let cs = old(app).runtime.current_screen as int;
                let cw = old(app).runtime.current_workspace as int;
                match old(app).runtime.current_client {
                    Some(i) => {
                        assert(screen_wf(old(app).runtime.screens[cs]));
                        assert(pos_ok(old(app).runtime, cs, cw, i as int));
                        assert(client_at(a1.runtime, cs, cw, i as int) == client_at(
                            old(app).runtime,
                            cs,
                            cw,
                            i as int,
                        ));
                    },
                    None => {},
                }
            }
            assert(active_window_cmds(a1.runtime) == active_window_cmds(old(app).runtime));
        }
        assert forall|s: int, w2: int, c: int|
            pos_ok(old(app).runtime, s, w2, c) implies #[trigger] client_at(
            app.runtime,
            s,
            w2,
            c,
        ) == (if client_at(old(app).runtime, s, w2, c).window_id == win {
            Client { urgent: false, ..client_at(old(app).runtime, s, w2, c) }
        } else {
            client_at(old(app).runtime, s, w2, c)
        }) by {
            assert(client_at(a1.runtime, s, w2, c) == (if client_at(
                old(app).runtime,
                s,
                w2,
                c,
            ).window_id == win {
                Client { urgent: false, ..client_at(old(app).runtime, s, w2, c) }
            } else {
                client_at(old(app).runtime, s, w2, c)
            }));
            if window_present(old(app).runtime, win) {
                let p = window_pos(old(app).runtime, win);
                assert(tracker_updated(a1, a2, p.0, p.1, p.2));
                assert(client_at(a2.runtime, s, w2, c) == client_at(a1.runtime, s, w2, c)) by {
                    if s == p.0 {
                        if w2 == p.1 {
                            assert(a2.runtime.screens[s].workspaces[w2].clients
                                == a1.runtime.screens[s].workspaces[w2].clients);
                        } else {
                            assert(a2.runtime.screens[s].workspaces[w2]
                                == a1.runtime.screens[s].workspaces[w2]);
                        }
                    } else {
                        assert(a2.runtime.screens[s] == a1.runtime.screens[s]);
                    }
                }
            } else {
                assert(a2 == a1);
            }
        }
        assert(final(out)@ =~= old(out)@ + focus_cmds(*old(app), win));
    }
}

/// The focus work, written out for a window known to be managed at
/// `(cs, cw)`.
pub open spec fn focus_seq_at(cfg: crate::model::Config, win: u64, cs: int, cw: int) -> Seq<
    DriverCommand,
> {
    seq![
        DriverCommand::SetUrgencyHint { win, urgent: false },
        DriverCommand::SetBorderColor { win, color: cfg.active_border_color },
        DriverCommand::SetActiveWindow { win },
        DriverCommand::GrabDragButton { win, button: 1 },
        DriverCommand::GrabDragButton { win, button: 3 },
        DriverCommand::SetInputFocus { win },
        DriverCommand::SendTakeFocus { win },
        DriverCommand::SetCurrentDesktop { desktop: (cw + cs * NUMBER_OF_DESKTOPS) as u64 },
    ]
}

/// For a managed window the focus work takes its fully explicit form.
pub proof fn lemma_focus_cmds_present(a: Application, win: u64, s: int, w: int, c: int)
    requires
        wf(a),
        pos_ok(a.runtime, s, w, c),
        client_at(a.runtime, s, w, c).window_id == win,
    ensures
        focus_cmds(a, win) == focus_seq_at(a.config, win, s, w),
{
    assert(window_present(a.runtime, win));
    let p = window_pos(a.runtime, win);
    assert(pos_ok(a.runtime, p.0, p.1, p.2) && client_at(a.runtime, p.0, p.1, p.2).window_id
        == win);
    assert(p.0 == s && p.1 == w && p.2 == c);
    assert(focus_cmds(a, win) =~= focus_seq_at(a.config, win, s, w));
}

/// The cursors of `a` select position `(s, w, c)` and the client there
/// owns `win`.
pub open spec fn current_client_id_spec_eq_win(
    a: Application,
    s: int,
    w: int,
    c: int,
    win: u64,
) -> bool {
    &&& a.runtime.current_screen == s
    &&& a.runtime.current_workspace == w
    &&& a.runtime.current_client == Some(c as usize)
    &&& client_at(a.runtime, s, w, c).window_id == win
}

/// Unfocus `win`: paint its border back to normal and release the drag
/// grabs.  The state is untouched.
pub fn unfocus(app: &mut Application, win: u64, out: &mut Vec<DriverCommand>)
    ensures
        *final(app) == *old(app),
        final(out)@ == old(out)@ + seq![
            DriverCommand::SetBorderColor { win, color: old(app).config.normal_border_color },
            DriverCommand::ReleaseDragButtons { win },
        ],
{
    let color = app.config.normal_border_color;
    out.push(DriverCommand::SetBorderColor { win, color });
    out.push(DriverCommand::ReleaseDragButtons { win });
    assert(final(out)@ =~= old(out)@ + seq![
        DriverCommand::SetBorderColor { win, color: old(app).config.normal_border_color },
        DriverCommand::ReleaseDragButtons { win },
    ]);
}

/// The title a window ends up with: the fetched one, or the empty title
/// where the driver had none.
pub open spec fn stored_title(title: Option<String>) -> Seq<char> {
    match title {
        Some(t) => t@,
        None => Seq::<char>::empty(),
    }
}

/// What storing a fetched title does: the owning client's cached name
/// becomes the stored title (everything else about it untouched), and a
/// window no client owns changes nothing.
pub open spec fn title_updated(
    a1: Application,
    a2: Application,
    win: u64,
    title: Option<String>,
) -> bool {
    &&& app_same_structure(a1, a2)
    &&& (!window_present(a1.runtime, win) ==> a2 == a1)
    &&& forall|s: int, w: int, c: int|
        pos_ok(a1.runtime, s, w, c) ==> if client_at(a1.runtime, s, w, c).window_id == win {
            #[trigger] client_at(a2.runtime, s, w, c) == Client {
                window_name: client_at(a2.runtime, s, w, c).window_name,
                ..client_at(a1.runtime, s, w, c)
            } && client_at(a2.runtime, s, w, c).window_name@ == stored_title(title)
        } else {
            client_at(a2.runtime, s, w, c) == client_at(a1.runtime, s, w, c)
        }
    &&& forall|s: int, w: int, c: int|
        pos_ok(a1.runtime, s, w, c) && #[trigger] client_at(a1.runtime, s, w, c).window_id == win
            ==> client_replaced_at(
            a1,
            a2,
            s,
            w,
            c,
            Client {
                window_name: client_at(a2.runtime, s, w, c).window_name,
                ..client_at(a1.runtime, s, w, c)
            },
        )
}

/// Store the freshly fetched title on the client owning `win`; a window
/// no client owns is ignored.
pub fn update_client_name(app: &mut Application, win: u64, title: Option<String>)
    requires
        wf(*old(app)),
    ensures
        wf(*final(app)),
        title_updated(*old(app), *final(app), win, title),
{
    let name = match title {
        Some(t) => t,
        None => String::new(),
    };
    let found = find_window_indexes(app, win);
    if let Some((s, w, c)) = found {
        let cref = &mut app.runtime.screens[s].workspaces[w].clients[c];
        cref.window_name = name;
        proof {
            assert forall|s2: int, w2: int, c2: int|
                pos_ok(old(app).runtime, s2, w2, c2) implies (if client_at(
                old(app).runtime,
                s2,
                w2,
                c2,
            ).window_id == win {
                #[trigger] client_at(app.runtime, s2, w2, c2) == Client {
                    window_name: client_at(app.runtime, s2, w2, c2).window_name,
                    ..client_at(old(app).runtime, s2, w2, c2)
                } && client_at(app.runtime, s2, w2, c2).window_name@ == stored_title(title)
            } else {
                client_at(app.runtime, s2, w2, c2) == client_at(old(app).runtime, s2, w2, c2)
            }) by {
                if s2 == s && w2 == w && c2 == c {
                } else {
                    assert(client_at(app.runtime, s2, w2, c2) == client_at(
                        old(app).runtime,
                        s2,
                        w2,
                        c2,
                    ));
                }
            }
            lemma_ids_unique_pointwise(old(app).runtime, app.runtime);
            assert forall|s2: int|
                0 <= s2 < app.runtime.screens.len() implies screen_wf(
                #[trigger] app.runtime.screens[s2],
            ) by {
                assert(screen_wf(old(app).runtime.screens[s2]));
                assert forall|w2: int|
                    0 <= w2 < app.runtime.screens[s2].workspaces.len() implies workspace_wf(
                    #[trigger] app.runtime.screens[s2].workspaces[w2],
                ) by {
                    assert(workspace_wf(old(app).runtime.screens[s2].workspaces[w2]));
                    assert forall|c2: int|
                        0 <= c2 < app.runtime.screens[s2].workspaces[w2].clients.len()
                            implies client_wf(
                        #[trigger] app.runtime.screens[s2].workspaces[w2].clients[c2],
                    ) by {
                        assert(client_at(app.runtime, s2, w2, c2)
                            == app.runtime.screens[s2].workspaces[w2].clients[c2]);
                        assert(client_wf(old(app).runtime.screens[s2].workspaces[w2].clients[c2]));
                    }
                }
            }
            assert forall|s2: int, w2: int, c2: int|
                pos_ok(old(app).runtime, s2, w2, c2) && #[trigger] client_at(
                    old(app).runtime,
                    s2,
                    w2,
                    c2,
                ).window_id == win implies client_replaced_at(
                *old(app),
                *app,
                s2,
                w2,
                c2,
                Client {
                    window_name: client_at(app.runtime, s2, w2, c2).window_name,
                    ..client_at(old(app).runtime, s2, w2, c2)
                },
            ) by {
                assert(client_at(old(app).runtime, s as int, w as int, c as int).window_id == win);
                assert(s2 == s as int && w2 == w as int && c2 == c as int);
            }
        }
    }
}

/// Returns the cached title of the client owning `win`, or a fixed
/// placeholder for a window no client owns.
pub fn get_client_name(app: &mut Application, win: u64) -> (r: String)
    requires
        wf(*old(app)),
    ensures
        *final(app) == *old(app),
        window_present(old(app).runtime, win) ==> forall|s: int, w: int, c: int|
            pos_ok(old(app).runtime, s, w, c) && #[trigger] client_at(
                old(app).runtime,
                s,
                w,
                c,
            ).window_id == win ==> r@ == client_at(old(app).runtime, s, w, c).window_name@,
        !window_present(old(app).runtime, win) ==> r@ == "Unmanaged Window"@,
{
    let found = find_window_indexes(app, win);
    match found {
        Some((s, w, c)) => {
            let name = app.runtime.screens[s].workspaces[w].clients[c].window_name.clone();
            name
        },
        None => "Unmanaged Window".to_owned(),
    }
}

/// Whether a configured placement rule accepts the probed window: every
/// set field must match, an unset field matches anything, and a set
/// field never matches a window that did not report the value.
pub open spec fn rule_matches(r: PlacementRule, probe: WindowProbe) -> bool {
    &&& match (r.instance, probe.instance) {
        (Some(a), Some(b)) => a@ == b@,
        (None, _) => true,
        (Some(_), None) => false,
    }
    &&& match (r.class, probe.class) {
        (Some(a), Some(b)) => a@ == b@,
        (None, _) => true,
        (Some(_), None) => false,
    }
    &&& match (r.title, probe.title) {
        (Some(a), Some(b)) => a@ == b@,
        (None, _) => true,
        (Some(_), None) => false,
    }
}

/// Index of the first placement rule accepting the probe, or the rule
/// count when none does.
pub open spec fn first_matching_rule(rs: Seq<PlacementRule>, probe: WindowProbe, i: int) -> int
    decreases rs.len() - i,
{
    if i < 0 || i >= rs.len() {
        rs.len() as int
    } else if rule_matches(rs[i], probe) {
        i
    } else {
        first_matching_rule(rs, probe, i + 1)
    }
}

/// Index of the first pending autostart rule for the process, or the
/// rule count when none is pending.
pub open spec fn first_pid_rule(rs: Seq<AutostartRulePID>, pid: i32, i: int) -> int
    decreases rs.len() - i,
{
    if i < 0 || i >= rs.len() {
        rs.len() as int
    } else if rs[i].pid == pid {
        i
    } else {
        first_pid_rule(rs, pid, i + 1)
    }
}

/// Where a newly seen window goes, first match wins: the owner of a
/// transient window; during a startup scan a persisted desktop index; a
/// pending autostart rule of its process (consumed on use); the first
/// matching configured placement rule (unset targets and out-of-range
/// targets fall back to the current position); the current screen and
/// workspace.  The result carries the owner id for a transient window
/// and the index of the autostart rule that is consumed, if any.
pub open spec fn placement_of(a: Application, probe: WindowProbe, scan: bool) -> (
    int,
    int,
    u64,
    Option<int>,
) {
    let rt = a.runtime;
    let cs = rt.current_screen as int;
    let cw = rt.current_workspace as int;
    let transient = match probe.transient_for {
        Some(tw) => window_present(rt, tw),
        None => false,
    };
    if transient {
        let tw = probe.transient_for->0;
        let p = window_pos(rt, tw);
        (p.0, p.1, tw, None)
    } else {
        let stored = if scan {
            match probe.stored_desktop {
                Some(d) => crate::helper::decode_desktop_spec(rt, d),
                None => None,
            }
        } else {
            None
        };
        match stored {
            Some(sw) => (sw.0 as int, sw.1 as int, 0u64, None),
            None => {
                let auto = match probe.pid {
                    Some(pid) => {
                        let i = first_pid_rule(rt.autostart_rules@, pid, 0);
                        if i < rt.autostart_rules.len() {
                            let rule = rt.autostart_rules@[i];
                            if rule.screen < rt.screens.len()
                                && rule.workspace < rt.screens[rule.screen as int].workspaces.len() {
                                Some((rule.screen as int, rule.workspace as int, i))
                            } else {
                                None
                            }
                        } else {
                            None
                        }
                    },
                    None => None,
                };
                match auto {
                    Some(t) => (t.0, t.1, 0u64, Some(t.2)),
                    None => {
                        let ri = first_matching_rule(a.config.placements@, probe, 0);
                        if ri < a.config.placements.len() {
                            let rule = a.config.placements@[ri];
                            let s = match rule.rule_screen {
                                Some(v) => if v < rt.screens.len() {
                                    v as int
                                } else {
                                    cs
                                },
                                None => cs,
                            };
                            let w = match rule.rule_workspace {
                                Some(v) => if v < NUMBER_OF_DESKTOPS {
                                    v as int
                                } else {
                                    cw
                                },
                                None => cw,
                            };
                            (s, w, 0u64, None)
                        } else {
                            (cs, cw, 0u64, None)
                        }
                    },
                }
            },
        }
    }
}

/// Placement priority: a window owned by an already managed window
/// follows its owner, whatever else (a stored desktop, an autostart
/// entry or a configured rule, a matching class rule in particular)
/// would say.
pub proof fn lemma_transient_placement_wins(a: Application, probe: WindowProbe, scan: bool)
    requires
        wf(a),
        probe.transient_for is Some,
        window_present(a.runtime, probe.transient_for->0),
    ensures
        ({
            let p = window_pos(a.runtime, probe.transient_for->0);
            placement_of(a, probe, scan) == (p.0, p.1, probe.transient_for->0, None::<int>)
        }),
{
}

/// Resolve where the probed window must be managed, consuming the
/// autostart rule that decided it, if one did.
pub fn get_window_placement(app: &mut Application, probe: &WindowProbe, scan: bool) -> (r: (
    (usize, usize),
    u64,
))
    requires
        wf(*old(app)),
    ensures
        wf(*final(app)),
        ({
            let pl = placement_of(*old(app), *probe, scan);
            &&& r.0.0 as int == pl.0
            &&& r.0.1 as int == pl.1
            &&& r.1 == pl.2
            &&& pl.0 < final(app).runtime.screens.len()
            &&& pl.1 < final(app).runtime.screens[pl.0].workspaces.len()
            &&& match pl.3 {
                Some(i) => *final(app) == (Application {
                    runtime: Runtime {
                        autostart_rules: final(app).runtime.autostart_rules,
                        ..old(app).runtime
                    },
                    ..*old(app)
                }) && final(app).runtime.autostart_rules@ == old(
                    app,
                ).runtime.autostart_rules@.remove(i),
                None => *final(app) == *old(app),
            }
        }),
{
    proof {
        assert(screen_wf(app.runtime.screens[app.runtime.current_screen as int]));
    }
    let default_placement = (app.runtime.current_screen, app.runtime.current_workspace);

    // A transient window inherits its owner's position.
    if let Some(tw) = probe.transient_for {
        let found = find_window_indexes(app, tw);
        if let Some((s, w, _c)) = found {
            proof {
                let p = window_pos(app.runtime, tw);
                assert(pos_ok(app.runtime, p.0, p.1, p.2) && client_at(
                    app.runtime,
                    p.0,
                    p.1,
                    p.2,
                ).window_id == tw);
                assert(p.0 == s as int && p.1 == w as int);
            }
            proof {
                let pl = placement_of(*old(app), *probe, scan);
                assert(pl.0 == s as int && pl.1 == w as int && pl.2 == tw && pl.3 is None);
            }
            return ((s, w), tw);
        }
    }

    // During the startup scan a persisted desktop index is reused.
    if scan {
        if let Some(sw) = crate::helper::get_client_workspace(app, probe.stored_desktop) {
            proof {
                let pl = placement_of(*old(app), *probe, scan);
                assert(pl.0 == sw.0 as int && pl.1 == sw.1 as int && pl.2 == 0 && pl.3 is None);
            }
            return (sw, 0);
        }
    }

    // A pending autostart rule of the owning process is consumed.
    if let Some(pid) = probe.pid {
        let nrules = app.runtime.autostart_rules.len();
        let mut ri: usize = 0;
        while ri < nrules && app.runtime.autostart_rules[ri].pid != pid
            invariant
                *app == *old(app),
                nrules == app.runtime.autostart_rules.len(),
                ri <= nrules,
                forall|j: int| 0 <= j < ri ==> app.runtime.autostart_rules@[j].pid != pid,
                first_pid_rule(app.runtime.autostart_rules@, pid, 0) == first_pid_rule(
                    app.runtime.autostart_rules@,
                    pid,
                    ri as int,
                ),
            decreases nrules - ri,
        {
            ri = ri + 1;
        }
        proof {
            assert(first_pid_rule(old(app).runtime.autostart_rules@, pid, 0) == (if ri < nrules {
                ri as int
            } else {
                nrules as int
            }));
        }
        if ri < nrules {
            let rule_screen = app.runtime.autostart_rules[ri].screen;
            let rule_workspace = app.runtime.autostart_rules[ri].workspace;
            if rule_screen < app.runtime.screens.len() && rule_workspace
                < app.runtime.screens[rule_screen].workspaces.len() {
                app.runtime.autostart_rules.remove(ri);
                proof {
                    assert(screen_wf(old(app).runtime.screens[rule_screen as int]));
                    crate::model::lemma_ids_unique_pointwise(old(app).runtime, app.runtime);
                    assert(wf(*app));
                }
                proof {
                    let pl = placement_of(*old(app), *probe, scan);
                    assert(pl.0 == rule_screen as int && pl.1 == rule_workspace as int && pl.2
                        == 0);
                    assert(pl.3 == Some(ri as int));
                }
                return ((rule_screen, rule_workspace), 0);
            }
        }
    }

    // The first matching configured placement rule decides.
    let nplacements = app.config.placements.len();
    let mut pi: usize = 0;
    while pi < nplacements
        invariant
            *app == *old(app),
            nplacements == app.config.placements.len(),
            pi <= nplacements,
            default_placement.0 == app.runtime.current_screen,
            default_placement.1 == app.runtime.current_workspace,
            wf(*app),
            forall|j: int| 0 <= j < pi ==> !rule_matches(#[trigger] app.config.placements@[j], *probe),
            first_matching_rule(app.config.placements@, *probe, 0) == first_matching_rule(
                app.config.placements@,
                *probe,
                pi as int,
            ),
            match probe.transient_for {
                Some(tw) => !window_present(old(app).runtime, tw),
                None => true,
            },
            scan ==> match probe.stored_desktop {
                Some(d) => crate::helper::decode_desktop_spec(old(app).runtime, d) is None,
                None => true,
            },
            match probe.pid {
                Some(pid) => ({
                    let rs = old(app).runtime.autostart_rules@;
                    let i = first_pid_rule(rs, pid, 0);
                    i >= rs.len() || !(rs[i].screen < old(app).runtime.screens.len()
                        && rs[i].workspace < old(
                        app,
                    ).runtime.screens[rs[i].screen as int].workspaces.len())
                }),
                None => true,
            },
        decreases nplacements - pi,
    {
        let rule = &app.config.placements[pi];
        let instance_flag = match (&rule.instance, &probe.instance) {
            (Some(rule_instance), Some(client_instance)) => *rule_instance == *client_instance,
            (None, _) => true,
            (Some(_), None) => false,
        };
        let class_flag = match (&rule.class, &probe.class) {
            (Some(rule_class), Some(client_class)) => *rule_class == *client_class,
            (None, _) => true,
            (Some(_), None) => false,
        };
        let title_flag = match (&rule.title, &probe.title) {
            (Some(rule_title), Some(client_title)) => *rule_title == *client_title,
            (None, _) => true,
            (Some(_), None) => false,
        };
        if instance_flag && class_flag && title_flag {
            let s = match rule.rule_screen {
                Some(v) => if v < app.runtime.screens.len() {
                    v
                } else {
                    default_placement.0
                },
                None => default_placement.0,
            };
            let w = match rule.rule_workspace {
                Some(v) => if v < NUMBER_OF_DESKTOPS {
                    v
                } else {
                    default_placement.1
                },
                None => default_placement.1,
            };
            proof {
                assert(rule_matches(app.config.placements@[pi as int], *probe));
                assert(first_matching_rule(app.config.placements@, *probe, 0) == pi as int);
                assert(screen_wf(app.runtime.screens[s as int]));
            }
            proof {
                let pl = placement_of(*old(app), *probe, scan);
                assert(pl.0 == s as int && pl.1 == w as int && pl.2 == 0 && pl.3 is None);
            }
            return ((s, w), 0);
        }
        pi = pi + 1;
    }

    // Nothing decided: stay on the current screen and workspace.
    proof {
        let pl = placement_of(*old(app), *probe, scan);
        assert(pl.0 == default_placement.0 as int && pl.1 == default_placement.1 as int && pl.2
            == 0 && pl.3 is None);
    }
    (default_placement, 0)
}

/// The viewport coordinate pairs published for the first `s` screens:
/// each workspace repeats its screen's origin.
pub open spec fn viewports_upto(rt: Runtime, s: int) -> Seq<i64>
    decreases s,
{
    if s <= 0 {
        Seq::empty()
    } else {
        viewports_upto(rt, s - 1) + Seq::new(
            (NUMBER_OF_DESKTOPS * 2) as nat,
            |i: int|
                if i % 2 == 0 {
                    rt.screens[s - 1].x
                } else {
                    rt.screens[s - 1].y
                },
        )
    }
}

/// Publish desktop count, names and viewports in one announcement.
pub fn update_desktop_ewmh_info(
    app: &mut Application,
    names: Vec<String>,
    viewports: Vec<i64>,
    out: &mut Vec<DriverCommand>,
)
    ensures
        *final(app) == *old(app),
        final(out)@ == old(out)@.push((DriverCommand::SetDesktopMeta { names, viewports })),
{
    out.push(DriverCommand::SetDesktopMeta { names, viewports });
}

/// Rebuild and publish the desktop metadata: one name per workspace
/// (taken from the configuration, or the workspace number rendered in
/// decimal) and one viewport per workspace at its screen's origin.
pub fn update_desktops(app: &mut Application, out: &mut Vec<DriverCommand>)
    requires
        wf(*old(app)),
    ensures
        wf(*final(app)),
        *final(app) == *old(app),
        final(out)@.len() == old(out)@.len() + 1,
        final(out)@.subrange(0, old(out)@.len() as int) == old(out)@,
        (final(out)@.last() matches DriverCommand::SetDesktopMeta { names, viewports }
            && names@.len() == old(app).runtime.screens.len() * NUMBER_OF_DESKTOPS && viewports@
            == viewports_upto(old(app).runtime, old(app).runtime.screens.len() as int)),
{
    let mut desktop_names_ewmh: Vec<String> = Vec::new();
    let mut viewports: Vec<i64> = Vec::new();

    let nscreens = app.runtime.screens.len();
    let mut index: usize = 0;
    while index < nscreens
        invariant
            wf(*app),
            *app == *old(app),
            nscreens == app.runtime.screens.len(),
            index <= nscreens,
            desktop_names_ewmh.len() == index * NUMBER_OF_DESKTOPS,
            viewports@ == viewports_upto(app.runtime, index as int),
        decreases nscreens - index,
    {
        proof {
            assert(screen_wf(app.runtime.screens[index as int]));
        }
        let ghost vp_pre = viewports@;
        let nws = NUMBER_OF_DESKTOPS;
        let mut i: usize = 0;
        while i < nws
            invariant
                wf(*app),
                *app == *old(app),
                nscreens == app.runtime.screens.len(),
                index < nscreens,
                nws == NUMBER_OF_DESKTOPS,
                i <= nws,
                desktop_names_ewmh.len() == index * NUMBER_OF_DESKTOPS + i,
                viewports@.len() == vp_pre.len() + 2 * i,
                viewports@.subrange(0, vp_pre.len() as int) == vp_pre,
                forall|j: int|
                    0 <= j < 2 * i ==> #[trigger] viewports@[vp_pre.len() + j] == (if j % 2 == 0 {
                        app.runtime.screens[index as int].x
                    } else {
                        app.runtime.screens[index as int].y
                    }),
            decreases nws - i,
        {
            let name: String = if index < app.config.desktops.names.len() {
                proof {
                    assert(app.config.desktops.names@[index as int].len()
                        == NUMBER_OF_DESKTOPS);
                }
                app.config.desktops.names[index][i].clone()
            } else {
                // Default names: the workspace number, one-based.
                match i {
                    0 => "1".to_owned(),
                    1 => "2".to_owned(),
                    2 => "3".to_owned(),
                    3 => "4".to_owned(),
                    4 => "5".to_owned(),
                    5 => "6".to_owned(),
                    6 => "7".to_owned(),
                    7 => "8".to_owned(),
                    8 => "9".to_owned(),
                    _ => "10".to_owned(),
                }
            };
            desktop_names_ewmh.push(name);
            let ghost vmid = viewports@;
            viewports.push(app.runtime.screens[index].x);
            viewports.push(app.runtime.screens[index].y);
            proof {
                assert(viewports@.subrange(0, vp_pre.len() as int) =~= vp_pre);
                assert forall|j: int| 0 <= j < 2 * (i + 1) implies #[trigger] viewports@[vp_pre.len()
                    + j] == (if j % 2 == 0 {
                    app.runtime.screens[index as int].x
                } else {
                    app.runtime.screens[index as int].y
                }) by {
                    if j < 2 * i {
                        assert(viewports@[vp_pre.len() + j] == vmid[vp_pre.len() + j]);
                    } else if j == 2 * i {
                        assert((2 * i) % 2 == 0);
                    } else {
                        assert(j == 2 * i + 1 && j % 2 == 1);
                    }
                }
            }
            i = i + 1;
        }
        proof {
            let target = viewports_upto(app.runtime, index as int + 1);
            assert(viewports@.len() == target.len());
            assert forall|k: int| 0 <= k < viewports@.len() implies viewports@[k] == target[k] by {
                if k < vp_pre.len() {
                    assert(viewports@[k] == viewports@.subrange(0, vp_pre.len() as int)[k]);
                } else {
                    let j = k - vp_pre.len() as int;
                    assert(viewports@[vp_pre.len() + j] == (if j % 2 == 0 {
                        app.runtime.screens[index as int].x
                    } else {
                        app.runtime.screens[index as int].y
                    }));
                }
            }
            assert(viewports@ =~= target);
        }
        index = index + 1;
    }
    update_desktop_ewmh_info(app, desktop_names_ewmh, viewports, out);
    proof {
        assert(final(out)@.subrange(0, old(out)@.len() as int) =~= old(out)@);
    }
}

/// The desktop announcements made for a run of migrated clients.
pub open spec fn desktop_cmds(cs: Seq<Client>, w: int) -> Seq<DriverCommand>
    decreases cs.len(),
{
    if cs.len() == 0 {
        Seq::empty()
    } else {
        seq![
            DriverCommand::SetClientDesktop { win: cs[0].window_id, desktop: w as u64 },
        ] + desktop_cmds(cs.skip(1), w)
    }
}

/// The announcements grow one command at a time at the back.
pub proof fn lemma_desktop_cmds_snoc(cs: Seq<Client>, w: int, k: int)
    requires
        0 <= k < cs.len(),
    ensures
        desktop_cmds(cs.take(k + 1), w) == desktop_cmds(cs.take(k), w).push(
            DriverCommand::SetClientDesktop { win: cs[k].window_id, desktop: w as u64 },
        ),
    decreases k,
{
    if k == 0 {
        assert(cs.take(1) =~= seq![cs[0]]);
        assert(cs.take(0) =~= Seq::<Client>::empty());
        assert(cs.take(1).skip(1) =~= Seq::<Client>::empty());
        assert(desktop_cmds(cs.take(1), w) =~= desktop_cmds(cs.take(0), w).push(
            DriverCommand::SetClientDesktop { win: cs[0].window_id, desktop: w as u64 },
        ));
    } else {
        lemma_desktop_cmds_snoc(cs.skip(1), w, k - 1);
        assert(cs.take(k + 1).skip(1) =~= cs.skip(1).take(k));
        assert(cs.take(k).skip(1) =~= cs.skip(1).take(k - 1));
        assert(cs.take(k + 1)[0] == cs[0]);
        assert(cs.take(k)[0] == cs[0]);
        assert(cs.skip(1)[k - 1] == cs[k]);
        assert(desktop_cmds(cs.take(k + 1), w) =~= desktop_cmds(cs.take(k), w).push(
            DriverCommand::SetClientDesktop { win: cs[k].window_id, desktop: w as u64 },
        ));
    }
}

/// How many clients fit when a source workspace empties into a target
/// already holding `tgt_len` clients.
pub open spec fn migrated_count(src_len: nat, tgt_len: nat) -> nat {
    if tgt_len >= MAX_CLIENTS {
        0
    } else if src_len <= MAX_CLIENTS - tgt_len {
        src_len
    } else {
        (MAX_CLIENTS - tgt_len) as nat
    }
}

/// Move every client of workspace `w` of (doomed) screen `s` onto the
/// same workspace of the first screen, keeping their order, announcing
/// their new desktop, and keeping both cursors sound.  Clients beyond the
/// first screen's capacity stay behind and are dropped with their screen.
#[verifier::rlimit(100)]
#[verifier::spinoff_prover]
fn migrate_workspace(app: &mut Application, s: usize, w: usize, out: &mut Vec<DriverCommand>)
    requires
        wf(*old(app)),
        0 < s < old(app).runtime.screens.len(),
        old(app).runtime.current_screen != s,
        w < NUMBER_OF_DESKTOPS,
    ensures
        wf(*final(app)),
        ({
            let src = old(app).runtime.screens[s as int].workspaces[w as int].clients@;
            let tgt = old(app).runtime.screens[0int].workspaces[w as int].clients@;
            let moved = migrated_count(src.len(), tgt.len()) as int;
            &&& final(app).config == old(app).config
            &&& final(app).core == old(app).core
            &&& final(app).runtime.mouse_state == old(app).runtime.mouse_state
            &&& final(app).runtime.autostart_rules == old(app).runtime.autostart_rules
            &&& final(app).runtime.current_screen == old(app).runtime.current_screen
            &&& final(app).runtime.current_workspace == old(app).runtime.current_workspace
            &&& final(app).runtime.screens.len() == old(app).runtime.screens.len()
            &&& forall|s2: int|
                0 <= s2 < old(app).runtime.screens.len() && s2 != 0 && s2 != s
                    ==> final(app).runtime.screens[s2] == old(app).runtime.screens[s2]
            &&& final(app).runtime.screens[0int] == (Screen {
                workspaces: final(app).runtime.screens[0int].workspaces,
                ..old(app).runtime.screens[0int]
            })
            &&& final(app).runtime.screens[s as int] == (Screen {
                workspaces: final(app).runtime.screens[s as int].workspaces,
                ..old(app).runtime.screens[s as int]
            })
            &&& final(app).runtime.screens[0int].workspaces.len() == old(
                app,
            ).runtime.screens[0int].workspaces.len()
            &&& final(app).runtime.screens[s as int].workspaces.len() == old(
                app,
            ).runtime.screens[s as int].workspaces.len()
            &&& forall|w2: int|
                0 <= w2 < NUMBER_OF_DESKTOPS && w2 != w
                    ==> final(app).runtime.screens[0int].workspaces[w2] == old(
                    app,
                ).runtime.screens[0int].workspaces[w2]
            &&& forall|w2: int|
                0 <= w2 < NUMBER_OF_DESKTOPS && w2 != w
                    ==> final(app).runtime.screens[s as int].workspaces[w2] == old(
                    app,
                ).runtime.screens[s as int].workspaces[w2]
            &&& final(app).runtime.screens[0int].workspaces[w as int] == (Workspace {
                clients: final(app).runtime.screens[0int].workspaces[w as int].clients,
                current_client: final(app).runtime.screens[0int].workspaces[w as int].current_client,
                ..old(app).runtime.screens[0int].workspaces[w as int]
            })
            &&& final(app).runtime.screens[s as int].workspaces[w as int] == (Workspace {
                clients: final(app).runtime.screens[s as int].workspaces[w as int].clients,
                current_client: final(app).runtime.screens[s as int].workspaces[w as int].current_client,
                ..old(app).runtime.screens[s as int].workspaces[w as int]
            })
            &&& final(app).runtime.screens[0int].workspaces[w as int].clients@ == tgt + src.take(
                moved,
            )
            &&& final(app).runtime.screens[s as int].workspaces[w as int].clients@ == src.skip(
                moved,
            )
            &&& final(out)@ == old(out)@ + desktop_cmds(src.take(moved), w as int)
        }),
{
    let ghost src = app.runtime.screens[s as int].workspaces[w as int].clients@;
    let ghost tgt = app.runtime.screens[0int].workspaces[w as int].clients@;
    let ghost k: int = 0;
    loop
        invariant
            wf(*app),
            app.config == old(app).config,
            app.core == old(app).core,
            app.runtime.mouse_state == old(app).runtime.mouse_state,
            app.runtime.autostart_rules == old(app).runtime.autostart_rules,
            0 < s < app.runtime.screens.len(),
            app.runtime.screens.len() == old(app).runtime.screens.len(),
            app.runtime.current_screen == old(app).runtime.current_screen,
            app.runtime.current_workspace == old(app).runtime.current_workspace,
            app.runtime.current_screen != s,
            w < NUMBER_OF_DESKTOPS,
            src == old(app).runtime.screens[s as int].workspaces[w as int].clients@,
            tgt == old(app).runtime.screens[0int].workspaces[w as int].clients@,
            0 <= k <= src.len(),
            tgt.len() + k <= MAX_CLIENTS,
            app.runtime.screens[0int].workspaces[w as int].clients@ == tgt + src.take(k),
            app.runtime.screens[s as int].workspaces[w as int].clients@ == src.skip(k),
            out@ == old(out)@ + desktop_cmds(src.take(k), w as int),
            forall|s2: int|
                0 <= s2 < old(app).runtime.screens.len() && s2 != 0 && s2 != s
                    ==> app.runtime.screens[s2] == old(app).runtime.screens[s2],
            app.runtime.screens[0int] == (Screen {
                workspaces: app.runtime.screens[0int].workspaces,
                ..old(app).runtime.screens[0int]
            }),
            app.runtime.screens[s as int] == (Screen {
                workspaces: app.runtime.screens[s as int].workspaces,
                ..old(app).runtime.screens[s as int]
            }),
            app.runtime.screens[0int].workspaces.len() == old(
                app,
            ).runtime.screens[0int].workspaces.len(),
            app.runtime.screens[s as int].workspaces.len() == old(
                app,
            ).runtime.screens[s as int].workspaces.len(),
            forall|w2: int|
                0 <= w2 < NUMBER_OF_DESKTOPS && w2 != w ==> app.runtime.screens[0int].workspaces[w2]
                    == old(app).runtime.screens[0int].workspaces[w2],
            forall|w2: int|
                0 <= w2 < NUMBER_OF_DESKTOPS && w2 != w
                    ==> app.runtime.screens[s as int].workspaces[w2] == old(
                    app,
                ).runtime.screens[s as int].workspaces[w2],
            app.runtime.screens[0int].workspaces[w as int] == (Workspace {
                clients: app.runtime.screens[0int].workspaces[w as int].clients,
                current_client: app.runtime.screens[0int].workspaces[w as int].current_client,
                ..old(app).runtime.screens[0int].workspaces[w as int]
            }),
            app.runtime.screens[s as int].workspaces[w as int] == (Workspace {
                clients: app.runtime.screens[s as int].workspaces[w as int].clients,
                current_client: app.runtime.screens[s as int].workspaces[w as int].current_client,
                ..old(app).runtime.screens[s as int].workspaces[w as int]
            }),
        ensures
            k == migrated_count(src.len(), tgt.len()),
        decreases src.len() - k,
    {
        proof {
            assert(screen_wf(app.runtime.screens[s as int]));
            assert(screen_wf(app.runtime.screens[0int]));
        }
        if app.runtime.screens[s].workspaces[w].clients.len() == 0 {
            proof {
                assert(src.skip(k).len() == 0);
                assert(k == migrated_count(src.len(), tgt.len()));
            }
            break ;
        }
        if app.runtime.screens[0].workspaces[w].clients.len() >= MAX_CLIENTS {
            proof {
                assert(tgt.len() + k == MAX_CLIENTS);
                assert(k == migrated_count(src.len(), tgt.len()));
            }
            break ;
        }
        let ghost a0 = *app;
        // Take the bottom client from the doomed workspace and keep its
        // cursor sound.
        let wref = &mut app.runtime.screens[s].workspaces[w];
        let client = wref.clients.remove(0);
        let newlen = wref.clients.len();
        wref.current_client = if newlen == 0 {
            None
        } else {
            Some(0)
        };
        let ghost a1 = *app;
        proof {
            assert(client == src[k]);
            assert(a1.runtime.screens[s as int].workspaces[w as int].clients@ =~= src.skip(k + 1));
            crate::model::lemma_ids_unique_after_remove(
                a0.runtime,
                a1.runtime,
                s as int,
                w as int,
                0,
            );
            crate::model::lemma_removed_window_absent(
                a0.runtime,
                a1.runtime,
                s as int,
                w as int,
                0,
            );
            assert forall|s2: int|
                0 <= s2 < app.runtime.screens.len() implies screen_wf(
                #[trigger] app.runtime.screens[s2],
            ) by {
                assert(screen_wf(a0.runtime.screens[s2]));
                assert forall|w2: int|
                    0 <= w2 < app.runtime.screens[s2].workspaces.len() implies workspace_wf(
                    #[trigger] app.runtime.screens[s2].workspaces[w2],
                ) by {
                    assert(workspace_wf(a0.runtime.screens[s2].workspaces[w2]));
                    if s2 == s as int && w2 == w as int {
                        let s1c = a0.runtime.screens[s2].workspaces[w2].clients@;
                        assert forall|c2: int|
                            0 <= c2 < app.runtime.screens[s2].workspaces[w2].clients.len()
                                implies client_wf(
                            #[trigger] app.runtime.screens[s2].workspaces[w2].clients[c2],
                        ) by {
                            assert(client_wf(s1c[c2 + 1]));
                        }
                    } else {
                        assert(app.runtime.screens[s2].workspaces[w2]
                            == a0.runtime.screens[s2].workspaces[w2]);
                    }
                }
            }
            assert(wf(*app));
            assert(client_wf(client));
        }
        // Announce the client's new desktop on the first screen.
        crate::helper::update_client_desktop(app, client.window_id, w as u64, out);
        // Push it on top of the first screen's matching workspace; give
        // that workspace (and the global cursor, when it is the active
        // workspace) a selection when it had none.
        let tref = &mut app.runtime.screens[0].workspaces[w];
        let tlen = tref.clients.len();
        let had_none = tref.current_client.is_none();
        if had_none {
            tref.current_client = Some(tlen);
        }
        tref.clients.push(client);
        if app.runtime.current_screen == 0 && app.runtime.current_workspace == w {
            if had_none {
                app.runtime.current_client = Some(tlen);
            }
        }
        let ghost a2 = *app;
        proof {
            crate::model::lemma_ids_unique_after_push(
                a1.runtime,
                a2.runtime,
                0,
                w as int,
                src[k],
            );
            assert forall|s2: int|
                0 <= s2 < app.runtime.screens.len() implies screen_wf(
                #[trigger] app.runtime.screens[s2],
            ) by {
                assert(screen_wf(a1.runtime.screens[s2]));
                assert forall|w2: int|
                    0 <= w2 < app.runtime.screens[s2].workspaces.len() implies workspace_wf(
                    #[trigger] app.runtime.screens[s2].workspaces[w2],
                ) by {
                    assert(workspace_wf(a1.runtime.screens[s2].workspaces[w2]));
                    if s2 == 0 && w2 == w as int {
                        let s1c = a1.runtime.screens[s2].workspaces[w2].clients@;
                        assert forall|c2: int|
                            0 <= c2 < app.runtime.screens[s2].workspaces[w2].clients.len()
                                implies client_wf(
                            #[trigger] app.runtime.screens[s2].workspaces[w2].clients[c2],
                        ) by {
                            if c2 < s1c.len() {
                                assert(client_wf(s1c[c2]));
                            }
                        }
                    } else {
                        assert(app.runtime.screens[s2].workspaces[w2]
                            == a1.runtime.screens[s2].workspaces[w2]);
                    }
                }
            }
            assert(wf(*app));
            assert(app.runtime.screens[0int].workspaces[w as int].clients@ =~= tgt + src.take(
                k + 1,
            ));
            lemma_desktop_cmds_snoc(src, w as int, k);
            assert(out@ =~= old(out)@ + desktop_cmds(src.take(k + 1), w as int));
        }
        proof {
            k = k + 1;
        }
    }
}

/// A client list cut at the workspace capacity.
pub open spec fn cap_take(s: Seq<Client>) -> Seq<Client> {
    s.take(
        if s.len() <= MAX_CLIENTS {
            s.len() as int
        } else {
            MAX_CLIENTS as int
        },
    )
}

/// The clients the doomed screens `keep..s` contribute to workspace `w`,
/// highest screen first (the order they are migrated in).
pub open spec fn excess_clients(rt: Runtime, keep: int, w: int, s: int) -> Seq<Client>
    decreases s - keep,
{
    if s <= keep {
        Seq::empty()
    } else {
        rt.screens[s - 1].workspaces[w].clients@ + excess_clients(rt, keep, w, s - 1)
    }
}

/// Lowering the kept count by one appends that screen's contribution.
pub proof fn lemma_excess_peel(rt: Runtime, keep: int, w: int, s: int)
    requires
        0 <= keep < s,
    ensures
        excess_clients(rt, keep, w, s) == excess_clients(rt, keep + 1, w, s)
            + rt.screens[keep].workspaces[w].clients@,
    decreases s - keep,
{
    if s == keep + 1 {
        assert(excess_clients(rt, keep, w, keep) =~= Seq::<Client>::empty());
        assert(excess_clients(rt, keep + 1, w, keep + 1) =~= Seq::<Client>::empty());
        assert(excess_clients(rt, keep, w, s) =~= rt.screens[keep].workspaces[w].clients@);
        assert(excess_clients(rt, keep, w, s) =~= excess_clients(rt, keep + 1, w, s)
            + rt.screens[keep].workspaces[w].clients@);
    } else {
        lemma_excess_peel(rt, keep, w, s - 1);
        assert(excess_clients(rt, keep, w, s) == rt.screens[s - 1].workspaces[w].clients@
            + excess_clients(rt, keep, w, s - 1));
        assert(excess_clients(rt, keep + 1, w, s) == rt.screens[s - 1].workspaces[w].clients@
            + excess_clients(rt, keep + 1, w, s - 1));
        assert(excess_clients(rt, keep, w, s) =~= excess_clients(rt, keep + 1, w, s)
            + rt.screens[keep].workspaces[w].clients@);
    }
}

/// Handing one more source workspace to a capacity-cut target extends
/// the cut concatenation.
pub proof fn lemma_cap_take_extend(fullcur: Seq<Client>, src: Seq<Client>)
    ensures
        ({
            let cur0 = cap_take(fullcur);
            let moved = migrated_count(src.len(), cur0.len()) as int;
            cur0 + src.take(moved) == cap_take(fullcur + src)
        }),
{
    let cur0 = cap_take(fullcur);
    let moved = migrated_count(src.len(), cur0.len()) as int;
    if fullcur.len() <= MAX_CLIENTS {
        assert(cur0 =~= fullcur);
        if src.len() <= MAX_CLIENTS - fullcur.len() {
            assert(src.take(moved) =~= src);
            assert(cur0 + src.take(moved) =~= cap_take(fullcur + src));
        } else {
            assert(cur0 + src.take(moved) =~= (fullcur + src).take(MAX_CLIENTS as int));
            assert(cap_take(fullcur + src) =~= (fullcur + src).take(MAX_CLIENTS as int));
        }
    } else {
        assert(cur0 =~= fullcur.take(MAX_CLIENTS as int));
        assert(moved == 0);
        assert(src.take(0) =~= Seq::<Client>::empty());
        assert(cur0 + src.take(0) =~= (fullcur + src).take(MAX_CLIENTS as int));
        assert(cap_take(fullcur + src) =~= (fullcur + src).take(MAX_CLIENTS as int));
    }
}

/// Rebuild the screen set after a monitor topology change: excess
/// screens hand their clients to the first screen (workspace by
/// workspace) and disappear, missing screens are created with fresh
/// workspaces, every kept screen takes its monitor's geometry, and the
/// cursors are parked on the first screen when theirs disappeared.
#[verifier::rlimit(100)]
#[verifier::spinoff_prover]
pub fn update_screens(
    app: &mut Application,
    monitors: &Vec<crate::model::MonitorInfo>,
    out: &mut Vec<DriverCommand>,
)
    requires
        wf(*old(app)),
        1 <= monitors.len() <= 64,
        forall|i: int| 0 <= i < monitors.len() ==> crate::model::monitor_wf(#[trigger] monitors@[i]),
    ensures
        wf(*final(app)),
        final(app).config == old(app).config,
        final(app).core == old(app).core,
        final(app).runtime.screens.len() == monitors.len(),
        forall|i: int|
            0 <= i < monitors.len() ==> {
                let scr = #[trigger] final(app).runtime.screens[i];
                &&& scr.number == monitors@[i].number
                &&& scr.x == monitors@[i].x
                &&& scr.y == monitors@[i].y
                &&& scr.width == monitors@[i].width
                &&& scr.height == monitors@[i].height
            },
        // Every client of a dropped screen lands on the same-index
        // workspace of the first screen, in screen order, up to the
        // capacity cut; kept screens keep their workspaces, new screens
        // start empty.
        forall|w: int|
            0 <= w < NUMBER_OF_DESKTOPS
                ==> (#[trigger] final(app).runtime.screens[0int].workspaces[w]).clients@
                == cap_take(
                old(app).runtime.screens[0int].workspaces[w].clients@ + excess_clients(
                    old(app).runtime,
                    monitors.len() as int,
                    w,
                    old(app).runtime.screens.len() as int,
                ),
            ),
        forall|i: int, w: int|
            1 <= i < monitors.len() && i < old(app).runtime.screens.len() && 0 <= w
                < NUMBER_OF_DESKTOPS ==> #[trigger] final(app).runtime.screens[i].workspaces[w]
                == old(app).runtime.screens[i].workspaces[w],
        forall|i: int, w: int|
            old(app).runtime.screens.len() <= i < monitors.len() && 0 <= w < NUMBER_OF_DESKTOPS
                ==> (#[trigger] final(app).runtime.screens[i].workspaces[w]).clients.len() == 0,
        old(out)@.is_prefix_of(final(out)@),
{
    let target = monitors.len();
    proof {
        assert(screen_wf(old(app).runtime.screens[0int]));
        assert forall|w2: int|
            0 <= w2 < NUMBER_OF_DESKTOPS
                implies (#[trigger] app.runtime.screens[0int].workspaces[w2]).clients@
            == cap_take(
            old(app).runtime.screens[0int].workspaces[w2].clients@ + excess_clients(
                old(app).runtime,
                app.runtime.screens.len() as int,
                w2,
                old(app).runtime.screens.len() as int,
            ),
        ) by {
            let base = old(app).runtime.screens[0int].workspaces[w2].clients@;
            assert(workspace_wf(old(app).runtime.screens[0int].workspaces[w2]));
            assert(excess_clients(
                old(app).runtime,
                app.runtime.screens.len() as int,
                w2,
                old(app).runtime.screens.len() as int,
            ) =~= Seq::<Client>::empty());
            assert(base + Seq::<Client>::empty() =~= base);
            assert(cap_take(base) =~= base);
        }
    }

    // Park the cursors on the first screen when theirs will disappear.
    if app.runtime.current_screen >= target {
        app.runtime.current_screen = 0;
        proof {
            assert(screen_wf(app.runtime.screens[0int]));
        }
        let cw = app.runtime.screens[0].current_workspace;
        app.runtime.current_workspace = cw;
        app.runtime.current_client = app.runtime.screens[0].workspaces[cw].current_client;
        proof {
            crate::model::lemma_ids_unique_pointwise(old(app).runtime, app.runtime);
            assert(wf(*app));
        }
    }

    // Move everything off the excess screens and drop them.
    while app.runtime.screens.len() > target
        invariant
            wf(*app),
            app.config == old(app).config,
            app.core == old(app).core,
            target == monitors.len(),
            1 <= target,
            app.runtime.screens.len() <= old(app).runtime.screens.len(),
            app.runtime.screens.len() >= target || app.runtime.screens.len() == old(
                app,
            ).runtime.screens.len(),
            app.runtime.current_screen < target,
            old(out)@.is_prefix_of(out@),
            forall|i: int|
                1 <= i < app.runtime.screens.len() ==> #[trigger] app.runtime.screens[i] == old(
                    app,
                ).runtime.screens[i],
            app.runtime.screens[0int] == (Screen {
                workspaces: app.runtime.screens[0int].workspaces,
                ..old(app).runtime.screens[0int]
            }),
            app.runtime.screens[0int].workspaces.len() == NUMBER_OF_DESKTOPS,
            forall|w2: int|
                0 <= w2 < NUMBER_OF_DESKTOPS ==> #[trigger] app.runtime.screens[0int].workspaces[w2]
                    == (Workspace {
                    clients: app.runtime.screens[0int].workspaces[w2].clients,
                    current_client: app.runtime.screens[0int].workspaces[w2].current_client,
                    ..old(app).runtime.screens[0int].workspaces[w2]
                }),
            forall|w2: int|
                0 <= w2 < NUMBER_OF_DESKTOPS
                    ==> (#[trigger] app.runtime.screens[0int].workspaces[w2]).clients@ == cap_take(
                    old(app).runtime.screens[0int].workspaces[w2].clients@ + excess_clients(
                        old(app).runtime,
                        app.runtime.screens.len() as int,
                        w2,
                        old(app).runtime.screens.len() as int,
                    ),
                ),
        decreases app.runtime.screens.len(),
    {
        let s = app.runtime.screens.len() - 1;
        let ghost len_now = app.runtime.screens.len() as int;
        let ghost len0 = old(app).runtime.screens.len() as int;
        let mut w: usize = 0;
        while w < NUMBER_OF_DESKTOPS
            invariant
                wf(*app),
                app.config == old(app).config,
                app.core == old(app).core,
                s == app.runtime.screens.len() - 1,
                s as int == len_now - 1,
                s >= target,
                len_now <= len0 == old(app).runtime.screens.len(),
                1 <= target == monitors.len(),
                app.runtime.current_screen < target,
                w <= NUMBER_OF_DESKTOPS,
                old(out)@.is_prefix_of(out@),
                forall|i: int|
                    1 <= i < app.runtime.screens.len() && i != s as int
                        ==> #[trigger] app.runtime.screens[i] == old(app).runtime.screens[i],
                app.runtime.screens[s as int] == (Screen {
                    workspaces: app.runtime.screens[s as int].workspaces,
                    ..old(app).runtime.screens[s as int]
                }),
                app.runtime.screens[s as int].workspaces.len() == NUMBER_OF_DESKTOPS,
                forall|w2: int|
                    w <= w2 < NUMBER_OF_DESKTOPS
                        ==> #[trigger] app.runtime.screens[s as int].workspaces[w2] == old(
                        app,
                    ).runtime.screens[s as int].workspaces[w2],
                app.runtime.screens[0int] == (Screen {
                    workspaces: app.runtime.screens[0int].workspaces,
                    ..old(app).runtime.screens[0int]
                }),
                app.runtime.screens[0int].workspaces.len() == NUMBER_OF_DESKTOPS,
                forall|w2: int|
                    0 <= w2 < NUMBER_OF_DESKTOPS ==> #[trigger] app.runtime.screens[0int].workspaces[w2]
                        == (Workspace {
                        clients: app.runtime.screens[0int].workspaces[w2].clients,
                        current_client: app.runtime.screens[0int].workspaces[w2].current_client,
                        ..old(app).runtime.screens[0int].workspaces[w2]
                    }),
                forall|w2: int|
                    w <= w2 < NUMBER_OF_DESKTOPS
                        ==> (#[trigger] app.runtime.screens[0int].workspaces[w2]).clients@
                        == cap_take(
                        old(app).runtime.screens[0int].workspaces[w2].clients@ + excess_clients(
                            old(app).runtime,
                            len_now,
                            w2,
                            len0,
                        ),
                    ),
                forall|w2: int|
                    0 <= w2 < w
                        ==> (#[trigger] app.runtime.screens[0int].workspaces[w2]).clients@
                        == cap_take(
                        old(app).runtime.screens[0int].workspaces[w2].clients@ + excess_clients(
                            old(app).runtime,
                            len_now - 1,
                            w2,
                            len0,
                        ),
                    ),
            decreases NUMBER_OF_DESKTOPS - w,
        {
            let ghost amid = *app;
            migrate_workspace(app, s, w, out);
            proof {
                assert(old(out)@.is_prefix_of(out@)) by {
                    assert(old(out)@ =~= out@.subrange(0, old(out)@.len() as int));
                }
                let base = old(app).runtime.screens[0int].workspaces[w as int].clients@;
                let fullcur = base + excess_clients(old(app).runtime, len_now, w as int, len0);
                let src = old(app).runtime.screens[s as int].workspaces[w as int].clients@;
                assert(amid.runtime.screens[s as int].workspaces[w as int].clients@ == src);
                assert(amid.runtime.screens[0int].workspaces[w as int].clients@ == cap_take(
                    fullcur,
                ));
                lemma_cap_take_extend(fullcur, src);
                lemma_excess_peel(old(app).runtime, len_now - 1, w as int, len0);
                assert(excess_clients(old(app).runtime, len_now - 1, w as int, len0)
                    == excess_clients(old(app).runtime, len_now, w as int, len0) + src);
                assert(base + excess_clients(old(app).runtime, len_now - 1, w as int, len0)
                    =~= fullcur + src);
                assert(app.runtime.screens[0int].workspaces[w as int].clients@ == cap_take(
                    base + excess_clients(old(app).runtime, len_now - 1, w as int, len0),
                ));
            }
            w = w + 1;
        }
        let ghost a1 = *app;
        app.runtime.screens.pop();
        proof {
            crate::model::lemma_ids_unique_after_screen_pop(a1.runtime, app.runtime);
            assert forall|s2: int|
                0 <= s2 < app.runtime.screens.len() implies screen_wf(
                #[trigger] app.runtime.screens[s2],
            ) by {
                assert(app.runtime.screens[s2] == a1.runtime.screens[s2]);
                assert(screen_wf(a1.runtime.screens[s2]));
            }
            assert(wf(*app));
            assert(old(out)@.is_prefix_of(out@)) by {
                assert(old(out)@ =~= out@.subrange(0, old(out)@.len() as int));
            }
        }
    }

    proof {
        // Whichever loop ran, the first screen now carries the migrated
        // clients of every dropped screen (none, when screens were added).
        assert forall|w2: int|
            0 <= w2 < NUMBER_OF_DESKTOPS
                implies (#[trigger] app.runtime.screens[0int].workspaces[w2]).clients@ == cap_take(
            old(app).runtime.screens[0int].workspaces[w2].clients@ + excess_clients(
                old(app).runtime,
                target as int,
                w2,
                old(app).runtime.screens.len() as int,
            ),
        ) by {
            if app.runtime.screens.len() < target {
                assert(excess_clients(
                    old(app).runtime,
                    target as int,
                    w2,
                    old(app).runtime.screens.len() as int,
                ) =~= Seq::<Client>::empty());
                assert(excess_clients(
                    old(app).runtime,
                    app.runtime.screens.len() as int,
                    w2,
                    old(app).runtime.screens.len() as int,
                ) =~= Seq::<Client>::empty());
            }
        }
    }

    // Create the missing screens with fresh workspaces.
    while app.runtime.screens.len() < target
        invariant
            wf(*app),
            app.config == old(app).config,
            app.core == old(app).core,
            1 <= app.runtime.screens.len() <= target,
            target == monitors.len() <= 64,
            old(app).runtime.screens.len() <= app.runtime.screens.len()
                || app.runtime.screens.len() == target,
            forall|i: int|
                0 <= i < monitors.len() ==> crate::model::monitor_wf(#[trigger] monitors@[i]),
            app.runtime.current_screen < app.runtime.screens.len(),
            old(out)@.is_prefix_of(out@),
            app.runtime.screens[0int].workspaces.len() == NUMBER_OF_DESKTOPS,
            forall|w2: int|
                0 <= w2 < NUMBER_OF_DESKTOPS
                    ==> (#[trigger] app.runtime.screens[0int].workspaces[w2]).clients@ == cap_take(
                    old(app).runtime.screens[0int].workspaces[w2].clients@ + excess_clients(
                        old(app).runtime,
                        target as int,
                        w2,
                        old(app).runtime.screens.len() as int,
                    ),
                ),
            forall|i: int|
                1 <= i < app.runtime.screens.len() && i < old(app).runtime.screens.len()
                    ==> #[trigger] app.runtime.screens[i] == old(app).runtime.screens[i],
            forall|i: int, w2: int|
                old(app).runtime.screens.len() <= i < app.runtime.screens.len() && 0 <= w2
                    < NUMBER_OF_DESKTOPS
                    ==> (#[trigger] app.runtime.screens[i].workspaces[w2]).clients.len() == 0,
        decreases target - app.runtime.screens.len(),
    {
        let i = app.runtime.screens.len();
        let m = &monitors[i];
        let mut fresh = crate::model::init_screen(m.number, m.x, m.y, m.width, m.height, 500);
        // A configured per-workspace master split overrides the default.
        if i < app.config.desktops.splits.len() {
            let mut wk: usize = 0;
            while wk < NUMBER_OF_DESKTOPS
                invariant
                    wf(*app),
                    app.config == old(app).config,
                    i < app.config.desktops.splits.len(),
                    wk <= NUMBER_OF_DESKTOPS,
                    screen_wf(fresh),
                    fresh.number == m.number,
                    fresh.x == m.x,
                    fresh.y == m.y,
                    fresh.width == m.width,
                    fresh.height == m.height,
                    forall|w2: int|
                        0 <= w2 < NUMBER_OF_DESKTOPS
                            ==> (#[trigger] fresh.workspaces[w2]).clients.len() == 0,
                decreases NUMBER_OF_DESKTOPS - wk,
            {
                proof {
                    assert(app.config.desktops.splits@[i as int].len() == NUMBER_OF_DESKTOPS);
                    assert(0 < app.config.desktops.splits@[i as int][wk as int] < 1000);
                }
                let ghost fresh0 = fresh;
                let mwv = app.config.desktops.splits[i][wk];
                let wr = &mut fresh.workspaces[wk];
                wr.master_width = mwv;
                proof {
                    assert forall|w2: int|
                        0 <= w2 < fresh.workspaces.len() implies workspace_wf(
                        #[trigger] fresh.workspaces[w2],
                    ) && fresh.workspaces[w2].clients.len() == 0 by {
                        if w2 != wk as int {
                            assert(fresh.workspaces[w2] == fresh0.workspaces[w2]);
                        }
                        assert(workspace_wf(fresh0.workspaces[w2]));
                        assert(fresh0.workspaces[w2].clients.len() == 0);
                    }
                }
                wk = wk + 1;
            }
        }
        let ghost a1 = *app;
        app.runtime.screens.push(fresh);
        proof {
            crate::model::lemma_ids_unique_after_screen_push(a1.runtime, app.runtime);
            assert forall|i2: int|
                1 <= i2 < app.runtime.screens.len() && i2 < old(app).runtime.screens.len()
                    implies #[trigger] app.runtime.screens[i2] == old(app).runtime.screens[i2] by {
                assert(app.runtime.screens[i2] == a1.runtime.screens[i2]);
            }
            assert forall|i2: int, w2: int|
                old(app).runtime.screens.len() <= i2 < app.runtime.screens.len() && 0 <= w2
                    < NUMBER_OF_DESKTOPS
                    implies (#[trigger] app.runtime.screens[i2].workspaces[w2]).clients.len()
                == 0 by {
                if i2 < a1.runtime.screens.len() {
                    assert(app.runtime.screens[i2] == a1.runtime.screens[i2]);
                } else {
                    assert(app.runtime.screens[i2] == fresh);
                }
            }
            assert forall|s2: int|
                0 <= s2 < app.runtime.screens.len() implies screen_wf(
                #[trigger] app.runtime.screens[s2],
            ) by {
                if s2 < a1.runtime.screens.len() {
                    assert(app.runtime.screens[s2] == a1.runtime.screens[s2]);
                    assert(screen_wf(a1.runtime.screens[s2]));
                }
            }
            assert(wf(*app));
        }
    }

    // Give every kept screen its monitor's geometry; stale bar insets
    // that no longer fit are dropped.
    let mut i: usize = 0;
    while i < target
        invariant
            wf(*app),
            app.config == old(app).config,
            app.core == old(app).core,
            app.runtime.screens.len() == target == monitors.len(),
            i <= target,
            forall|j: int|
                0 <= j < monitors.len() ==> crate::model::monitor_wf(#[trigger] monitors@[j]),
            app.runtime.current_screen < target,
            old(out)@.is_prefix_of(out@),
            forall|j: int|
                0 <= j < i ==> {
                    let scr = #[trigger] app.runtime.screens[j];
                    &&& scr.number == monitors@[j].number
                    &&& scr.x == monitors@[j].x
                    &&& scr.y == monitors@[j].y
                    &&& scr.width == monitors@[j].width
                    &&& scr.height == monitors@[j].height
                },
            app.runtime.screens[0int].workspaces.len() == NUMBER_OF_DESKTOPS,
            forall|w2: int|
                0 <= w2 < NUMBER_OF_DESKTOPS
                    ==> (#[trigger] app.runtime.screens[0int].workspaces[w2]).clients@ == cap_take(
                    old(app).runtime.screens[0int].workspaces[w2].clients@ + excess_clients(
                        old(app).runtime,
                        target as int,
                        w2,
                        old(app).runtime.screens.len() as int,
                    ),
                ),
            forall|j: int, w2: int|
                1 <= j < target && j < old(app).runtime.screens.len() && 0 <= w2
                    < NUMBER_OF_DESKTOPS ==> #[trigger] app.runtime.screens[j].workspaces[w2]
                    == old(app).runtime.screens[j].workspaces[w2],
            forall|j: int, w2: int|
                old(app).runtime.screens.len() <= j < target && 0 <= w2 < NUMBER_OF_DESKTOPS
                    ==> (#[trigger] app.runtime.screens[j].workspaces[w2]).clients.len() == 0,
        decreases target - i,
    {
        let ghost a1 = *app;
        let number = monitors[i].number;
        let mx = monitors[i].x;
        let my = monitors[i].y;
        let mw = monitors[i].width;
        let mh = monitors[i].height;
        proof {
            assert(screen_wf(app.runtime.screens[i as int]));
        }
        let keep_offsets = {
            let sref = &app.runtime.screens[i];
            (sref.bar_offsets.up as i64) + (sref.bar_offsets.down as i64) < mh
        };
        let sref = &mut app.runtime.screens[i];
        sref.number = number;
        sref.x = mx;
        sref.y = my;
        sref.width = mw;
        sref.height = mh;
        if !keep_offsets {
            sref.bar_offsets = crate::model::BarOffsets { up: 0, down: 0, left: 0, right: 0 };
        }
        proof {
            crate::model::lemma_ids_unique_pointwise(a1.runtime, app.runtime);
            assert forall|s2: int|
                0 <= s2 < app.runtime.screens.len() implies screen_wf(
                #[trigger] app.runtime.screens[s2],
            ) by {
                assert(screen_wf(a1.runtime.screens[s2]));
                if s2 != i as int {
                    assert(app.runtime.screens[s2] == a1.runtime.screens[s2]);
                }
            }
            assert(wf(*app));
        }
        i = i + 1;
    }
}

/// Remember that the first window of process `pid` must land on
/// workspace `workspace` of screen `screen`; the placement resolver
/// consumes the entry when that window appears.
pub fn record_autostart_rule(app: &mut Application, pid: i32, screen: usize, workspace: usize)
    requires
        wf(*old(app)),
    ensures
        wf(*final(app)),
        *final(app) == (Application {
            runtime: Runtime {
                autostart_rules: final(app).runtime.autostart_rules,
                ..old(app).runtime
            },
            ..*old(app)
        }),
        final(app).runtime.autostart_rules@ == old(app).runtime.autostart_rules@.push(
            AutostartRulePID { pid, screen, workspace },
        ),
{
    app.runtime.autostart_rules.push(AutostartRulePID { pid, screen, workspace });
    proof {
        lemma_ids_unique_pointwise(old(app).runtime, app.runtime);
    }
}

} // verus!
