//! Small operations the handlers share: window lookup, cursor reads,
//! modifier comparison and the property announcements.

use vstd::prelude::*;

use crate::commands::DriverCommand;
use crate::model::{
    app_same_structure, client_at, client_replaced_at, client_wf, lemma_ids_unique_pointwise,
    pos_ok, screen_wf, wf, window_present, workspace_wf, Application, Client, Config, NormalHints,
    Runtime, Screen, Workspace, NUMBER_OF_DESKTOPS,
};

verus! {

/// Bit of the shift modifier in an input state mask.
pub const SHIFT_MASK: u32 = 1;

/// Bit of the caps-lock modifier in an input state mask.
pub const LOCK_MASK: u32 = 2;

/// Bit of the control modifier in an input state mask.
pub const CONTROL_MASK: u32 = 4;

/// Bits of the five generic modifiers in an input state mask.
pub const MOD1_MASK: u32 = 8;

pub const MOD2_MASK: u32 = 16;

pub const MOD3_MASK: u32 = 32;

pub const MOD4_MASK: u32 = 64;

pub const MOD5_MASK: u32 = 128;

/// The modifier bits that matter for chord matching: everything but the
/// lock modifier.
pub open spec fn cleaned_modifier(m: u32) -> u32 {
    m & !LOCK_MASK & (SHIFT_MASK | CONTROL_MASK | MOD1_MASK | MOD2_MASK | MOD3_MASK | MOD4_MASK
        | MOD5_MASK)
}

/// Compare two modifier masks, ignoring the lock modifier and any bits
/// beyond the seven chord modifiers.
pub fn match_modifier(mod1: u32, mod2: u32) -> (r: bool)
    ensures
        r == (cleaned_modifier(mod1) == cleaned_modifier(mod2)),
{
    let masked1 = mod1 & !LOCK_MASK & (SHIFT_MASK | CONTROL_MASK | MOD1_MASK | MOD2_MASK
        | MOD3_MASK | MOD4_MASK | MOD5_MASK);
    let masked2 = mod2 & !LOCK_MASK & (SHIFT_MASK | CONTROL_MASK | MOD1_MASK | MOD2_MASK
        | MOD3_MASK | MOD4_MASK | MOD5_MASK);
    masked1 == masked2
}

/// Returns the screen, workspace and client indices of the client with
/// the given window id, or `None` when no client has it.
pub fn find_window_indexes(app: &mut Application, win: u64) -> (r: Option<(usize, usize, usize)>)
    ensures
        *final(app) == *old(app),
        match r {
            Some(p) => pos_ok(old(app).runtime, p.0 as int, p.1 as int, p.2 as int)
                && client_at(old(app).runtime, p.0 as int, p.1 as int, p.2 as int).window_id
                == win,
            None => !window_present(old(app).runtime, win),
        },
{
    let nscreens = app.runtime.screens.len();
    let mut s: usize = 0;
    while s < nscreens
        invariant
            *app == *old(app),
            nscreens == app.runtime.screens.len(),
            s <= nscreens,
            forall|s0: int, w0: int, c0: int|
                0 <= s0 < s && pos_ok(app.runtime, s0, w0, c0)
                    ==> client_at(app.runtime, s0, w0, c0).window_id != win,
        decreases nscreens - s,
    {
        let nws = app.runtime.screens[s].workspaces.len();
        let mut w: usize = 0;
        while w < nws
            invariant
                *app == *old(app),
                nscreens == app.runtime.screens.len(),
                s < nscreens,
                nws == app.runtime.screens[s as int].workspaces.len(),
                w <= nws,
                forall|s0: int, w0: int, c0: int|
                    0 <= s0 < s && pos_ok(app.runtime, s0, w0, c0)
                        ==> client_at(app.runtime, s0, w0, c0).window_id != win,
                forall|w0: int, c0: int|
                    0 <= w0 < w && pos_ok(app.runtime, s as int, w0, c0)
                        ==> client_at(app.runtime, s as int, w0, c0).window_id != win,
            decreases nws - w,
        {
            let nc = app.runtime.screens[s].workspaces[w].clients.len();
            let mut c: usize = 0;
            while c < nc
                invariant
                    *app == *old(app),
                    nscreens == app.runtime.screens.len(),
                    s < nscreens,
                    nws == app.runtime.screens[s as int].workspaces.len(),
                    w < nws,
                    nc == app.runtime.screens[s as int].workspaces[w as int].clients.len(),
                    c <= nc,
                    forall|c0: int|
                        0 <= c0 < c
                            ==> client_at(app.runtime, s as int, w as int, c0).window_id != win,
                decreases nc - c,
            {
                if app.runtime.screens[s].workspaces[w].clients[c].window_id == win {
                    return Some((s, w, c));
                }
                c = c + 1;
            }
            w = w + 1;
        }
        s = s + 1;
    }
    assert(!window_present(app.runtime, win)) by {
        assert forall|s0: int, w0: int, c0: int|
            pos_ok(app.runtime, s0, w0, c0)
                implies #[trigger] client_at(app.runtime, s0, w0, c0).window_id != win by {
        }
    }
    None
}

/// The window id the global cursors select, if any.
pub open spec fn current_client_id_spec(rt: Runtime) -> Option<u64> {
    match rt.current_client {
        None => None,
        Some(i) => Some(
            client_at(rt, rt.current_screen as int, rt.current_workspace as int, i as int).window_id,
        ),
    }
}

/// Returns the id of the globally selected client.
pub fn get_current_client_id(app: &mut Application) -> (r: Option<u64>)
    requires
        wf(*old(app)),
    ensures
        *final(app) == *old(app),
        r == current_client_id_spec(old(app).runtime),
{
    match app.runtime.current_client {
        None => None,
        Some(index) => {
            let rt = &app.runtime;
            Some(
                rt.screens[rt.current_screen].workspaces[rt.current_workspace].clients[
                    index].window_id,
            )
        },
    }
}

/// Announce the desktop index a window belongs to.
pub fn update_client_desktop(
    app: &mut Application,
    win: u64,
    desk: u64,
    out: &mut Vec<DriverCommand>,
)
    ensures
        *final(app) == *old(app),
        final(out)@ == old(out)@.push(DriverCommand::SetClientDesktop { win, desktop: desk }),
{
    out.push(DriverCommand::SetClientDesktop { win, desktop: desk });
}

/// The announcement work `update_active_window` performs: publish the
/// selected window, or focus the root and clear the property when no
/// client is selected.
pub open spec fn active_window_cmds(rt: Runtime) -> Seq<DriverCommand> {
    match current_client_id_spec(rt) {
        Some(win) => seq![DriverCommand::SetActiveWindow { win }],
        None => seq![DriverCommand::FocusRoot, DriverCommand::ClearActiveWindow],
    }
}

/// Publish the active window, or clear it and park input focus on the
/// root window when nothing is selected.
pub fn update_active_window(app: &mut Application, out: &mut Vec<DriverCommand>)
    requires
        wf(*old(app)),
    ensures
        *final(app) == *old(app),
        final(out)@ == old(out)@ + active_window_cmds(old(app).runtime),
{
    match app.runtime.current_client {
        Some(index) => {
            let rt = &app.runtime;
            let win = rt.screens[rt.current_screen].workspaces[rt.current_workspace].clients[
                index].window_id;
            out.push(DriverCommand::SetActiveWindow { win });
        },
        None => {
            out.push(DriverCommand::FocusRoot);
            out.push(DriverCommand::ClearActiveWindow);
        },
    }
}

/// The crossing-notification drain `suppress_notify` emits when the
/// configuration asks focus to ignore geometry changes.
pub open spec fn suppress_cmds(cfg: Config) -> Seq<DriverCommand> {
    if cfg.focus_ignores_geometry {
        seq![DriverCommand::DropPendingCrossings]
    } else {
        Seq::empty()
    }
}

/// Drop queued pointer-crossing notifications when configured to, so a
/// geometry change does not move the focus.
pub fn suppress_notify(app: &mut Application, out: &mut Vec<DriverCommand>)
    ensures
        *final(app) == *old(app),
        final(out)@ == old(out)@ + suppress_cmds(old(app).config),
{
    if !app.config.focus_ignores_geometry {
        assert(final(out)@ =~= old(out)@ + suppress_cmds(old(app).config));
        return ;
    }
    out.push(DriverCommand::DropPendingCrossings);
}

/// Decode a stored desktop index into screen and workspace indices,
/// rejecting anything out of range.
pub open spec fn decode_desktop_spec(rt: Runtime, d: u64) -> Option<(usize, usize)> {
    let s = d / (NUMBER_OF_DESKTOPS as u64);
    let w = d % (NUMBER_OF_DESKTOPS as u64);
    if s < rt.screens.len() && w < rt.screens[s as int].workspaces.len() {
        Some((s as usize, w as usize))
    } else {
        None
    }
}

/// Resolve the desktop index persisted on a window, if one was stored and
/// still names an existing screen and workspace.
pub fn get_client_workspace(app: &mut Application, stored: Option<u64>) -> (r: Option<
    (usize, usize),
>)
    ensures
        *final(app) == *old(app),
        r == match stored {
            Some(d) => decode_desktop_spec(old(app).runtime, d),
            None => None::<(usize, usize)>,
        },
{
    match stored {
        Some(d) => {
            let s = d / (NUMBER_OF_DESKTOPS as u64);
            let w = d % (NUMBER_OF_DESKTOPS as u64);
            if s < app.runtime.screens.len() as u64
                && w < app.runtime.screens[s as usize].workspaces.len() as u64 {
                Some((s as usize, w as usize))
            } else {
                None
            }
        },
        None => None,
    }
}

/// Set or clear the urgency flag of the client owning `win`, and ask the
/// driver to mirror it in the window's published hints.
pub fn set_urgent(app: &mut Application, win: u64, urg: bool, out: &mut Vec<DriverCommand>)
    requires
        wf(*old(app)),
    ensures
        wf(*final(app)),
        app_same_structure(*old(app), *final(app)),
        forall|s: int, w: int, c: int|
            pos_ok(old(app).runtime, s, w, c) ==> #[trigger] client_at(final(app).runtime, s, w, c)
                == (if client_at(old(app).runtime, s, w, c).window_id == win {
                Client { urgent: urg, ..client_at(old(app).runtime, s, w, c) }
            } else {
                client_at(old(app).runtime, s, w, c)
            }),
        final(out)@ == old(out)@.push(DriverCommand::SetUrgencyHint { win, urgent: urg }),
        !window_present(old(app).runtime, win) ==> *final(app) == *old(app),
        forall|s: int, w: int, c: int|
            pos_ok(old(app).runtime, s, w, c) && #[trigger] client_at(
                old(app).runtime,
                s,
                w,
                c,
            ).window_id == win ==> client_replaced_at(
                *old(app),
                *final(app),
                s,
                w,
                c,
                Client { urgent: urg, ..client_at(old(app).runtime, s, w, c) },
            ),
{
    let found = find_window_indexes(app, win);
    if let Some((s, w, c)) = found {
        let cref = &mut app.runtime.screens[s].workspaces[w].clients[c];
        cref.urgent = urg;
        proof {
            assert forall|s2: int, w2: int, c2: int|
                pos_ok(old(app).runtime, s2, w2, c2) implies #[trigger] client_at(
                app.runtime,
                s2,
                w2,
                c2,
            ) == (if client_at(old(app).runtime, s2, w2, c2).window_id == win {
                Client { urgent: urg, ..client_at(old(app).runtime, s2, w2, c2) }
            } else {
                client_at(old(app).runtime, s2, w2, c2)
            }) by {
                if s2 == s && w2 == w && c2 == c {
                } else {
                    assert(client_at(app.runtime, s2, w2, c2) == client_at(
                        old(app).runtime,
                        s2,
                        w2,
                        c2,
                    ));
                }
            }
            lemma_ids_unique_pointwise(old(app).runtime, app.runtime);
            assert forall|s2: int|
                0 <= s2 < app.runtime.screens.len() implies screen_wf(
                #[trigger] app.runtime.screens[s2],
            ) by {
                assert(screen_wf(old(app).runtime.screens[s2]));
                assert forall|w2: int|
                    0 <= w2 < app.runtime.screens[s2].workspaces.len() implies workspace_wf(
                    #[trigger] app.runtime.screens[s2].workspaces[w2],
                ) by {
                    assert(workspace_wf(old(app).runtime.screens[s2].workspaces[w2]));
                    assert forall|c2: int|
                        0 <= c2 < app.runtime.screens[s2].workspaces[w2].clients.len()
                            implies client_wf(
                        #[trigger] app.runtime.screens[s2].workspaces[w2].clients[c2],
                    ) by {
                        assert(client_at(app.runtime, s2, w2, c2)
                            == app.runtime.screens[s2].workspaces[w2].clients[c2]);
                        assert(client_wf(old(app).runtime.screens[s2].workspaces[w2].clients[c2]));
                    }
                }
            }
            assert forall|s2: int, w2: int, c2: int|
                pos_ok(old(app).runtime, s2, w2, c2) && #[trigger] client_at(
                    old(app).runtime,
                    s2,
                    w2,
                    c2,
                ).window_id == win implies client_replaced_at(
                *old(app),
                *app,
                s2,
                w2,
                c2,
                Client { urgent: urg, ..client_at(old(app).runtime, s2, w2, c2) },
            ) by {
                assert(client_at(old(app).runtime, s as int, w as int, c as int).window_id == win);
                assert(s2 == s as int && w2 == w as int && c2 == c as int);
            }
        }
    }
    out.push(DriverCommand::SetUrgencyHint { win, urgent: urg });
}

/// The synthetic geometry confirmation sent to a client.
pub open spec fn configure_cmd(c: Client) -> DriverCommand {
    DriverCommand::NotifyConfigure {
        win: c.window_id,
        x: c.x,
        y: c.y,
        w: c.w,
        h: c.h,
        border: c.border,
    }
}

/// Send a client a synthetic confirmation of its current geometry.
pub fn configure(client: &Client, out: &mut Vec<DriverCommand>)
    ensures
        final(out)@ == old(out)@.push(configure_cmd(*client)),
{
    out.push(DriverCommand::NotifyConfigure {
        win: client.window_id,
        x: client.x,
        y: client.y,
        w: client.w,
        h: client.h,
        border: client.border,
    });
}

/// The geometry application followed by its synthetic confirmation.
pub open spec fn resize_cmds(c: Client) -> Seq<DriverCommand> {
    seq![
        DriverCommand::ApplyGeometry {
            win: c.window_id,
            x: c.x,
            y: c.y,
            w: c.w,
            h: c.h,
            border: c.border,
        },
        configure_cmd(c),
    ]
}

/// Apply a client's stored geometry and confirm it to the client.
pub fn resize_client(client: &Client, out: &mut Vec<DriverCommand>)
    ensures
        final(out)@ == old(out)@ + resize_cmds(*client),
{
    out.push(DriverCommand::ApplyGeometry {
        win: client.window_id,
        x: client.x,
        y: client.y,
        w: client.w,
        h: client.h,
        border: client.border,
    });
    configure(client, out);
    assert(final(out)@ =~= old(out)@ + resize_cmds(*client));
}

/// What the published size bounds make of a client: stored bounds are
/// refreshed, the size is raised to the minimum, and a client whose
/// minimum and maximum agree is pinned as fixed.
pub open spec fn apply_normal_hints(c: Client, hints: Option<NormalHints>) -> Client {
    let c1 = match hints {
        Some(h) => Client {
            minw: if h.has_min {
                h.min_width
            } else {
                c.minw
            },
            minh: if h.has_min {
                h.min_height
            } else {
                c.minh
            },
            maxw: if h.has_max {
                h.max_width
            } else {
                c.maxw
            },
            maxh: if h.has_max {
                h.max_height
            } else {
                c.maxh
            },
            ..c
        },
        None => c,
    };
    let c2 = Client {
        w: if c1.minw != 0 && c1.w < c1.minw as u32 {
            c1.minw as u32
        } else {
            c1.w
        },
        h: if c1.minh != 0 && c1.h < c1.minh as u32 {
            c1.minh as u32
        } else {
            c1.h
        },
        ..c1
    };
    if c2.maxw != 0 && c2.maxh != 0 && c2.maxw == c2.minw && c2.maxh == c2.minh {
        Client { fixed: true, ..c2 }
    } else {
        c2
    }
}

/// Fold freshly read size bounds into a client.
#[verifier::rlimit(50)]
pub fn update_normal_hints(c: &mut Client, hints: Option<NormalHints>)
    requires
        client_wf(*old(c)),
        match hints {
            Some(h) => 0 <= h.min_width <= 65535 && 0 <= h.min_height <= 65535 && 0
                <= h.max_width <= 65535 && 0 <= h.max_height <= 65535,
            None => true,
        },
    ensures
        client_wf(*final(c)),
        *final(c) == apply_normal_hints(*old(c), hints),
{
    if let Some(h) = hints {
        if h.has_max {
            c.maxw = h.max_width;
            c.maxh = h.max_height;
        }
        if h.has_min {
            c.minw = h.min_width;
            c.minh = h.min_height;
        }
    }
    let ghost c1 = match hints {
        Some(h) => Client {
            minw: if h.has_min {
                h.min_width
            } else {
                old(c).minw
            },
            minh: if h.has_min {
                h.min_height
            } else {
                old(c).minh
            },
            maxw: if h.has_max {
                h.max_width
            } else {
                old(c).maxw
            },
            maxh: if h.has_max {
                h.max_height
            } else {
                old(c).maxh
            },
            ..*old(c)
        },
        None => *old(c),
    };
    assert(*c == c1);
    if c.minw != 0 && c.w < c.minw as u32 {
        c.w = c.minw as u32;
    }
    if c.minh != 0 && c.h < c.minh as u32 {
        c.h = c.minh as u32;
    }
    let ghost c2 = Client {
        w: if c1.minw != 0 && c1.w < c1.minw as u32 {
            c1.minw as u32
        } else {
            c1.w
        },
        h: if c1.minh != 0 && c1.h < c1.minh as u32 {
            c1.minh as u32
        } else {
            c1.h
        },
        ..c1
    };
    assert(*c == c2);
    if c.maxw != 0 && c.maxh != 0 && c.maxw == c.minw && c.maxh == c.minh {
        c.fixed = true;
    }
    assert(*c == if c2.maxw != 0 && c2.maxh != 0 && c2.maxw == c2.minw && c2.maxh == c2.minh {
        Client { fixed: true, ..c2 }
    } else {
        c2
    });
}

/// The driver work that makes one client of a shown workspace visible: a
/// fullscreen client covers the whole monitor borderless and is raised;
/// any other client gets its border and stored geometry applied, floating
/// ones raised above the tiling.
pub open spec fn show_client_cmds(scr: Screen, c: Client) -> Seq<DriverCommand> {
    if c.fullscreen {
        seq![
            DriverCommand::MoveResize {
                win: c.window_id,
                x: scr.x as i32,
                y: scr.y as i32,
                w: scr.width as u32,
                h: scr.height as u32,
            },
            DriverCommand::SetBorderWidth { win: c.window_id, width: 0 },
            DriverCommand::Raise { win: c.window_id },
        ]
    } else {
        seq![DriverCommand::SetBorderWidth { win: c.window_id, width: c.border }]
            + resize_cmds(c) + if c.floating {
            seq![DriverCommand::Raise { win: c.window_id }]
        } else {
            Seq::<DriverCommand>::empty()
        }
    }
}

/// The show work for the first `upto` clients of a workspace, in order.
pub open spec fn show_ws_cmds(scr: Screen, s: Seq<Client>, upto: int) -> Seq<DriverCommand>
    decreases upto,
{
    if upto <= 0 {
        Seq::empty()
    } else {
        show_ws_cmds(scr, s, upto - 1) + show_client_cmds(scr, s[upto - 1])
    }
}

/// Bring every client of the workspace on screen: apply geometry and
/// borders, raise what must sit on top, and mark the clients visible.
pub fn show_workspace(
    app: &mut Application,
    screen: usize,
    workspace: usize,
    out: &mut Vec<DriverCommand>,
)
    requires
        wf(*old(app)),
        screen < old(app).runtime.screens.len(),
        workspace < old(app).runtime.screens[screen as int].workspaces.len(),
    ensures
        wf(*final(app)),
        app_same_structure(*old(app), *final(app)),
        forall|s: int, w: int, c: int|
            pos_ok(old(app).runtime, s, w, c) ==> #[trigger] client_at(final(app).runtime, s, w, c)
                == (if s == screen && w == workspace {
                Client { visible: true, ..client_at(old(app).runtime, s, w, c) }
            } else {
                client_at(old(app).runtime, s, w, c)
            }),
        forall|s2: int|
            0 <= s2 < old(app).runtime.screens.len() && s2 != screen
                ==> final(app).runtime.screens[s2] == old(app).runtime.screens[s2],
        final(app).runtime.screens[screen as int] == (Screen {
            workspaces: final(app).runtime.screens[screen as int].workspaces,
            ..old(app).runtime.screens[screen as int]
        }),
        forall|w2: int|
            0 <= w2 < old(app).runtime.screens[screen as int].workspaces.len() && w2 != workspace
                ==> final(app).runtime.screens[screen as int].workspaces[w2] == old(
                app,
            ).runtime.screens[screen as int].workspaces[w2],
        final(app).runtime.screens[screen as int].workspaces[workspace as int] == (Workspace {
            clients: final(app).runtime.screens[screen as int].workspaces[workspace as int].clients,
            ..old(app).runtime.screens[screen as int].workspaces[workspace as int]
        }),
        final(out)@ == old(out)@ + show_ws_cmds(
            old(app).runtime.screens[screen as int],
            old(app).runtime.screens[screen as int].workspaces[workspace as int].clients@,
            old(app).runtime.screens[screen as int].workspaces[workspace as int].clients.len() as int,
        ),
{
    let ghost scr0 = app.runtime.screens[screen as int];
    let ghost ws0 = app.runtime.screens[screen as int].workspaces[workspace as int];
    proof {
        assert(screen_wf(scr0));
        assert(workspace_wf(ws0));
    }
    let scr_x: i64 = app.runtime.screens[screen].x;
    let scr_y: i64 = app.runtime.screens[screen].y;
    let scr_w: i64 = app.runtime.screens[screen].width;
    let scr_h: i64 = app.runtime.screens[screen].height;
    let len = app.runtime.screens[screen].workspaces[workspace].clients.len();
    let mut idx: usize = 0;
    while idx < len
        invariant
            wf(*old(app)),
            wf(*app),
            screen < app.runtime.screens.len(),
            workspace < app.runtime.screens[screen as int].workspaces.len(),
            scr0 == old(app).runtime.screens[screen as int],
            ws0 == old(app).runtime.screens[screen as int].workspaces[workspace as int],
            scr_x == scr0.x,
            scr_y == scr0.y,
            scr_w == scr0.width,
            scr_h == scr0.height,
            len == ws0.clients.len(),
            idx <= len,
            app_same_structure(*old(app), *app),
            forall|s: int, w: int, c: int|
                pos_ok(old(app).runtime, s, w, c) ==> #[trigger] client_at(app.runtime, s, w, c)
                    == (if s == screen && w == workspace && c < idx {
                    Client { visible: true, ..client_at(old(app).runtime, s, w, c) }
                } else {
                    client_at(old(app).runtime, s, w, c)
                }),
            forall|s2: int|
                0 <= s2 < old(app).runtime.screens.len() && s2 != screen
                    ==> app.runtime.screens[s2] == old(app).runtime.screens[s2],
            app.runtime.screens[screen as int] == (Screen {
                workspaces: app.runtime.screens[screen as int].workspaces,
                ..old(app).runtime.screens[screen as int]
            }),
            forall|w2: int|
                0 <= w2 < old(app).runtime.screens[screen as int].workspaces.len() && w2
                    != workspace ==> app.runtime.screens[screen as int].workspaces[w2] == old(
                    app,
                ).runtime.screens[screen as int].workspaces[w2],
            app.runtime.screens[screen as int].workspaces[workspace as int] == (Workspace {
                clients: app.runtime.screens[screen as int].workspaces[workspace as int].clients,
                ..old(app).runtime.screens[screen as int].workspaces[workspace as int]
            }),
            out@ == old(out)@ + show_ws_cmds(scr0, ws0.clients@, idx as int),
        decreases len - idx,
    {
        let ghost out_pre = out@;
        let ghost orig = ws0.clients[idx as int];
        assert(client_at(app.runtime, screen as int, workspace as int, idx as int) == orig);
        let fullscreen = app.runtime.screens[screen].workspaces[workspace].clients[idx].fullscreen;
        let win = app.runtime.screens[screen].workspaces[workspace].clients[idx].window_id;
        if fullscreen {
            out.push(DriverCommand::MoveResize {
                win,
                x: scr_x as i32,
                y: scr_y as i32,
                w: scr_w as u32,
                h: scr_h as u32,
            });
            out.push(DriverCommand::SetBorderWidth { win, width: 0 });
            out.push(DriverCommand::Raise { win });
        } else {
            let border = app.runtime.screens[screen].workspaces[workspace].clients[idx].border;
            out.push(DriverCommand::SetBorderWidth { win, width: border });
            let cl = &app.runtime.screens[screen].workspaces[workspace].clients[idx];
            resize_client(cl, out);
            let floating = app.runtime.screens[screen].workspaces[workspace].clients[idx].floating;
            if floating {
                out.push(DriverCommand::Raise { win });
            }
        }
        assert(out@ =~= out_pre + show_client_cmds(scr0, orig));
        let ghost pre = *app;
        let cref = &mut app.runtime.screens[screen].workspaces[workspace].clients[idx];
        cref.visible = true;
        proof {
            assert forall|s: int, w: int, c: int|
                pos_ok(old(app).runtime, s, w, c) implies #[trigger] client_at(
                app.runtime,
                s,
                w,
                c,
            ) == (if s == screen && w == workspace && c < idx + 1 {
                Client { visible: true, ..client_at(old(app).runtime, s, w, c) }
            } else {
                client_at(old(app).runtime, s, w, c)
            }) by {
                if s == screen && w == workspace && c == idx {
                    assert(client_at(pre.runtime, s, w, c) == client_at(
                        old(app).runtime,
                        s,
                        w,
                        c,
                    ));
                    assert(client_at(app.runtime, s, w, c) == Client {
                        visible: true,
                        ..client_at(pre.runtime, s, w, c)
                    });
                } else {
                    assert(client_at(app.runtime, s, w, c) == client_at(pre.runtime, s, w, c));
                    assert(client_at(pre.runtime, s, w, c) == (if s == screen && w == workspace
                        && c < idx {
                        Client { visible: true, ..client_at(old(app).runtime, s, w, c) }
                    } else {
                        client_at(old(app).runtime, s, w, c)
                    }));
                }
            }
            assert(out@ =~= old(out)@ + show_ws_cmds(scr0, ws0.clients@, idx as int + 1));
            lemma_ids_unique_pointwise(old(app).runtime, app.runtime);
            assert forall|s2: int|
                0 <= s2 < app.runtime.screens.len() implies screen_wf(
                #[trigger] app.runtime.screens[s2],
            ) by {
                assert(screen_wf(old(app).runtime.screens[s2]));
                assert forall|w2: int|
                    0 <= w2 < app.runtime.screens[s2].workspaces.len() implies workspace_wf(
                    #[trigger] app.runtime.screens[s2].workspaces[w2],
                ) by {
                    assert(workspace_wf(old(app).runtime.screens[s2].workspaces[w2]));
                    assert forall|c2: int|
                        0 <= c2 < app.runtime.screens[s2].workspaces[w2].clients.len()
                            implies client_wf(
                        #[trigger] app.runtime.screens[s2].workspaces[w2].clients[c2],
                    ) by {
                        assert(client_at(app.runtime, s2, w2, c2)
                            == app.runtime.screens[s2].workspaces[w2].clients[c2]);
                        assert(client_wf(old(app).runtime.screens[s2].workspaces[w2].clients[c2]));
                    }
                }
            }
        }
        idx = idx + 1;
    }
}

/// The show work depends only on the screen's geometry.
pub proof fn lemma_show_ws_cmds_same_geometry(s1: Screen, s2: Screen, cs: Seq<Client>, upto: int)
    requires
        s2.x == s1.x,
        s2.y == s1.y,
        s2.width == s1.width,
        s2.height == s1.height,
    ensures
        show_ws_cmds(s2, cs, upto) == show_ws_cmds(s1, cs, upto),
    decreases upto,
{
    if upto > 0 {
        lemma_show_ws_cmds_same_geometry(s1, s2, cs, upto - 1);
        assert(show_client_cmds(s2, cs[upto - 1]) == show_client_cmds(s1, cs[upto - 1]));
    }
}

/// Two client sequences whose entries show the same way produce the same
/// show work.
pub proof fn lemma_show_ws_cmds_congruent(scr: Screen, s1: Seq<Client>, s2: Seq<Client>, upto: int)
    requires
        upto <= s1.len(),
        upto <= s2.len(),
        forall|p: int|
            0 <= p < upto ==> show_client_cmds(scr, #[trigger] s2[p]) == show_client_cmds(
                scr,
                s1[p],
            ),
    ensures
        show_ws_cmds(scr, s2, upto) == show_ws_cmds(scr, s1, upto),
    decreases upto,
{
    if upto > 0 {
        lemma_show_ws_cmds_congruent(scr, s1, s2, upto - 1);
    }
}

/// The driver move that parks one hidden client off screen, left of the
/// visible area.
pub open spec fn hide_client_cmd(cfg: Config, c: Client) -> DriverCommand {
    DriverCommand::MoveResize {
        win: c.window_id,
        x: (-(2 * (c.w as int) + cfg.gap_width + cfg.border_size)) as i32,
        y: 0,
        w: c.w,
        h: c.h,
    }
}

/// The hide work for the first `upto` clients of a workspace, in order.
pub open spec fn hide_ws_cmds(cfg: Config, s: Seq<Client>, upto: int) -> Seq<DriverCommand>
    decreases upto,
{
    if upto <= 0 {
        Seq::empty()
    } else {
        hide_ws_cmds(cfg, s, upto - 1).push(hide_client_cmd(cfg, s[upto - 1]))
    }
}

/// Move every client of the workspace out of view and mark it hidden.
pub fn hide_workspace(
    app: &mut Application,
    screen: usize,
    workspace: usize,
    out: &mut Vec<DriverCommand>,
)
    requires
        wf(*old(app)),
        screen < old(app).runtime.screens.len(),
        workspace < old(app).runtime.screens[screen as int].workspaces.len(),
    ensures
        wf(*final(app)),
        app_same_structure(*old(app), *final(app)),
        forall|s: int, w: int, c: int|
            pos_ok(old(app).runtime, s, w, c) ==> #[trigger] client_at(final(app).runtime, s, w, c)
                == (if s == screen && w == workspace {
                Client { visible: false, ..client_at(old(app).runtime, s, w, c) }
            } else {
                client_at(old(app).runtime, s, w, c)
            }),
        forall|s2: int|
            0 <= s2 < old(app).runtime.screens.len() && s2 != screen
                ==> final(app).runtime.screens[s2] == old(app).runtime.screens[s2],
        final(app).runtime.screens[screen as int] == (Screen {
            workspaces: final(app).runtime.screens[screen as int].workspaces,
            ..old(app).runtime.screens[screen as int]
        }),
        forall|w2: int|
            0 <= w2 < old(app).runtime.screens[screen as int].workspaces.len() && w2 != workspace
                ==> final(app).runtime.screens[screen as int].workspaces[w2] == old(
                app,
            ).runtime.screens[screen as int].workspaces[w2],
        final(app).runtime.screens[screen as int].workspaces[workspace as int] == (Workspace {
            clients: final(app).runtime.screens[screen as int].workspaces[workspace as int].clients,
            ..old(app).runtime.screens[screen as int].workspaces[workspace as int]
        }),
        final(out)@ == old(out)@ + hide_ws_cmds(
            old(app).config,
            old(app).runtime.screens[screen as int].workspaces[workspace as int].clients@,
            old(app).runtime.screens[screen as int].workspaces[workspace as int].clients.len() as int,
        ),
{
    let ghost ws0 = app.runtime.screens[screen as int].workspaces[workspace as int];
    proof {
        assert(screen_wf(old(app).runtime.screens[screen as int]));
        assert(workspace_wf(ws0));
    }
    let offset: u32 = app.config.gap_width + app.config.border_size;
    let len = app.runtime.screens[screen].workspaces[workspace].clients.len();
    let mut idx: usize = 0;
    while idx < len
        invariant
            wf(*old(app)),
            wf(*app),
            screen < app.runtime.screens.len(),
            workspace < app.runtime.screens[screen as int].workspaces.len(),
            ws0 == old(app).runtime.screens[screen as int].workspaces[workspace as int],
            offset == old(app).config.gap_width + old(app).config.border_size,
            offset <= 512,
            len == ws0.clients.len(),
            idx <= len,
            app_same_structure(*old(app), *app),
            forall|s: int, w: int, c: int|
                pos_ok(old(app).runtime, s, w, c) ==> #[trigger] client_at(app.runtime, s, w, c)
                    == (if s == screen && w == workspace && c < idx {
                    Client { visible: false, ..client_at(old(app).runtime, s, w, c) }
                } else {
                    client_at(old(app).runtime, s, w, c)
                }),
            forall|s2: int|
                0 <= s2 < old(app).runtime.screens.len() && s2 != screen
                    ==> app.runtime.screens[s2] == old(app).runtime.screens[s2],
            app.runtime.screens[screen as int] == (Screen {
                workspaces: app.runtime.screens[screen as int].workspaces,
                ..old(app).runtime.screens[screen as int]
            }),
            forall|w2: int|
                0 <= w2 < old(app).runtime.screens[screen as int].workspaces.len() && w2
                    != workspace ==> app.runtime.screens[screen as int].workspaces[w2] == old(
                    app,
                ).runtime.screens[screen as int].workspaces[w2],
            app.runtime.screens[screen as int].workspaces[workspace as int] == (Workspace {
                clients: app.runtime.screens[screen as int].workspaces[workspace as int].clients,
                ..old(app).runtime.screens[screen as int].workspaces[workspace as int]
            }),
            out@ == old(out)@ + hide_ws_cmds(old(app).config, ws0.clients@, idx as int),
        decreases len - idx,
    {
        let ghost out_pre = out@;
        let ghost orig = ws0.clients[idx as int];
        assert(client_at(app.runtime, screen as int, workspace as int, idx as int) == orig);
        assert(client_wf(orig));
        let win = app.runtime.screens[screen].workspaces[workspace].clients[idx].window_id;
        let cw = app.runtime.screens[screen].workspaces[workspace].clients[idx].w;
        let ch = app.runtime.screens[screen].workspaces[workspace].clients[idx].h;
        out.push(DriverCommand::MoveResize {
            win,
            x: -(2 * (cw as i32) + offset as i32),
            y: 0,
            w: cw,
            h: ch,
        });
        assert(out@ =~= out_pre.push(hide_client_cmd(old(app).config, orig)));
        let ghost pre = *app;
        let cref = &mut app.runtime.screens[screen].workspaces[workspace].clients[idx];
        cref.visible = false;
        proof {
            assert forall|s: int, w: int, c: int|
                pos_ok(old(app).runtime, s, w, c) implies #[trigger] client_at(
                app.runtime,
                s,
                w,
                c,
            ) == (if s == screen && w == workspace && c < idx + 1 {
                Client { visible: false, ..client_at(old(app).runtime, s, w, c) }
            } else {
                client_at(old(app).runtime, s, w, c)
            }) by {
                if s == screen && w == workspace && c == idx {
                    assert(client_at(pre.runtime, s, w, c) == client_at(
                        old(app).runtime,
                        s,
                        w,
                        c,
                    ));
                    assert(client_at(app.runtime, s, w, c) == Client {
                        visible: false,
                        ..client_at(pre.runtime, s, w, c)
                    });
                } else {
                    assert(client_at(app.runtime, s, w, c) == client_at(pre.runtime, s, w, c));
                    assert(client_at(pre.runtime, s, w, c) == (if s == screen && w == workspace
                        && c < idx {
                        Client { visible: false, ..client_at(old(app).runtime, s, w, c) }
                    } else {
                        client_at(old(app).runtime, s, w, c)
                    }));
                }
            }
            assert(out@ =~= old(out)@ + hide_ws_cmds(old(app).config, ws0.clients@, idx as int + 1));
            lemma_ids_unique_pointwise(old(app).runtime, app.runtime);
            assert forall|s2: int|
                0 <= s2 < app.runtime.screens.len() implies screen_wf(
                #[trigger] app.runtime.screens[s2],
            ) by {
                assert(screen_wf(old(app).runtime.screens[s2]));
                assert forall|w2: int|
                    0 <= w2 < app.runtime.screens[s2].workspaces.len() implies workspace_wf(
                    #[trigger] app.runtime.screens[s2].workspaces[w2],
                ) by {
                    assert(workspace_wf(old(app).runtime.screens[s2].workspaces[w2]));
                    assert forall|c2: int|
                        0 <= c2 < app.runtime.screens[s2].workspaces[w2].clients.len()
                            implies client_wf(
                        #[trigger] app.runtime.screens[s2].workspaces[w2].clients[c2],
                    ) by {
                        assert(client_at(app.runtime, s2, w2, c2)
                            == app.runtime.screens[s2].workspaces[w2].clients[c2]);
                        assert(client_wf(old(app).runtime.screens[s2].workspaces[w2].clients[c2]));
                    }
                }
            }
        }
        idx = idx + 1;
    }
}

/// Window ids of the first `c` clients of a workspace, in stacking order.
pub open spec fn ws_ids_upto(w: Workspace, c: int) -> Seq<u64>
    decreases c,
{
    if c <= 0 {
        Seq::empty()
    } else {
        ws_ids_upto(w, c - 1).push(w.clients[c - 1].window_id)
    }
}

/// Window ids of all clients of a workspace.
pub open spec fn ws_ids(w: Workspace) -> Seq<u64> {
    ws_ids_upto(w, w.clients.len() as int)
}

/// Window ids of the first `w` workspaces of a screen, concatenated.
pub open spec fn screen_ids_upto(s: Screen, w: int) -> Seq<u64>
    decreases w,
{
    if w <= 0 {
        Seq::empty()
    } else {
        screen_ids_upto(s, w - 1) + ws_ids(s.workspaces[w - 1])
    }
}

/// Window ids of all clients of a screen.
pub open spec fn screen_ids(s: Screen) -> Seq<u64> {
    screen_ids_upto(s, s.workspaces.len() as int)
}

/// Window ids of all clients of the first `s` screens, concatenated.
pub open spec fn rt_ids_upto(rt: Runtime, s: int) -> Seq<u64>
    decreases s,
{
    if s <= 0 {
        Seq::empty()
    } else {
        rt_ids_upto(rt, s - 1) + screen_ids(rt.screens[s - 1])
    }
}

/// Window ids of every managed client, screen by screen, workspace by
/// workspace, in stacking order.
pub open spec fn rt_ids(rt: Runtime) -> Seq<u64> {
    rt_ids_upto(rt, rt.screens.len() as int)
}

/// Publish the ordered list of all managed windows.
pub fn update_client_list(app: &mut Application, out: &mut Vec<DriverCommand>)
    ensures
        *final(app) == *old(app),
        final(out)@.len() == old(out)@.len() + 1,
        final(out)@.subrange(0, old(out)@.len() as int) == old(out)@,
        (final(out)@.last() matches DriverCommand::SetClientList { ids } && ids@ == rt_ids(
            old(app).runtime,
        )),
{
    let mut ids: Vec<u64> = Vec::new();
    let nscreens = app.runtime.screens.len();
    let mut s: usize = 0;
    while s < nscreens
        invariant
            *app == *old(app),
            nscreens == app.runtime.screens.len(),
            s <= nscreens,
            ids@ == rt_ids_upto(app.runtime, s as int),
        decreases nscreens - s,
    {
        let nws = app.runtime.screens[s].workspaces.len();
        let mut w: usize = 0;
        while w < nws
            invariant
                *app == *old(app),
                nscreens == app.runtime.screens.len(),
                s < nscreens,
                nws == app.runtime.screens[s as int].workspaces.len(),
                w <= nws,
                ids@ == rt_ids_upto(app.runtime, s as int) + screen_ids_upto(
                    app.runtime.screens[s as int],
                    w as int,
                ),
            decreases nws - w,
        {
            let nc = app.runtime.screens[s].workspaces[w].clients.len();
            let mut c: usize = 0;
            while c < nc
                invariant
                    *app == *old(app),
                    nscreens == app.runtime.screens.len(),
                    s < nscreens,
                    nws == app.runtime.screens[s as int].workspaces.len(),
                    w < nws,
                    nc == app.runtime.screens[s as int].workspaces[w as int].clients.len(),
                    c <= nc,
                    ids@ == rt_ids_upto(app.runtime, s as int) + screen_ids_upto(
                        app.runtime.screens[s as int],
                        w as int,
                    ) + ws_ids_upto(app.runtime.screens[s as int].workspaces[w as int], c as int),
                decreases nc - c,
            {
                ids.push(app.runtime.screens[s].workspaces[w].clients[c].window_id);
                assert(ids@ =~= rt_ids_upto(app.runtime, s as int) + screen_ids_upto(
                    app.runtime.screens[s as int],
                    w as int,
                ) + ws_ids_upto(app.runtime.screens[s as int].workspaces[w as int], c as int + 1));
                c = c + 1;
            }
            assert(ids@ =~= rt_ids_upto(app.runtime, s as int) + screen_ids_upto(
                app.runtime.screens[s as int],
                w as int + 1,
            ));
            w = w + 1;
        }
        assert(ids@ =~= rt_ids_upto(app.runtime, s as int + 1));
        s = s + 1;
    }
    out.push(DriverCommand::SetClientList { ids });
    assert(final(out)@.subrange(0, old(out)@.len() as int) =~= old(out)@);
}

/// Replace the client record at `(s, w, c)` wholesale.
pub fn set_client(app: &mut Application, s: usize, w: usize, c: usize, newc: Client)
    requires
        wf(*old(app)),
        pos_ok(old(app).runtime, s as int, w as int, c as int),
        client_wf(newc),
        newc.window_id == client_at(old(app).runtime, s as int, w as int, c as int).window_id,
    ensures
        wf(*final(app)),
        client_replaced_at(*old(app), *final(app), s as int, w as int, c as int, newc),
{
    let cref = &mut app.runtime.screens[s].workspaces[w].clients[c];
    *cref = newc;
    proof {
        lemma_ids_unique_pointwise(old(app).runtime, app.runtime);
        assert forall|s2: int|
            0 <= s2 < app.runtime.screens.len() implies screen_wf(
            #[trigger] app.runtime.screens[s2],
        ) by {
            assert(screen_wf(old(app).runtime.screens[s2]));
            assert forall|w2: int|
                0 <= w2 < app.runtime.screens[s2].workspaces.len() implies workspace_wf(
                #[trigger] app.runtime.screens[s2].workspaces[w2],
            ) by {
                assert(workspace_wf(old(app).runtime.screens[s2].workspaces[w2]));
                if s2 == s as int && w2 == w as int {
                    assert forall|c2: int|
                        0 <= c2 < app.runtime.screens[s2].workspaces[w2].clients.len()
                            implies client_wf(
                        #[trigger] app.runtime.screens[s2].workspaces[w2].clients[c2],
                    ) by {
                        if c2 != c as int {
                            assert(client_wf(
                                old(app).runtime.screens[s2].workspaces[w2].clients[c2],
                            ));
                        }
                    }
                } else {
                    assert(app.runtime.screens[s2].workspaces[w2] == old(
                        app,
                    ).runtime.screens[s2].workspaces[w2]);
                }
            }
        }
    }
}

} // verus!
