//! The semantic actions key chords map to: killing, moving and cycling
//! clients, switching workspaces and screens, and adjusting the master
//! column.

use vstd::prelude::*;

use crate::arrange::{
    arrange_visible, arrange_workspace, arranged_seq, lemma_arranged_seq_same_geometry,
    lemma_ws_arranged_seq_is_arranged_seq, screen_visible_arranged, ws_arranged,
};
use crate::commands::DriverCommand;
use crate::helper::{
    current_client_id_spec, hide_workspace, hide_ws_cmds, lemma_show_ws_cmds_same_geometry,
    show_workspace, show_ws_cmds, suppress_cmds, suppress_notify,
};
use crate::logic::{
    focus, focus_seq_at, focused_at, lemma_focus_cmds_present, shift_current_client_at, unfocus,
};
use crate::model::{
    client_at, pos_ok, screen_wf, shifted_cursor, wf, window_present, workspace_wf, Application,
    ArrangeEngine, Client, Config, Runtime, Screen, ScreenSwitching, Workspace, MAX_CLIENT_COORD,
    NUMBER_OF_DESKTOPS,
};

verus! {

/// Saturating addition on the master capacity.
pub open spec fn sat_add_i64(a: i64, b: i64) -> i64 {
    if a + b > i64::MAX {
        i64::MAX
    } else if a + b < i64::MIN {
        i64::MIN
    } else {
        (a + b) as i64
    }
}

/// `a2` is `a1` with its active workspace replaced by the given cursor,
/// tiling parameters and clients, then every visible workspace arranged
/// and the active one shown.
pub open spec fn refreshed_ws(
    a1: Application,
    mid_cc: Option<usize>,
    mid_mc: i64,
    mid_mwn: u32,
    mid_arrange: ArrangeEngine,
    mid_clients: Seq<Client>,
    a2: Application,
) -> bool {
    let cs = a1.runtime.current_screen as int;
    let cw = a1.runtime.current_workspace as int;
    let scr = a1.runtime.screens[cs];
    let ws0 = scr.workspaces[cw];
    let arr = arranged_seq(a1.config, scr, mid_mc, mid_mwn, mid_clients);
    &&& a2.config == a1.config
    &&& a2.core == a1.core
    &&& a2.runtime.current_screen == a1.runtime.current_screen
    &&& a2.runtime.current_workspace == a1.runtime.current_workspace
    &&& a2.runtime.current_client == mid_cc
    &&& a2.runtime.mouse_state == a1.runtime.mouse_state
    &&& a2.runtime.autostart_rules == a1.runtime.autostart_rules
    &&& a2.runtime.screens.len() == a1.runtime.screens.len()
    &&& forall|s2: int|
        0 <= s2 < a1.runtime.screens.len() && s2 != cs ==> screen_visible_arranged(
            a1.config,
            #[trigger] a1.runtime.screens[s2],
            a2.runtime.screens[s2],
        )
    &&& a2.runtime.screens[cs] == Screen {
        workspaces: a2.runtime.screens[cs].workspaces,
        ..scr
    }
    &&& a2.runtime.screens[cs].workspaces.len() == scr.workspaces.len()
    &&& forall|w2: int|
        0 <= w2 < scr.workspaces.len() && w2 != cw ==> a2.runtime.screens[cs].workspaces[w2]
            == scr.workspaces[w2]
    &&& a2.runtime.screens[cs].workspaces[cw] == (Workspace {
        number: ws0.number,
        clients: a2.runtime.screens[cs].workspaces[cw].clients,
        current_client: mid_cc,
        arrange: mid_arrange,
        master_capacity: mid_mc,
        master_width: mid_mwn,
    })
    &&& a2.runtime.screens[cs].workspaces[cw].clients.len() == mid_clients.len()
    &&& forall|p: int|
        0 <= p < mid_clients.len() ==> client_at(a2.runtime, cs, cw, p) == (Client {
            visible: true,
            ..#[trigger] arr[p]
        })
}

/// The driver work of arranging and showing the active workspace built
/// from the given tiling inputs.
pub open spec fn refresh_cmds(
    a: Application,
    mid_mc: i64,
    mid_mwn: u32,
    mid_clients: Seq<Client>,
) -> Seq<DriverCommand> {
    let cs = a.runtime.current_screen as int;
    let scr = a.runtime.screens[cs];
    show_ws_cmds(
        scr,
        arranged_seq(a.config, scr, mid_mc, mid_mwn, mid_clients),
        mid_clients.len() as int,
    )
}

/// Arrange every visible workspace, then show the active one.
fn apply_layout(app: &mut Application, out: &mut Vec<DriverCommand>)
    requires
        wf(*old(app)),
    ensures
        wf(*final(app)),
        ({
            let ws0 = old(app).runtime.screens[old(app).runtime.current_screen as int].workspaces[old(
                app,
            ).runtime.current_workspace as int];
            &&& refreshed_ws(
                *old(app),
                ws0.current_client,
                ws0.master_capacity,
                ws0.master_width,
                ws0.arrange,
                ws0.clients@,
                *final(app),
            )
            &&& final(out)@ == old(out)@ + refresh_cmds(
                *old(app),
                ws0.master_capacity,
                ws0.master_width,
                ws0.clients@,
            )
        }),
{
    let cs = app.runtime.current_screen;
    let cw = app.runtime.current_workspace;
    proof {
        assert(screen_wf(app.runtime.screens[cs as int]));
    }
    arrange_visible(app);
    let ghost a1 = *app;
    show_workspace(app, cs, cw, out);
    proof {
        let cfg = old(app).config;
        let scr0 = old(app).runtime.screens[cs as int];
        let ws0 = scr0.workspaces[cw as int];
        let arr = arranged_seq(cfg, scr0, ws0.master_capacity, ws0.master_width, ws0.clients@);
        assert(screen_visible_arranged(cfg, scr0, a1.runtime.screens[cs as int]));
        assert(ws_arranged(cfg, scr0, ws0, a1.runtime.screens[cs as int].workspaces[cw as int]));
        lemma_ws_arranged_seq_is_arranged_seq(
            cfg,
            scr0,
            ws0.master_capacity,
            ws0.master_width,
            ws0.clients@,
            a1.runtime.screens[cs as int].workspaces[cw as int].clients@,
        );
        assert(a1.runtime.screens[cs as int].workspaces[cw as int].clients@ == arr);
        lemma_show_ws_cmds_same_geometry(
            scr0,
            a1.runtime.screens[cs as int],
            arr,
            ws0.clients.len() as int,
        );
        assert forall|s2: int|
            0 <= s2 < old(app).runtime.screens.len() && s2 != cs implies screen_visible_arranged(
            cfg,
            #[trigger] old(app).runtime.screens[s2],
            app.runtime.screens[s2],
        ) by {
            assert(app.runtime.screens[s2] == a1.runtime.screens[s2]);
            assert(screen_visible_arranged(cfg, old(app).runtime.screens[s2], a1.runtime.screens[s2]));
        }
        assert forall|p: int| 0 <= p < ws0.clients.len() implies client_at(
            app.runtime,
            cs as int,
            cw as int,
            p,
        ) == (Client { visible: true, ..arr[p] }) by {
            assert(client_at(app.runtime, cs as int, cw as int, p) == Client {
                visible: true,
                ..client_at(a1.runtime, cs as int, cw as int, p)
            });
        }
        assert(final(out)@ == old(out)@ + show_ws_cmds(scr0, arr, ws0.clients.len() as int));
    }
}

/// What adjusting the master capacity by `i` leaves behind.
pub open spec fn master_capacity_post(
    a1: Application,
    a2: Application,
    i: i64,
    o1: Seq<DriverCommand>,
    o2: Seq<DriverCommand>,
) -> bool {
    ({
            let ws0 = a1.runtime.screens[a1.runtime.current_screen as int].workspaces[a1.runtime.current_workspace as int];
            if ws0.arrange != ArrangeEngine::Tiled {
                a2 == a1 && o2 == o1
            } else {
                let mid_mc = sat_add_i64(ws0.master_capacity, i);
                &&& refreshed_ws(
                    a1,
                    ws0.current_client,
                    mid_mc,
                    ws0.master_width,
                    ws0.arrange,
                    ws0.clients@,
                    a2,
                )
                &&& o2 == o1 + refresh_cmds(
                    a1,
                    mid_mc,
                    ws0.master_width,
                    ws0.clients@,
                ) + suppress_cmds(a1.config)
            }
        })
}

/// Grow or shrink the master column capacity of the active workspace and
/// retile.  Only a tiled workspace reacts.
pub fn update_master_capacity(app: &mut Application, i: i64, out: &mut Vec<DriverCommand>)
    requires
        wf(*old(app)),
    ensures
        wf(*final(app)),
        master_capacity_post(*old(app), *final(app), i, old(out)@, final(out)@),
{
    let cs = app.runtime.current_screen;
    let cw = app.runtime.current_workspace;
    proof {
        assert(screen_wf(app.runtime.screens[cs as int]));
    }
    let arrange = app.runtime.screens[cs].workspaces[cw].arrange;
    match arrange {
        ArrangeEngine::Tiled => {},
        _ => {
            return ;
        },
    }
    // Change master size, saturating at the type bounds.
    let mc = app.runtime.screens[cs].workspaces[cw].master_capacity;
    let new_mc: i64 = if i >= 0 {
        if mc <= i64::MAX - i {
            mc + i
        } else {
            i64::MAX
        }
    } else {
        if mc >= i64::MIN - i {
            mc + i
        } else {
            i64::MIN
        }
    };
    let wref = &mut app.runtime.screens[cs].workspaces[cw];
    wref.master_capacity = new_mc;
    let ghost mid = *app;
    proof {
        crate::model::lemma_ids_unique_pointwise(old(app).runtime, app.runtime);
        assert forall|s2: int|
            0 <= s2 < app.runtime.screens.len() implies screen_wf(
            #[trigger] app.runtime.screens[s2],
        ) by {
            assert(screen_wf(old(app).runtime.screens[s2]));
            assert forall|w2: int|
                0 <= w2 < app.runtime.screens[s2].workspaces.len() implies workspace_wf(
                #[trigger] app.runtime.screens[s2].workspaces[w2],
            ) by {
                if !(s2 == cs as int && w2 == cw as int) {
                    assert(app.runtime.screens[s2].workspaces[w2] == old(
                        app,
                    ).runtime.screens[s2].workspaces[w2]);
                }
                assert(workspace_wf(old(app).runtime.screens[s2].workspaces[w2]));
            }
        }
        assert(wf(*app));
    }
    // Rearrange windows.
    apply_layout(app, out);
    suppress_notify(app, out);
    proof {
        let cfg = old(app).config;
        let scr0 = old(app).runtime.screens[cs as int];
        let ws0 = scr0.workspaces[cw as int];
        let scr_mid = mid.runtime.screens[cs as int];
        let mid_ws = scr_mid.workspaces[cw as int];
        assert(mid_ws.clients@ == ws0.clients@);
        lemma_arranged_seq_same_geometry(
            cfg,
            scr0,
            scr_mid,
            new_mc,
            ws0.master_width,
            ws0.clients@,
        );
        lemma_show_ws_cmds_same_geometry(
            scr0,
            scr_mid,
            arranged_seq(cfg, scr0, new_mc, ws0.master_width, ws0.clients@),
            ws0.clients.len() as int,
        );
        assert forall|s2: int|
            0 <= s2 < old(app).runtime.screens.len() && s2 != cs as int
                implies screen_visible_arranged(
            cfg,
            #[trigger] old(app).runtime.screens[s2],
            app.runtime.screens[s2],
        ) by {
            assert(mid.runtime.screens[s2] == old(app).runtime.screens[s2]);
            assert(screen_visible_arranged(cfg, mid.runtime.screens[s2], app.runtime.screens[s2]));
        }
        assert forall|w2: int|
            0 <= w2 < scr0.workspaces.len() && w2 != cw as int implies app.runtime.screens[cs as int].workspaces[w2]
            == scr0.workspaces[w2] by {
            assert(scr_mid.workspaces[w2] == scr0.workspaces[w2]);
            assert(app.runtime.screens[cs as int].workspaces[w2] == scr_mid.workspaces[w2]);
        }
        let arr = arranged_seq(cfg, scr0, new_mc, ws0.master_width, ws0.clients@);
        assert forall|p: int| 0 <= p < ws0.clients.len() implies client_at(
            app.runtime,
            cs as int,
            cw as int,
            p,
        ) == (Client { visible: true, ..arr[p] }) by {
            assert(client_at(app.runtime, cs as int, cw as int, p) == Client {
                visible: true,
                ..arranged_seq(cfg, scr_mid, new_mc, ws0.master_width, mid_ws.clients@)[p]
            });
        }
        assert(final(out)@ =~= old(out)@ + refresh_cmds(
            *old(app),
            sat_add_i64(ws0.master_capacity, i),
            ws0.master_width,
            ws0.clients@,
        ) + suppress_cmds(cfg));
    }
}

/// The master width fraction after a delta: applied only where the new
/// value stays above the delta's magnitude and below the full width.
pub open spec fn updated_master_width(mw: u32, d: i32) -> u32 {
    let nwv = mw + d;
    let mag = if d >= 0 {
        d as int
    } else {
        -d as int
    };
    if mag < nwv < 1000 {
        nwv as u32
    } else {
        mw
    }
}

/// What adjusting the master width fraction by `w` leaves behind.
pub open spec fn master_width_post(
    a1: Application,
    a2: Application,
    w: i32,
    o1: Seq<DriverCommand>,
    o2: Seq<DriverCommand>,
) -> bool {
    ({
            let ws0 = a1.runtime.screens[a1.runtime.current_screen as int].workspaces[a1.runtime.current_workspace as int];
            if ws0.arrange != ArrangeEngine::Tiled {
                a2 == a1 && o2 == o1
            } else {
                let mid_mwn = updated_master_width(ws0.master_width, w);
                &&& refreshed_ws(
                    a1,
                    ws0.current_client,
                    ws0.master_capacity,
                    mid_mwn,
                    ws0.arrange,
                    ws0.clients@,
                    a2,
                )
                &&& o2 == o1 + refresh_cmds(
                    a1,
                    ws0.master_capacity,
                    mid_mwn,
                    ws0.clients@,
                ) + suppress_cmds(a1.config)
            }
        })
}

/// Widen or narrow the master column of the active workspace by a
/// fraction delta in thousandths and retile.  Only a tiled workspace
/// reacts.
pub fn update_master_width(app: &mut Application, w: i32, out: &mut Vec<DriverCommand>)
    requires
        wf(*old(app)),
        -999 <= w <= 999,
    ensures
        wf(*final(app)),
        master_width_post(*old(app), *final(app), w, old(out)@, final(out)@),
{
    let cs = app.runtime.current_screen;
    let cw = app.runtime.current_workspace;
    proof {
        assert(screen_wf(app.runtime.screens[cs as int]));
        assert(workspace_wf(app.runtime.screens[cs as int].workspaces[cw as int]));
    }
    let arrange = app.runtime.screens[cs].workspaces[cw].arrange;
    match arrange {
        ArrangeEngine::Tiled => {},
        _ => {
            return ;
        },
    }
    // Update the master width where the result stays a proper fraction.
    let mw = app.runtime.screens[cs].workspaces[cw].master_width;
    let mag: i32 = if w >= 0 {
        w
    } else {
        -w
    };
    let nwv: i32 = mw as i32 + w;
    let new_mw: u32 = if mag < nwv && nwv < 1000 {
        nwv as u32
    } else {
        mw
    };
    let wref = &mut app.runtime.screens[cs].workspaces[cw];
    wref.master_width = new_mw;
    let ghost mid = *app;
    proof {
        crate::model::lemma_ids_unique_pointwise(old(app).runtime, app.runtime);
        assert forall|s2: int|
            0 <= s2 < app.runtime.screens.len() implies screen_wf(
            #[trigger] app.runtime.screens[s2],
        ) by {
            assert(screen_wf(old(app).runtime.screens[s2]));
            assert forall|w2: int|
                0 <= w2 < app.runtime.screens[s2].workspaces.len() implies workspace_wf(
                #[trigger] app.runtime.screens[s2].workspaces[w2],
            ) by {
                if !(s2 == cs as int && w2 == cw as int) {
                    assert(app.runtime.screens[s2].workspaces[w2] == old(
                        app,
                    ).runtime.screens[s2].workspaces[w2]);
                }
                assert(workspace_wf(old(app).runtime.screens[s2].workspaces[w2]));
            }
        }
        assert(wf(*app));
    }
    // Rearrange windows.
    apply_layout(app, out);
    suppress_notify(app, out);
    proof {
        let cfg = old(app).config;
        let scr0 = old(app).runtime.screens[cs as int];
        let ws0 = scr0.workspaces[cw as int];
        let scr_mid = mid.runtime.screens[cs as int];
        let mid_ws = scr_mid.workspaces[cw as int];
        assert(mid_ws.clients@ == ws0.clients@);
        assert(new_mw == updated_master_width(ws0.master_width, w));
        lemma_arranged_seq_same_geometry(
            cfg,
            scr0,
            scr_mid,
            ws0.master_capacity,
            new_mw,
            ws0.clients@,
        );
        lemma_show_ws_cmds_same_geometry(
            scr0,
            scr_mid,
            arranged_seq(cfg, scr0, ws0.master_capacity, new_mw, ws0.clients@),
            ws0.clients.len() as int,
        );
        assert forall|s2: int|
            0 <= s2 < old(app).runtime.screens.len() && s2 != cs as int
                implies screen_visible_arranged(
            cfg,
            #[trigger] old(app).runtime.screens[s2],
            app.runtime.screens[s2],
        ) by {
            assert(mid.runtime.screens[s2] == old(app).runtime.screens[s2]);
            assert(screen_visible_arranged(cfg, mid.runtime.screens[s2], app.runtime.screens[s2]));
        }
        assert forall|w2: int|
            0 <= w2 < scr0.workspaces.len() && w2 != cw as int implies app.runtime.screens[cs as int].workspaces[w2]
            == scr0.workspaces[w2] by {
            assert(scr_mid.workspaces[w2] == scr0.workspaces[w2]);
            assert(app.runtime.screens[cs as int].workspaces[w2] == scr_mid.workspaces[w2]);
        }
        let arr = arranged_seq(cfg, scr0, ws0.master_capacity, new_mw, ws0.clients@);
        assert forall|p: int| 0 <= p < ws0.clients.len() implies client_at(
            app.runtime,
            cs as int,
            cw as int,
            p,
        ) == (Client { visible: true, ..arr[p] }) by {
            assert(client_at(app.runtime, cs as int, cw as int, p) == Client {
                visible: true,
                ..arranged_seq(cfg, scr_mid, ws0.master_capacity, new_mw, mid_ws.clients@)[p]
            });
        }
        assert(final(out)@ =~= old(out)@ + refresh_cmds(
            *old(app),
            ws0.master_capacity,
            updated_master_width(ws0.master_width, w),
            ws0.clients@,
        ) + suppress_cmds(cfg));
    }
}

/// What toggling the selected client's floating state leaves behind.
pub open spec fn toggle_float_post(
    a1: Application,
    a2: Application,
    o1: Seq<DriverCommand>,
    o2: Seq<DriverCommand>,
) -> bool {
    ({
            let cs = a1.runtime.current_screen as int;
            let cw = a1.runtime.current_workspace as int;
            let ws0 = a1.runtime.screens[cs].workspaces[cw];
            match a1.runtime.current_client {
                None => a2 == a1 && o2 == o1 + suppress_cmds(
                    a1.config,
                ),
                Some(c) => {
                    let orig = ws0.clients[c as int];
                    let midc = Client {
                        floating: !orig.floating,
                        border: if !orig.floating {
                            a1.config.border_size
                        } else {
                            0
                        },
                        ..orig
                    };
                    let mid_clients = ws0.clients@.update(c as int, midc);
                    &&& refreshed_ws(
                        a1,
                        ws0.current_client,
                        ws0.master_capacity,
                        ws0.master_width,
                        ws0.arrange,
                        mid_clients,
                        a2,
                    )
                    &&& o2 == o1 + refresh_cmds(
                        a1,
                        ws0.master_capacity,
                        ws0.master_width,
                        mid_clients,
                    ) + suppress_cmds(a1.config)
                },
            }
        })
}

/// Toggle the floating state of the selected client and retile: a client
/// pulled out of tiling gets the configured border, one pushed back in
/// loses it until tiling reassigns it.
pub fn toggle_float(app: &mut Application, out: &mut Vec<DriverCommand>)
    requires
        wf(*old(app)),
    ensures
        wf(*final(app)),
        toggle_float_post(*old(app), *final(app), old(out)@, final(out)@),
{
    let cs = app.runtime.current_screen;
    let cw = app.runtime.current_workspace;
    proof {
        assert(screen_wf(app.runtime.screens[cs as int]));
        assert(workspace_wf(app.runtime.screens[cs as int].workspaces[cw as int]));
    }
    if let Some(c) = app.runtime.current_client {
        let border_size = app.config.border_size;
        let cref = &mut app.runtime.screens[cs].workspaces[cw].clients[c];
        let now_floating = !cref.floating;
        cref.floating = now_floating;
        cref.border = if now_floating {
            border_size
        } else {
            0
        };
        let ghost mid = *app;
        proof {
            crate::model::lemma_ids_unique_pointwise(old(app).runtime, app.runtime);
            assert forall|s2: int|
                0 <= s2 < app.runtime.screens.len() implies screen_wf(
                #[trigger] app.runtime.screens[s2],
            ) by {
                assert(screen_wf(old(app).runtime.screens[s2]));
                assert forall|w2: int|
                    0 <= w2 < app.runtime.screens[s2].workspaces.len() implies workspace_wf(
                    #[trigger] app.runtime.screens[s2].workspaces[w2],
                ) by {
                    assert(workspace_wf(old(app).runtime.screens[s2].workspaces[w2]));
                    if !(s2 == cs as int && w2 == cw as int) {
                        assert(app.runtime.screens[s2].workspaces[w2] == old(
                            app,
                        ).runtime.screens[s2].workspaces[w2]);
                    } else {
                        assert forall|c2: int|
                            0 <= c2 < app.runtime.screens[s2].workspaces[w2].clients.len()
                                implies crate::model::client_wf(
                            #[trigger] app.runtime.screens[s2].workspaces[w2].clients[c2],
                        ) by {
                            assert(crate::model::client_wf(
                                old(app).runtime.screens[s2].workspaces[w2].clients[c2],
                            ));
                        }
                    }
                }
            }
            assert(wf(*app));
        }
        apply_layout(app, out);
        suppress_notify(app, out);
        proof {
            let cfg = old(app).config;
            let scr0 = old(app).runtime.screens[cs as int];
            let ws0 = scr0.workspaces[cw as int];
            let scr_mid = mid.runtime.screens[cs as int];
            let mid_ws = scr_mid.workspaces[cw as int];
            let orig = ws0.clients[c as int];
            let midc = Client {
                floating: !orig.floating,
                border: if !orig.floating {
                    cfg.border_size
                } else {
                    0
                },
                ..orig
            };
            let mid_clients = ws0.clients@.update(c as int, midc);
            assert(mid_ws.clients@ =~= mid_clients);
            lemma_arranged_seq_same_geometry(
                cfg,
                scr0,
                scr_mid,
                ws0.master_capacity,
                ws0.master_width,
                mid_clients,
            );
            lemma_show_ws_cmds_same_geometry(
                scr0,
                scr_mid,
                arranged_seq(cfg, scr0, ws0.master_capacity, ws0.master_width, mid_clients),
                mid_clients.len() as int,
            );
            assert forall|s2: int|
                0 <= s2 < old(app).runtime.screens.len() && s2 != cs as int
                    implies screen_visible_arranged(
                cfg,
                #[trigger] old(app).runtime.screens[s2],
                app.runtime.screens[s2],
            ) by {
                assert(mid.runtime.screens[s2] == old(app).runtime.screens[s2]);
                assert(screen_visible_arranged(
                    cfg,
                    mid.runtime.screens[s2],
                    app.runtime.screens[s2],
                ));
            }
            assert forall|w2: int|
                0 <= w2 < scr0.workspaces.len() && w2 != cw as int
                    implies app.runtime.screens[cs as int].workspaces[w2] == scr0.workspaces[w2] by {
                assert(scr_mid.workspaces[w2] == scr0.workspaces[w2]);
                assert(app.runtime.screens[cs as int].workspaces[w2] == scr_mid.workspaces[w2]);
            }
            let arr = arranged_seq(cfg, scr0, ws0.master_capacity, ws0.master_width, mid_clients);
            assert forall|p: int| 0 <= p < mid_clients.len() implies client_at(
                app.runtime,
                cs as int,
                cw as int,
                p,
            ) == (Client { visible: true, ..arr[p] }) by {
                assert(client_at(app.runtime, cs as int, cw as int, p) == Client {
                    visible: true,
                    ..arranged_seq(
                        cfg,
                        scr_mid,
                        ws0.master_capacity,
                        ws0.master_width,
                        mid_ws.clients@,
                    )[p]
                });
            }
            assert(final(out)@ =~= old(out)@ + refresh_cmds(
                *old(app),
                ws0.master_capacity,
                ws0.master_width,
                mid_clients,
            ) + suppress_cmds(cfg));
        }
    } else {
        suppress_notify(app, out);
        assert(final(out)@ =~= old(out)@ + suppress_cmds(old(app).config));
    }
}

/// The close request killing the selected client sends: polite where the
/// client speaks the delete protocol, forced where it does not; nothing
/// where no client is selected.
pub open spec fn kill_cmds(a: Application, supports_delete: bool) -> Seq<DriverCommand> {
    match current_client_id_spec(a.runtime) {
        Some(id) => if supports_delete {
            seq![DriverCommand::RequestClose { win: id }]
        } else {
            seq![DriverCommand::ForceKill { win: id }]
        },
        None => Seq::empty(),
    }
}

/// What retagging the active workspace's tiling policy leaves behind:
/// the tag replaced, the workspace retiled and shown, everything else
/// untouched.
pub open spec fn engine_set_post(
    a1: Application,
    a2: Application,
    ae: ArrangeEngine,
    o1: Seq<DriverCommand>,
    o2: Seq<DriverCommand>,
) -> bool {
    let cs = a1.runtime.current_screen as int;
    let cw = a1.runtime.current_workspace as int;
    let scr0 = a1.runtime.screens[cs];
    let ws0 = scr0.workspaces[cw];
    let arr = arranged_seq(a1.config, scr0, ws0.master_capacity, ws0.master_width, ws0.clients@);
    &&& a2.config == a1.config
    &&& a2.core == a1.core
    &&& a2.runtime.current_screen == a1.runtime.current_screen
    &&& a2.runtime.current_workspace == a1.runtime.current_workspace
    &&& a2.runtime.current_client == a1.runtime.current_client
    &&& a2.runtime.mouse_state == a1.runtime.mouse_state
    &&& a2.runtime.autostart_rules == a1.runtime.autostart_rules
    &&& a2.runtime.screens.len() == a1.runtime.screens.len()
    &&& forall|s2: int|
        0 <= s2 < a1.runtime.screens.len() && s2 != cs ==> a2.runtime.screens[s2]
            == a1.runtime.screens[s2]
    &&& a2.runtime.screens[cs] == (Screen {
        workspaces: a2.runtime.screens[cs].workspaces,
        ..scr0
    })
    &&& a2.runtime.screens[cs].workspaces.len() == scr0.workspaces.len()
    &&& forall|w2: int|
        0 <= w2 < scr0.workspaces.len() && w2 != cw ==> a2.runtime.screens[cs].workspaces[w2]
            == scr0.workspaces[w2]
    &&& a2.runtime.screens[cs].workspaces[cw] == (Workspace {
        clients: a2.runtime.screens[cs].workspaces[cw].clients,
        arrange: ae,
        ..ws0
    })
    &&& a2.runtime.screens[cs].workspaces[cw].clients.len() == ws0.clients.len()
    &&& forall|p: int|
        0 <= p < ws0.clients.len() ==> client_at(a2.runtime, cs, cw, p) == (Client {
            visible: true,
            ..#[trigger] arr[p]
        })
    &&& o2 == o1 + show_ws_cmds(scr0, arr, ws0.clients.len() as int)
}

/// Retag the active workspace's tiling policy, then retile and show it.
pub fn set_arrange_engine(app: &mut Application, ae: ArrangeEngine, out: &mut Vec<DriverCommand>)
    requires
        wf(*old(app)),
    ensures
        wf(*final(app)),
        engine_set_post(*old(app), *final(app), ae, old(out)@, final(out)@),
{
    let cs = app.runtime.current_screen;
    let cw = app.runtime.current_workspace;
    proof {
        assert(screen_wf(app.runtime.screens[cs as int]));
        assert(workspace_wf(app.runtime.screens[cs as int].workspaces[cw as int]));
    }
    let wref = &mut app.runtime.screens[cs].workspaces[cw];
    wref.arrange = ae;
    let ghost mid = *app;
    proof {
        crate::model::lemma_ids_unique_pointwise(old(app).runtime, app.runtime);
        assert forall|s2: int|
            0 <= s2 < app.runtime.screens.len() implies screen_wf(
            #[trigger] app.runtime.screens[s2],
        ) by {
            assert(screen_wf(old(app).runtime.screens[s2]));
            assert forall|w2: int|
                0 <= w2 < app.runtime.screens[s2].workspaces.len() implies workspace_wf(
                #[trigger] app.runtime.screens[s2].workspaces[w2],
            ) by {
                if !(s2 == cs as int && w2 == cw as int) {
                    assert(app.runtime.screens[s2].workspaces[w2] == old(
                        app,
                    ).runtime.screens[s2].workspaces[w2]);
                }
                assert(workspace_wf(old(app).runtime.screens[s2].workspaces[w2]));
            }
        }
        assert(wf(*app));
    }
    arrange_workspace(app, cs, cw);
    let ghost a2 = *app;
    show_workspace(app, cs, cw, out);
    proof {
        let cfg = old(app).config;
        let scr0 = old(app).runtime.screens[cs as int];
        let ws0 = scr0.workspaces[cw as int];
        let scr_mid = mid.runtime.screens[cs as int];
        let mid_ws = scr_mid.workspaces[cw as int];
        let arr = arranged_seq(cfg, scr0, ws0.master_capacity, ws0.master_width, ws0.clients@);
        assert(mid_ws.clients@ == ws0.clients@);
        assert(ws_arranged(
            cfg,
            scr_mid,
            mid_ws,
            a2.runtime.screens[cs as int].workspaces[cw as int],
        ));
        lemma_ws_arranged_seq_is_arranged_seq(
            cfg,
            scr_mid,
            ws0.master_capacity,
            ws0.master_width,
            ws0.clients@,
            a2.runtime.screens[cs as int].workspaces[cw as int].clients@,
        );
        lemma_arranged_seq_same_geometry(
            cfg,
            scr0,
            scr_mid,
            ws0.master_capacity,
            ws0.master_width,
            ws0.clients@,
        );
        lemma_show_ws_cmds_same_geometry(
            scr0,
            a2.runtime.screens[cs as int],
            arr,
            ws0.clients.len() as int,
        );
        assert forall|s2: int|
            0 <= s2 < old(app).runtime.screens.len() && s2 != cs as int
                implies app.runtime.screens[s2] == old(app).runtime.screens[s2] by {
            assert(mid.runtime.screens[s2] == old(app).runtime.screens[s2]);
            assert(a2.runtime.screens[s2] == mid.runtime.screens[s2]);
            assert(app.runtime.screens[s2] == a2.runtime.screens[s2]);
        }
        assert forall|w2: int|
            0 <= w2 < scr0.workspaces.len() && w2 != cw as int
                implies app.runtime.screens[cs as int].workspaces[w2] == scr0.workspaces[w2] by {
            assert(scr_mid.workspaces[w2] == scr0.workspaces[w2]);
            assert(a2.runtime.screens[cs as int].workspaces[w2] == scr_mid.workspaces[w2]);
            assert(app.runtime.screens[cs as int].workspaces[w2]
                == a2.runtime.screens[cs as int].workspaces[w2]);
        }
        assert forall|p: int| 0 <= p < ws0.clients.len() implies client_at(
            app.runtime,
            cs as int,
            cw as int,
            p,
        ) == (Client { visible: true, ..arr[p] }) by {
            assert(client_at(app.runtime, cs as int, cw as int, p) == Client {
                visible: true,
                ..client_at(a2.runtime, cs as int, cw as int, p)
            });
            assert(client_at(a2.runtime, cs as int, cw as int, p) == arranged_seq(
                cfg,
                scr_mid,
                ws0.master_capacity,
                ws0.master_width,
                ws0.clients@,
            )[p]);
        }
        assert(final(out)@ =~= old(out)@ + show_ws_cmds(scr0, arr, ws0.clients.len() as int));
    }
}

/// What a close request leaves behind: the state untouched, and the
/// polite or forced close request appended.
pub open spec fn kill_post(
    a1: Application,
    a2: Application,
    supports_delete: bool,
    o1: Seq<DriverCommand>,
    o2: Seq<DriverCommand>,
) -> bool {
    &&& a2 == a1
    &&& o2 == o1 + kill_cmds(a1, supports_delete)
}

/// Ask the selected client to close: politely via the delete protocol
/// where the client supports it, forcibly otherwise.  The client stays
/// managed until its destroy notification arrives.
pub fn kill_client(app: &mut Application, supports_delete: bool, out: &mut Vec<DriverCommand>)
    requires
        wf(*old(app)),
    ensures
        wf(*final(app)),
        kill_post(*old(app), *final(app), supports_delete, old(out)@, final(out)@),
{
    if let Some(index) = app.runtime.current_client {
        let rt = &app.runtime;
        let id = rt.screens[rt.current_screen].workspaces[rt.current_workspace].clients[
            index].window_id;
        if supports_delete {
            out.push(DriverCommand::RequestClose { win: id });
        } else {
            out.push(DriverCommand::ForceKill { win: id });
        }
    }
    assert(final(out)@ =~= old(out)@ + kill_cmds(*old(app), supports_delete));
}

/// What cycling the selection by `d` leaves behind.
pub open spec fn cycle_stack_post(
    a1: Application,
    a2: Application,
    d: i64,
    o1: Seq<DriverCommand>,
    o2: Seq<DriverCommand>,
) -> bool {
    ({
            let cs = a1.runtime.current_screen as int;
            let cw = a1.runtime.current_workspace as int;
            let ws0 = a1.runtime.screens[cs].workspaces[cw];
            if ws0.clients.len() < 2 {
                a2 == a1 && o2 == o1
            } else {
                let cur = match ws0.current_client {
                    Some(i) => i as int,
                    None => 0,
                };
                let ni = ((ws0.clients.len() + cur) + d) % (ws0.clients.len() as int);
                let old_win = ws0.clients[cur].window_id;
                let new_win = ws0.clients[ni].window_id;
                &&& focused_at(a1, a2, cs, cw, ni)
                &&& o2 == o1 + seq![
                    DriverCommand::SetBorderColor {
                        win: old_win,
                        color: a1.config.normal_border_color,
                    },
                    DriverCommand::ReleaseDragButtons { win: old_win },
                ] + focus_seq_at(a1.config, new_win, cs, cw) + seq![
                    DriverCommand::Raise { win: new_win },
                    DriverCommand::DropPendingCrossings,
                ]
            }
        })
}

/// Move the selection one step up or down the stack of the active
/// workspace, wrapping around; the newly selected client is focused and
/// raised.
pub fn cycle_stack(app: &mut Application, d: i64, out: &mut Vec<DriverCommand>)
    requires
        wf(*old(app)),
        d == 1 || d == -1,
    ensures
        wf(*final(app)),
        cycle_stack_post(*old(app), *final(app), d, old(out)@, final(out)@),
{
    let cs = app.runtime.current_screen;
    let cw = app.runtime.current_workspace;
    proof {
        assert(screen_wf(app.runtime.screens[cs as int]));
        assert(workspace_wf(app.runtime.screens[cs as int].workspaces[cw as int]));
    }
    let num_clients = app.runtime.screens[cs].workspaces[cw].clients.len();
    if num_clients < 2 {
        return ;
    }
    let cur_index = match app.runtime.screens[cs].workspaces[cw].current_client {
        Some(i) => i,
        None => {
            return ;
        },
    };
    let new_index = (((num_clients + cur_index) as i64 + d) % (num_clients as i64)) as usize;
    let old_win = app.runtime.screens[cs].workspaces[cw].clients[cur_index].window_id;
    let new_win = app.runtime.screens[cs].workspaces[cw].clients[new_index].window_id;

    unfocus(app, old_win, out);
    focus(app, new_win, out);
    out.push(DriverCommand::Raise { win: new_win });
    out.push(DriverCommand::DropPendingCrossings);
    proof {
        assert(client_at(old(app).runtime, cs as int, cw as int, new_index as int).window_id
            == new_win);
        assert(focused_at(*old(app), *final(app), cs as int, cw as int, new_index as int));
        lemma_focus_cmds_present(
            *old(app),
            new_win,
            cs as int,
            cw as int,
            new_index as int,
        );
        assert(final(out)@ =~= old(out)@ + seq![
            DriverCommand::SetBorderColor {
                win: old_win,
                color: old(app).config.normal_border_color,
            },
            DriverCommand::ReleaseDragButtons { win: old_win },
        ] + focus_seq_at(old(app).config, new_win, cs as int, cw as int) + seq![
            DriverCommand::Raise { win: new_win },
            DriverCommand::DropPendingCrossings,
        ]);
    }
}

/// The driver work of focusing screen `n`: unfocus the old selection,
/// focus the screen's remembered selection if any, and republish the
/// current desktop.
pub open spec fn focus_screen_cmds(a: Application, n: int) -> Seq<DriverCommand> {
    let wsel = a.runtime.screens[n].current_workspace as int;
    let saved = a.runtime.screens[n].workspaces[wsel].current_client;
    let unf = match current_client_id_spec(a.runtime) {
        Some(oldwin) => seq![
            DriverCommand::SetBorderColor { win: oldwin, color: a.config.normal_border_color },
            DriverCommand::ReleaseDragButtons { win: oldwin },
        ],
        None => Seq::empty(),
    };
    let foc = match saved {
        Some(i) => focus_seq_at(
            a.config,
            a.runtime.screens[n].workspaces[wsel].clients[i as int].window_id,
            n,
            wsel,
        ),
        None => Seq::empty(),
    };
    unf + foc + seq![
        DriverCommand::SetCurrentDesktop {
            desktop: (n * NUMBER_OF_DESKTOPS + wsel) as u64,
        },
    ]
}

/// What focusing screen `n` leaves behind.
pub open spec fn focus_screen_index_post(
    a1: Application,
    a2: Application,
    n: usize,
    o1: Seq<DriverCommand>,
    o2: Seq<DriverCommand>,
) -> bool {
    ({
            let wsel = a1.runtime.screens[n as int].current_workspace as int;
            let saved = a1.runtime.screens[n as int].workspaces[wsel].current_client;
            &&& match saved {
                Some(i) => focused_at(a1, a2, n as int, wsel, i as int),
                None => a2 == (Application {
                    runtime: Runtime {
                        current_screen: n,
                        current_workspace: wsel as usize,
                        current_client: None,
                        ..a1.runtime
                    },
                    ..a1
                }),
            }
            &&& o2 == o1 + focus_screen_cmds(a1, n as int)
        })
}

/// Make screen `n` the active screen, restoring its remembered workspace
/// and client selection.
pub fn focus_on_screen_index(app: &mut Application, n: usize, out: &mut Vec<DriverCommand>)
    requires
        wf(*old(app)),
        n < old(app).runtime.screens.len(),
    ensures
        wf(*final(app)),
        focus_screen_index_post(*old(app), *final(app), n, old(out)@, final(out)@),
{
    proof {
        assert(screen_wf(app.runtime.screens[n as int]));
        assert(workspace_wf(
            app.runtime.screens[n as int].workspaces[app.runtime.screens[n as int].current_workspace as int],
        ));
    }
    let cur = crate::helper::get_current_client_id(app);
    if let Some(cw) = cur {
        unfocus(app, cw, out);
    }
    // Change trackers.
    app.runtime.current_screen = n;
    app.runtime.current_workspace = app.runtime.screens[n].current_workspace;
    app.runtime.current_client =
        app.runtime.screens[n].workspaces[app.runtime.current_workspace].current_client;
    let ghost mid = *app;
    proof {
        crate::model::lemma_ids_unique_pointwise(old(app).runtime, app.runtime);
        assert(wf(*app));
    }
    if let Some(index) = app.runtime.current_client {
        let win = app.runtime.screens[n].workspaces[app.runtime.current_workspace].clients[
            index].window_id;
        focus(app, win, out);
        proof {
            let wsel = old(app).runtime.screens[n as int].current_workspace as int;
            assert(client_at(mid.runtime, n as int, wsel, index as int).window_id == win);
            assert(focused_at(mid, *app, n as int, wsel, index as int));
            lemma_focus_cmds_present(mid, win, n as int, wsel, index as int);
        }
    }
    let w: u64 = (n as u64) * (NUMBER_OF_DESKTOPS as u64) + app.runtime.screens[
        n].current_workspace as u64;
    out.push(DriverCommand::SetCurrentDesktop { desktop: w });
    proof {
        assert(final(out)@ =~= old(out)@ + focus_screen_cmds(*old(app), n as int));
    }
}

/// The layout refresh commutes with replacing the active workspace: what
/// was arranged and shown on a state that differs from `a0` only in the
/// active workspace's content is arranged and shown with respect to `a0`
/// itself.
pub proof fn lemma_refresh_chain(
    a0: Application,
    mid: Application,
    fin: Application,
    out0: Seq<DriverCommand>,
    out1: Seq<DriverCommand>,
    mid_cc: Option<usize>,
    mid_mc: i64,
    mid_mwn: u32,
    mid_arrange: ArrangeEngine,
    mid_clients: Seq<Client>,
)
    requires
        mid.config == a0.config,
        mid.core == a0.core,
        mid.runtime.current_screen == a0.runtime.current_screen,
        mid.runtime.current_workspace == a0.runtime.current_workspace,
        mid.runtime.mouse_state == a0.runtime.mouse_state,
        mid.runtime.autostart_rules == a0.runtime.autostart_rules,
        mid.runtime.screens.len() == a0.runtime.screens.len(),
        a0.runtime.current_screen < a0.runtime.screens.len(),
        forall|s2: int|
            0 <= s2 < a0.runtime.screens.len() && s2 != a0.runtime.current_screen as int
                ==> mid.runtime.screens[s2] == a0.runtime.screens[s2],
        mid.runtime.screens[a0.runtime.current_screen as int] == (Screen {
            workspaces: mid.runtime.screens[a0.runtime.current_screen as int].workspaces,
            ..a0.runtime.screens[a0.runtime.current_screen as int]
        }),
        mid.runtime.screens[a0.runtime.current_screen as int].workspaces.len()
            == a0.runtime.screens[a0.runtime.current_screen as int].workspaces.len(),
        a0.runtime.current_workspace
            < a0.runtime.screens[a0.runtime.current_screen as int].workspaces.len(),
        forall|w2: int|
            0 <= w2 < a0.runtime.screens[a0.runtime.current_screen as int].workspaces.len() && w2
                != a0.runtime.current_workspace as int
                ==> mid.runtime.screens[a0.runtime.current_screen as int].workspaces[w2]
                == a0.runtime.screens[a0.runtime.current_screen as int].workspaces[w2],
        ({
            let cs = a0.runtime.current_screen as int;
            let cw = a0.runtime.current_workspace as int;
            let mid_ws = mid.runtime.screens[cs].workspaces[cw];
            &&& mid_ws.number == a0.runtime.screens[cs].workspaces[cw].number
            &&& mid_ws.current_client == mid_cc
            &&& mid_ws.arrange == mid_arrange
            &&& mid_ws.master_capacity == mid_mc
            &&& mid_ws.master_width == mid_mwn
            &&& mid_ws.clients@ == mid_clients
        }),
        refreshed_ws(
            mid,
            mid_cc,
            mid_mc,
            mid_mwn,
            mid_arrange,
            mid.runtime.screens[a0.runtime.current_screen as int].workspaces[a0.runtime.current_workspace as int].clients@,
            fin,
        ),
        out1 == out0 + refresh_cmds(mid, mid_mc, mid_mwn, mid_clients),
    ensures
        refreshed_ws(a0, mid_cc, mid_mc, mid_mwn, mid_arrange, mid_clients, fin),
        out1 == out0 + refresh_cmds(a0, mid_mc, mid_mwn, mid_clients),
{
    let cs = a0.runtime.current_screen as int;
    let cw = a0.runtime.current_workspace as int;
    let cfg = a0.config;
    let scr0 = a0.runtime.screens[cs];
    let scr_mid = mid.runtime.screens[cs];
    lemma_arranged_seq_same_geometry(cfg, scr0, scr_mid, mid_mc, mid_mwn, mid_clients);
    lemma_show_ws_cmds_same_geometry(
        scr0,
        scr_mid,
        arranged_seq(cfg, scr0, mid_mc, mid_mwn, mid_clients),
        mid_clients.len() as int,
    );
    assert forall|s2: int|
        0 <= s2 < a0.runtime.screens.len() && s2 != cs implies screen_visible_arranged(
        cfg,
        #[trigger] a0.runtime.screens[s2],
        fin.runtime.screens[s2],
    ) by {
        assert(mid.runtime.screens[s2] == a0.runtime.screens[s2]);
        assert(screen_visible_arranged(cfg, mid.runtime.screens[s2], fin.runtime.screens[s2]));
    }
    assert forall|w2: int|
        0 <= w2 < scr0.workspaces.len() && w2 != cw implies fin.runtime.screens[cs].workspaces[w2]
        == scr0.workspaces[w2] by {
        assert(scr_mid.workspaces[w2] == scr0.workspaces[w2]);
        assert(fin.runtime.screens[cs].workspaces[w2] == scr_mid.workspaces[w2]);
    }
    let arr = arranged_seq(cfg, scr0, mid_mc, mid_mwn, mid_clients);
    assert forall|p: int| 0 <= p < mid_clients.len() implies client_at(fin.runtime, cs, cw, p)
        == (Client { visible: true, ..arr[p] }) by {
        assert(client_at(fin.runtime, cs, cw, p) == Client {
            visible: true,
            ..arranged_seq(cfg, scr_mid, mid_mc, mid_mwn, mid_clients)[p]
        });
    }
}

/// Move a client that no workspace holds any more into workspace `n` of
/// the active screen: hide it off screen, announce its new desktop, push
/// it on top of that workspace's stack, select it there and retile the
/// workspace.
pub fn move_client_to_workspace(
    app: &mut Application,
    client: Client,
    n: u64,
    out: &mut Vec<DriverCommand>,
)
    requires
        wf(*old(app)),
        n < NUMBER_OF_DESKTOPS as u64,
        n as int != old(app).runtime.current_workspace as int,
        !window_present(old(app).runtime, client.window_id),
        crate::model::client_wf(client),
        old(app).runtime.screens[old(app).runtime.current_screen as int].workspaces[n as int].clients.len()
            < crate::model::MAX_CLIENTS,
    ensures
        wf(*final(app)),
        ({
            let cs = old(app).runtime.current_screen as int;
            let scr0 = old(app).runtime.screens[cs];
            let wsn = scr0.workspaces[n as int];
            let client2 = Client { visible: !client.visible, ..client };
            let pushed = wsn.clients@.push(client2);
            &&& final(app).config == old(app).config
            &&& final(app).core == old(app).core
            &&& final(app).runtime.current_screen == old(app).runtime.current_screen
            &&& final(app).runtime.current_workspace == old(app).runtime.current_workspace
            &&& final(app).runtime.current_client == old(app).runtime.current_client
            &&& final(app).runtime.mouse_state == old(app).runtime.mouse_state
            &&& final(app).runtime.autostart_rules == old(app).runtime.autostart_rules
            &&& final(app).runtime.screens.len() == old(app).runtime.screens.len()
            &&& forall|s2: int|
                0 <= s2 < old(app).runtime.screens.len() && s2 != cs
                    ==> final(app).runtime.screens[s2] == old(app).runtime.screens[s2]
            &&& final(app).runtime.screens[cs] == (Screen {
                workspaces: final(app).runtime.screens[cs].workspaces,
                ..scr0
            })
            &&& final(app).runtime.screens[cs].workspaces.len() == scr0.workspaces.len()
            &&& forall|w2: int|
                0 <= w2 < scr0.workspaces.len() && w2 != n as int
                    ==> final(app).runtime.screens[cs].workspaces[w2] == scr0.workspaces[w2]
            &&& final(app).runtime.screens[cs].workspaces[n as int] == (Workspace {
                clients: final(app).runtime.screens[cs].workspaces[n as int].clients,
                current_client: Some(wsn.clients.len() as usize),
                ..wsn
            })
            &&& final(app).runtime.screens[cs].workspaces[n as int].clients@ == arranged_seq(
                old(app).config,
                scr0,
                wsn.master_capacity,
                wsn.master_width,
                pushed,
            )
            &&& final(out)@ == old(out)@ + seq![
                DriverCommand::SetBorderColor {
                    win: client.window_id,
                    color: old(app).config.normal_border_color,
                },
                DriverCommand::ReleaseDragButtons { win: client.window_id },
                DriverCommand::MoveResize {
                    win: client.window_id,
                    x: (-((client.w + client.border * 2) as int)) as i32,
                    y: (-((client.h + client.border * 2) as int)) as i32,
                    w: client.w,
                    h: client.h,
                },
                DriverCommand::SetClientDesktop {
                    win: client.window_id,
                    desktop: (n + old(app).runtime.current_screen * NUMBER_OF_DESKTOPS) as u64,
                },
            ]
        }),
{
    let ghost client0 = client;
    let mut client = client;
    let win = client.window_id;
    // Unfocus the moved client.
    unfocus(app, win, out);

    // Move the window out of view.
    out.push(DriverCommand::MoveResize {
        win,
        x: -(((client.w + client.border * 2) as i32)),
        y: -(((client.h + client.border * 2) as i32)),
        w: client.w,
        h: client.h,
    });
    client.visible = !client.visible;

    // Override the client's published desktop.
    let cs = app.runtime.current_screen;
    let cur_workspace: u64 = n + (cs as u64) * (NUMBER_OF_DESKTOPS as u64);
    crate::helper::update_client_desktop(app, win, cur_workspace, out);

    // Add the window to the stack of the target workspace and select it.
    let wref = &mut app.runtime.screens[cs].workspaces[n as usize];
    let newidx = wref.clients.len();
    wref.current_client = Some(newidx);
    wref.clients.push(client);

    let ghost mid = *app;
    proof {
        crate::model::lemma_ids_unique_after_push(
            old(app).runtime,
            app.runtime,
            cs as int,
            n as int,
            client,
        );
        assert forall|s2: int|
            0 <= s2 < app.runtime.screens.len() implies screen_wf(
            #[trigger] app.runtime.screens[s2],
        ) by {
            assert(screen_wf(old(app).runtime.screens[s2]));
            assert forall|w2: int|
                0 <= w2 < app.runtime.screens[s2].workspaces.len() implies workspace_wf(
                #[trigger] app.runtime.screens[s2].workspaces[w2],
            ) by {
                assert(workspace_wf(old(app).runtime.screens[s2].workspaces[w2]));
                if !(s2 == cs as int && w2 == n as int) {
                    assert(app.runtime.screens[s2].workspaces[w2] == old(
                        app,
                    ).runtime.screens[s2].workspaces[w2]);
                } else {
                    let s1c = old(app).runtime.screens[s2].workspaces[w2].clients@;
                    assert forall|c2: int|
                        0 <= c2 < app.runtime.screens[s2].workspaces[w2].clients.len()
                            implies crate::model::client_wf(
                        #[trigger] app.runtime.screens[s2].workspaces[w2].clients[c2],
                    ) by {
                        if c2 < s1c.len() {
                            assert(crate::model::client_wf(s1c[c2]));
                        }
                    }
                }
            }
        }
        assert(wf(*app));
    }
    arrange_workspace(app, cs, n as usize);
    proof {
        let cfg = old(app).config;
        let scr0 = old(app).runtime.screens[cs as int];
        let wsn = scr0.workspaces[n as int];
        let scr_mid = mid.runtime.screens[cs as int];
        let mid_ws = scr_mid.workspaces[n as int];
        let client2 = Client { visible: !client0.visible, ..client0 };
        let pushed = wsn.clients@.push(client2);
        assert(mid_ws.clients@ == pushed);
        assert(ws_arranged(
            cfg,
            scr_mid,
            mid_ws,
            app.runtime.screens[cs as int].workspaces[n as int],
        ));
        lemma_ws_arranged_seq_is_arranged_seq(
            cfg,
            scr_mid,
            mid_ws.master_capacity,
            mid_ws.master_width,
            pushed,
            app.runtime.screens[cs as int].workspaces[n as int].clients@,
        );
        lemma_arranged_seq_same_geometry(
            cfg,
            scr0,
            scr_mid,
            wsn.master_capacity,
            wsn.master_width,
            pushed,
        );
        assert forall|s2: int|
            0 <= s2 < old(app).runtime.screens.len() && s2 != cs as int
                implies app.runtime.screens[s2] == old(app).runtime.screens[s2] by {
            assert(mid.runtime.screens[s2] == old(app).runtime.screens[s2]);
            assert(app.runtime.screens[s2] == mid.runtime.screens[s2]);
        }
        assert forall|w2: int|
            0 <= w2 < scr0.workspaces.len() && w2 != n as int
                implies app.runtime.screens[cs as int].workspaces[w2] == scr0.workspaces[w2] by {
            assert(scr_mid.workspaces[w2] == scr0.workspaces[w2]);
            assert(app.runtime.screens[cs as int].workspaces[w2] == scr_mid.workspaces[w2]);
        }
    }
}

/// What rotating a client to the top of the stack leaves behind.
pub open spec fn pop_push_post(
    a1: Application,
    a2: Application,
    current: bool,
    o1: Seq<DriverCommand>,
    o2: Seq<DriverCommand>,
) -> bool {
    ({
            let cs = a1.runtime.current_screen as int;
            let cw = a1.runtime.current_workspace as int;
            let ws0 = a1.runtime.screens[cs].workspaces[cw];
            if ws0.arrange != ArrangeEngine::Tiled || ws0.clients.len() < 2 {
                a2 == a1 && o2 == o1
            } else {
                let k = if current {
                    match ws0.current_client {
                        Some(i) => i as int,
                        None => 0,
                    }
                } else {
                    0
                };
                let mid_clients = ws0.clients@.remove(k).push(ws0.clients@[k]);
                let mid_cc = Some((ws0.clients.len() - 1) as usize);
                &&& refreshed_ws(
                    a1,
                    mid_cc,
                    ws0.master_capacity,
                    ws0.master_width,
                    ws0.arrange,
                    mid_clients,
                    a2,
                )
                &&& o2 == o1 + refresh_cmds(
                    a1,
                    ws0.master_capacity,
                    ws0.master_width,
                    mid_clients,
                ) + suppress_cmds(a1.config)
            }
        })
}

/// Move a client (the selected one, or the bottom of the stack) to the
/// top of the stack and select it.  Only a tiled workspace with at least
/// two clients reacts.
pub fn pop_push_stack(app: &mut Application, current: bool, out: &mut Vec<DriverCommand>)
    requires
        wf(*old(app)),
    ensures
        wf(*final(app)),
        pop_push_post(*old(app), *final(app), current, old(out)@, final(out)@),
{
    let cs = app.runtime.current_screen;
    let cw = app.runtime.current_workspace;
    proof {
        assert(screen_wf(app.runtime.screens[cs as int]));
        assert(workspace_wf(app.runtime.screens[cs as int].workspaces[cw as int]));
    }
    let arrange = app.runtime.screens[cs].workspaces[cw].arrange;
    match arrange {
        ArrangeEngine::Tiled => {},
        _ => {
            return ;
        },
    }
    // No need to rotate a single window.
    if app.runtime.screens[cs].workspaces[cw].clients.len() < 2 {
        return ;
    }
    // Choose the bottom of the stack or the selected client.
    let client_index = if current {
        match app.runtime.current_client {
            Some(c) => c,
            None => {
                return ;
            },
        }
    } else {
        0
    };
    // Pop the client and place it on top of the stack.
    let wref = &mut app.runtime.screens[cs].workspaces[cw];
    let popped_client = wref.clients.remove(client_index);
    wref.clients.push(popped_client);
    let new_cc = wref.clients.len() - 1;
    wref.current_client = Some(new_cc);
    app.runtime.current_client = Some(new_cc);

    let ghost mid = *app;
    proof {
        crate::model::lemma_ids_unique_after_rotate(
            old(app).runtime,
            app.runtime,
            cs as int,
            cw as int,
            client_index as int,
        );
        assert forall|s2: int|
            0 <= s2 < app.runtime.screens.len() implies screen_wf(
            #[trigger] app.runtime.screens[s2],
        ) by {
            assert(screen_wf(old(app).runtime.screens[s2]));
            assert forall|w2: int|
                0 <= w2 < app.runtime.screens[s2].workspaces.len() implies workspace_wf(
                #[trigger] app.runtime.screens[s2].workspaces[w2],
            ) by {
                assert(workspace_wf(old(app).runtime.screens[s2].workspaces[w2]));
                if !(s2 == cs as int && w2 == cw as int) {
                    assert(app.runtime.screens[s2].workspaces[w2] == old(
                        app,
                    ).runtime.screens[s2].workspaces[w2]);
                } else {
                    let s1c = old(app).runtime.screens[s2].workspaces[w2].clients@;
                    assert forall|c2: int|
                        0 <= c2 < app.runtime.screens[s2].workspaces[w2].clients.len()
                            implies crate::model::client_wf(
                        #[trigger] app.runtime.screens[s2].workspaces[w2].clients[c2],
                    ) by {
                        if c2 == s1c.len() - 1 {
                            assert(crate::model::client_wf(s1c[client_index as int]));
                        } else if c2 >= client_index {
                            assert(crate::model::client_wf(s1c[c2 + 1]));
                        } else {
                            assert(crate::model::client_wf(s1c[c2]));
                        }
                    }
                }
            }
        }
        assert(wf(*app));
    }
    apply_layout(app, out);
    suppress_notify(app, out);
    proof {
        let cfg = old(app).config;
        let scr0 = old(app).runtime.screens[cs as int];
        let ws0 = scr0.workspaces[cw as int];
        let scr_mid = mid.runtime.screens[cs as int];
        let mid_ws = scr_mid.workspaces[cw as int];
        let mid_clients = ws0.clients@.remove(client_index as int).push(
            ws0.clients@[client_index as int],
        );
        assert(mid_ws.clients@ == mid_clients);
        lemma_arranged_seq_same_geometry(
            cfg,
            scr0,
            scr_mid,
            ws0.master_capacity,
            ws0.master_width,
            mid_clients,
        );
        lemma_show_ws_cmds_same_geometry(
            scr0,
            scr_mid,
            arranged_seq(cfg, scr0, ws0.master_capacity, ws0.master_width, mid_clients),
            mid_clients.len() as int,
        );
        assert forall|s2: int|
            0 <= s2 < old(app).runtime.screens.len() && s2 != cs as int
                implies screen_visible_arranged(
            cfg,
            #[trigger] old(app).runtime.screens[s2],
            app.runtime.screens[s2],
        ) by {
            assert(mid.runtime.screens[s2] == old(app).runtime.screens[s2]);
            assert(screen_visible_arranged(cfg, mid.runtime.screens[s2], app.runtime.screens[s2]));
        }
        assert forall|w2: int|
            0 <= w2 < scr0.workspaces.len() && w2 != cw as int
                implies app.runtime.screens[cs as int].workspaces[w2] == scr0.workspaces[w2] by {
            assert(scr_mid.workspaces[w2] == scr0.workspaces[w2]);
            assert(app.runtime.screens[cs as int].workspaces[w2] == scr_mid.workspaces[w2]);
        }
        let arr = arranged_seq(cfg, scr0, ws0.master_capacity, ws0.master_width, mid_clients);
        assert forall|p: int| 0 <= p < mid_clients.len() implies client_at(
            app.runtime,
            cs as int,
            cw as int,
            p,
        ) == (Client { visible: true, ..arr[p] }) by {
            assert(client_at(app.runtime, cs as int, cw as int, p) == Client {
                visible: true,
                ..arranged_seq(cfg, scr_mid, ws0.master_capacity, ws0.master_width, mid_ws.clients@)[p]
            });
        }
        assert(final(out)@ =~= old(out)@ + refresh_cmds(
            *old(app),
            ws0.master_capacity,
            ws0.master_width,
            mid_clients,
        ) + suppress_cmds(cfg));
    }
}

/// Clamp a computed coordinate into the range clients may occupy.
pub open spec fn clamp_coord(v: int) -> int {
    if v > MAX_CLIENT_COORD {
        MAX_CLIENT_COORD as int
    } else if v < -MAX_CLIENT_COORD {
        -MAX_CLIENT_COORD as int
    } else {
        v
    }
}

/// Where a floating client lands when it moves between screens: the same
/// position relative to the new screen's origin.
pub open spec fn translated_client(c: Client, from: Screen, to: Screen) -> Client {
    if c.floating {
        Client {
            x: clamp_coord(to.x + (c.x - from.x)) as i32,
            y: clamp_coord(to.y + (c.y - from.y)) as i32,
            ..c
        }
    } else {
        c
    }
}

/// What moving the selected client to screen `ns` leaves behind, and
/// the driver work `o2` appends to `o1` doing it.
pub open spec fn moved_to_screen(
    a1: Application,
    a2: Application,
    ns: int,
    o1: Seq<DriverCommand>,
    o2: Seq<DriverCommand>,
) -> bool {
    let cs = a1.runtime.current_screen as int;
    let cw = a1.runtime.current_workspace as int;
    let index = a1.runtime.current_client->0;
    let scr0 = a1.runtime.screens[cs];
    let ws0 = scr0.workspaces[cw];
    let scrn = a1.runtime.screens[ns];
    let nw = scrn.current_workspace as int;
    let wsn = scrn.workspaces[nw];
    {
            let popped = ws0.clients@[index as int];
            let removed = ws0.clients@.remove(index as int);
            let ncc = shifted_cursor(Some(index), removed.len() as nat);
            let client2 = translated_client(popped, scr0, scrn);
            let pushed = wsn.clients@.push(client2);
            let arr0 = arranged_seq(
                a1.config,
                scr0,
                ws0.master_capacity,
                ws0.master_width,
                removed,
            );
            let arrn = arranged_seq(
                a1.config,
                scrn,
                wsn.master_capacity,
                wsn.master_width,
                pushed,
            );
            &&& a2.config == a1.config
            &&& a2.core == a1.core
            &&& a2.runtime.current_screen == a1.runtime.current_screen
            &&& a2.runtime.current_workspace == a1.runtime.current_workspace
            &&& a2.runtime.current_client == ncc
            &&& a2.runtime.mouse_state == a1.runtime.mouse_state
            &&& a2.runtime.autostart_rules == a1.runtime.autostart_rules
            &&& a2.runtime.screens.len() == a1.runtime.screens.len()
            &&& forall|s2: int|
                0 <= s2 < a1.runtime.screens.len() && s2 != cs && s2 != ns ==> screen_visible_arranged(
                    a1.config,
                    #[trigger] a1.runtime.screens[s2],
                    a2.runtime.screens[s2],
                )
            &&& a2.runtime.screens[cs] == (Screen {
                workspaces: a2.runtime.screens[cs].workspaces,
                ..scr0
            })
            &&& a2.runtime.screens[cs].workspaces.len() == scr0.workspaces.len()
            &&& forall|w2: int|
                0 <= w2 < scr0.workspaces.len() && w2 != cw
                    ==> a2.runtime.screens[cs].workspaces[w2]
                    == scr0.workspaces[w2]
            &&& a2.runtime.screens[cs].workspaces[cw] == (Workspace {
                clients: a2.runtime.screens[cs].workspaces[cw].clients,
                current_client: ncc,
                ..ws0
            })
            &&& a2.runtime.screens[cs].workspaces[cw].clients.len()
                == removed.len()
            &&& forall|p: int|
                0 <= p < removed.len() ==> client_at(a2.runtime, cs, cw, p) == (
                Client { visible: true, ..#[trigger] arr0[p] })
            &&& a2.runtime.screens[ns] == (Screen {
                workspaces: a2.runtime.screens[ns].workspaces,
                ..scrn
            })
            &&& a2.runtime.screens[ns].workspaces.len() == scrn.workspaces.len()
            &&& forall|w2: int|
                0 <= w2 < scrn.workspaces.len() && w2 != nw
                    ==> a2.runtime.screens[ns].workspaces[w2]
                    == scrn.workspaces[w2]
            &&& a2.runtime.screens[ns].workspaces[nw] == (Workspace {
                clients: a2.runtime.screens[ns].workspaces[nw].clients,
                current_client: Some(wsn.clients.len() as usize),
                ..wsn
            })
            &&& a2.runtime.screens[ns].workspaces[nw].clients.len()
                == pushed.len()
            &&& forall|p: int|
                0 <= p < pushed.len() ==> client_at(a2.runtime, ns, nw, p) == (
                Client { visible: true, ..#[trigger] arrn[p] })
            &&& o2 == o1 + seq![
                DriverCommand::SetBorderColor {
                    win: popped.window_id,
                    color: a1.config.normal_border_color,
                },
                DriverCommand::SetClientDesktop {
                    win: popped.window_id,
                    desktop: (nw + ns * NUMBER_OF_DESKTOPS) as u64,
                },
            ] + shift_repair_cmds(removed, ncc) + show_ws_cmds(
                scrn,
                arrn,
                pushed.len() as int,
            ) + show_ws_cmds(scr0, arr0, removed.len() as int)

    }
}

/// The moving work itself, for a target screen other than the active
/// one.
#[verifier::rlimit(100)]
#[verifier::spinoff_prover]
fn move_to_screen_inner(app: &mut Application, ns: usize, out: &mut Vec<DriverCommand>)
    requires
        wf(*old(app)),
        old(app).runtime.current_client is Some,
        ns < old(app).runtime.screens.len(),
        ns as int != old(app).runtime.current_screen as int,
        old(app).runtime.screens[ns as int].workspaces[old(app).runtime.screens[ns as int].current_workspace as int].clients.len()
            < crate::model::MAX_CLIENTS,
    ensures
        wf(*final(app)),
        moved_to_screen(*old(app), *final(app), ns as int, old(out)@, final(out)@),
{
    let cs = app.runtime.current_screen;
    let cw = app.runtime.current_workspace;
    let index = match app.runtime.current_client {
        Some(i) => i,
        None => {
            proof {
                assert(false);
            }
            0
        },
    };
    let nw = app.runtime.screens[ns].current_workspace;
    proof {
        assert(screen_wf(app.runtime.screens[cs as int]));
        assert(workspace_wf(app.runtime.screens[cs as int].workspaces[cw as int]));
        assert(screen_wf(app.runtime.screens[ns as int]));
        assert(workspace_wf(app.runtime.screens[ns as int].workspaces[nw as int]));
    }
    // Pop the selected client.
    let wref = &mut app.runtime.screens[cs].workspaces[cw];
    let mut client = wref.clients.remove(index);
    let ghost a1 = *app;
    out.push(DriverCommand::SetBorderColor {
        win: client.window_id,
        color: app.config.normal_border_color,
    });

    // Announce the new desktop of the moved window.
    let new_workspace: u64 = (nw as u64) + (ns as u64) * (NUMBER_OF_DESKTOPS as u64);
    crate::helper::update_client_desktop(app, client.window_id, new_workspace, out);

    // A floating window keeps its position relative to the screen.
    if client.floating {
        let rel_x: i64 = client.x as i64 - app.runtime.screens[cs].x;
        let rel_y: i64 = client.y as i64 - app.runtime.screens[cs].y;
        let nx: i64 = app.runtime.screens[ns].x + rel_x;
        let ny: i64 = app.runtime.screens[ns].y + rel_y;
        client.x = if nx > MAX_CLIENT_COORD as i64 {
            MAX_CLIENT_COORD
        } else if nx < -(MAX_CLIENT_COORD as i64) {
            -MAX_CLIENT_COORD
        } else {
            nx as i32
        };
        client.y = if ny > MAX_CLIENT_COORD as i64 {
            MAX_CLIENT_COORD
        } else if ny < -(MAX_CLIENT_COORD as i64) {
            -MAX_CLIENT_COORD
        } else {
            ny as i32
        };
    }
    proof {
        crate::model::lemma_ids_unique_after_remove(
            old(app).runtime,
            a1.runtime,
            cs as int,
            cw as int,
            index as int,
        );
        crate::model::lemma_removed_window_absent(
            old(app).runtime,
            a1.runtime,
            cs as int,
            cw as int,
            index as int,
        );
        assert forall|s2: int|
            0 <= s2 < a1.runtime.screens.len() implies {
            let scr = #[trigger] a1.runtime.screens[s2];
            &&& crate::model::screen_geometry_wf(scr)
            &&& scr.workspaces.len() == NUMBER_OF_DESKTOPS
            &&& scr.current_workspace < scr.workspaces.len()
            &&& forall|w2: int|
                0 <= w2 < scr.workspaces.len()
                    ==> crate::model::workspace_wf_except_cursor(
                    #[trigger] scr.workspaces[w2],
                )
        } by {
            assert(screen_wf(old(app).runtime.screens[s2]));
            assert forall|w2: int|
                0 <= w2 < a1.runtime.screens[s2].workspaces.len()
                    implies crate::model::workspace_wf_except_cursor(
                #[trigger] a1.runtime.screens[s2].workspaces[w2],
            ) by {
                assert(workspace_wf(old(app).runtime.screens[s2].workspaces[w2]));
                if s2 == cs as int && w2 == cw as int {
                    let s1c = old(app).runtime.screens[s2].workspaces[w2].clients@;
                    assert forall|c2: int|
                        0 <= c2 < a1.runtime.screens[s2].workspaces[w2].clients.len()
                            implies crate::model::client_wf(
                        #[trigger] a1.runtime.screens[s2].workspaces[w2].clients[c2],
                    ) by {
                        if c2 >= index {
                            assert(crate::model::client_wf(s1c[c2 + 1]));
                        } else {
                            assert(crate::model::client_wf(s1c[c2]));
                        }
                    }
                } else {
                    assert(a1.runtime.screens[s2].workspaces[w2] == old(
                        app,
                    ).runtime.screens[s2].workspaces[w2]);
                }
            }
        }
        assert forall|s2: int, w2: int|
            0 <= s2 < a1.runtime.screens.len() && 0 <= w2
                < a1.runtime.screens[s2].workspaces.len() && !(s2 == cs as int && w2
                == cw as int) implies workspace_wf(
            #[trigger] a1.runtime.screens[s2].workspaces[w2],
        ) by {
            assert(a1.runtime.screens[s2].workspaces[w2] == old(
                app,
            ).runtime.screens[s2].workspaces[w2]);
            assert(workspace_wf(old(app).runtime.screens[s2].workspaces[w2]));
        }
        assert(crate::model::wf_except_cursor(a1, cs as int, cw as int));
    }
    // Pull the source cursor back into range.
    shift_current_client_at(app, cs, cw, out);
    let ghost a2 = *app;
    // Add the window to the stack of the target screen's visible
    // workspace and select it there.
    let wref2 = &mut app.runtime.screens[ns].workspaces[nw];
    let newlen = wref2.clients.len();
    wref2.current_client = Some(newlen);
    wref2.clients.push(client);
    let ghost a3 = *app;
    proof {
        assert forall|s2: int, w2: int|
            0 <= s2 < old(app).runtime.screens.len() && 0 <= w2
                < old(app).runtime.screens[s2].workspaces.len() && !(s2 == cs as int && w2
                == cw as int) && !(s2 == ns as int && w2 == nw as int)
                implies #[trigger] a3.runtime.screens[s2].workspaces[w2]
            == old(app).runtime.screens[s2].workspaces[w2] by {
            if s2 != cs as int {
                assert(a2.runtime.screens[s2] == a1.runtime.screens[s2]);
                assert(a1.runtime.screens[s2] == old(app).runtime.screens[s2]);
                if s2 != ns as int {
                    assert(a3.runtime.screens[s2] == a2.runtime.screens[s2]);
                } else {
                    assert(a3.runtime.screens[s2].workspaces[w2]
                        == a2.runtime.screens[s2].workspaces[w2]);
                }
            } else {
                assert(a2.runtime.screens[cs as int].workspaces[w2]
                    == a1.runtime.screens[cs as int].workspaces[w2]);
                assert(a1.runtime.screens[cs as int].workspaces[w2] == old(
                    app,
                ).runtime.screens[cs as int].workspaces[w2]);
                assert(a3.runtime.screens[s2].workspaces[w2]
                    == a2.runtime.screens[s2].workspaces[w2]);
            }
        }
        assert(a3.runtime.screens.len() == old(app).runtime.screens.len());
        assert(a3.runtime.screens[cs as int].workspaces.len() == old(
            app,
        ).runtime.screens[cs as int].workspaces.len());
        assert(a3.runtime.screens[ns as int].workspaces.len() == old(
            app,
        ).runtime.screens[ns as int].workspaces.len());
        assert(a3.runtime.screens[cs as int].workspaces[cw as int]
            == a2.runtime.screens[cs as int].workspaces[cw as int]);
        assert(a3.runtime.screens[cs as int].workspaces[cw as int].clients@ == old(
            app,
        ).runtime.screens[cs as int].workspaces[cw as int].clients@.remove(index as int));
        assert(a2.runtime.screens[ns as int].workspaces[nw as int] == old(
            app,
        ).runtime.screens[ns as int].workspaces[nw as int]);
        assert(a3.runtime.screens[ns as int].workspaces[nw as int].clients@
            == a2.runtime.screens[ns as int].workspaces[nw as int].clients@.push(client));
        crate::model::lemma_ids_unique_after_transfer(
            old(app).runtime,
            a3.runtime,
            cs as int,
            cw as int,
            index as int,
            ns as int,
            nw as int,
        );
        assert forall|s2: int|
            0 <= s2 < a3.runtime.screens.len() implies screen_wf(
            #[trigger] a3.runtime.screens[s2],
        ) by {
            assert(screen_wf(old(app).runtime.screens[s2]));
            assert(screen_wf(a2.runtime.screens[s2]));
            assert forall|w2: int|
                0 <= w2 < a3.runtime.screens[s2].workspaces.len() implies workspace_wf(
                #[trigger] a3.runtime.screens[s2].workspaces[w2],
            ) by {
                if s2 == ns as int && w2 == nw as int {
                    let s2c = a2.runtime.screens[s2].workspaces[w2].clients@;
                    assert(workspace_wf(a2.runtime.screens[s2].workspaces[w2]));
                    assert forall|c2: int|
                        0 <= c2 < a3.runtime.screens[s2].workspaces[w2].clients.len()
                            implies crate::model::client_wf(
                        #[trigger] a3.runtime.screens[s2].workspaces[w2].clients[c2],
                    ) by {
                        if c2 < s2c.len() {
                            assert(crate::model::client_wf(s2c[c2]));
                        } else {
                            assert(a3.runtime.screens[s2].workspaces[w2].clients[c2]
                                == client);
                        }
                    }
                } else {
                    assert(a3.runtime.screens[s2].workspaces[w2]
                        == a2.runtime.screens[s2].workspaces[w2]);
                    assert(workspace_wf(a2.runtime.screens[s2].workspaces[w2]));
                }
            }
        }
        assert(wf(a3));
    }
    // Retile both screens and re-show the affected workspaces.
    arrange_visible(app);
    let ghost a4 = *app;
    let ghost out4 = out@;
    show_workspace(app, ns, nw, out);
    let ghost a5 = *app;
    let ghost out5 = out@;
    proof {
        let cfg = old(app).config;
        let scrn0 = old(app).runtime.screens[ns as int];
        let wsn0 = scrn0.workspaces[nw as int];
        let scrn3 = a3.runtime.screens[ns as int];
        let pushed = a3.runtime.screens[ns as int].workspaces[nw as int].clients@;
        assert(screen_visible_arranged(cfg, scrn3, a4.runtime.screens[ns as int]));
        assert(ws_arranged(
            cfg,
            scrn3,
            a3.runtime.screens[ns as int].workspaces[nw as int],
            a4.runtime.screens[ns as int].workspaces[nw as int],
        ));
        lemma_ws_arranged_seq_is_arranged_seq(
            cfg,
            scrn3,
            wsn0.master_capacity,
            wsn0.master_width,
            pushed,
            a4.runtime.screens[ns as int].workspaces[nw as int].clients@,
        );
        lemma_arranged_seq_same_geometry(
            cfg,
            scrn0,
            scrn3,
            wsn0.master_capacity,
            wsn0.master_width,
            pushed,
        );
        lemma_show_ws_cmds_same_geometry(
            scrn0,
            a4.runtime.screens[ns as int],
            arranged_seq(cfg, scrn0, wsn0.master_capacity, wsn0.master_width, pushed),
            pushed.len() as int,
        );
        assert(out5 =~= out4 + show_ws_cmds(
            scrn0,
            arranged_seq(cfg, scrn0, wsn0.master_capacity, wsn0.master_width, pushed),
            pushed.len() as int,
        ));
    }
    show_workspace(app, cs, cw, out);
    proof {
        let cfg = old(app).config;
        let scr0 = old(app).runtime.screens[cs as int];
        let ws0 = scr0.workspaces[cw as int];
        let removed = ws0.clients@.remove(index as int);
        let scr3 = a3.runtime.screens[cs as int];
        assert(a3.runtime.screens[cs as int].workspaces[cw as int].clients@ == removed);
        assert(screen_visible_arranged(cfg, scr3, a4.runtime.screens[cs as int]));
        assert(ws_arranged(
            cfg,
            scr3,
            a3.runtime.screens[cs as int].workspaces[cw as int],
            a4.runtime.screens[cs as int].workspaces[cw as int],
        ));
        lemma_ws_arranged_seq_is_arranged_seq(
            cfg,
            scr3,
            ws0.master_capacity,
            ws0.master_width,
            removed,
            a4.runtime.screens[cs as int].workspaces[cw as int].clients@,
        );
        lemma_arranged_seq_same_geometry(
            cfg,
            scr0,
            scr3,
            ws0.master_capacity,
            ws0.master_width,
            removed,
        );
        assert(a5.runtime.screens[cs as int].workspaces[cw as int].clients@
            == a4.runtime.screens[cs as int].workspaces[cw as int].clients@);
        lemma_show_ws_cmds_same_geometry(
            scr0,
            a5.runtime.screens[cs as int],
            arranged_seq(cfg, scr0, ws0.master_capacity, ws0.master_width, removed),
            removed.len() as int,
        );
        crate::helper::lemma_show_ws_cmds_congruent(
            a5.runtime.screens[cs as int],
            arranged_seq(cfg, scr0, ws0.master_capacity, ws0.master_width, removed),
            a5.runtime.screens[cs as int].workspaces[cw as int].clients@,
            removed.len() as int,
        );
        assert forall|s2: int|
            0 <= s2 < old(app).runtime.screens.len() && s2 != cs as int && s2 != ns as int
                implies screen_visible_arranged(
            cfg,
            #[trigger] old(app).runtime.screens[s2],
            app.runtime.screens[s2],
        ) by {
            assert(a1.runtime.screens[s2] == old(app).runtime.screens[s2]);
            assert(a2.runtime.screens[s2] == a1.runtime.screens[s2]);
            assert(a3.runtime.screens[s2] == a2.runtime.screens[s2]);
            assert(screen_visible_arranged(
                cfg,
                a3.runtime.screens[s2],
                a4.runtime.screens[s2],
            ));
            assert(a5.runtime.screens[s2] == a4.runtime.screens[s2]);
            assert(app.runtime.screens[s2] == a5.runtime.screens[s2]);
        }
        let ncc = shifted_cursor(Some(index), removed.len() as nat);
        assert(final(out)@ =~= old(out)@ + seq![
            DriverCommand::SetBorderColor {
                win: ws0.clients@[index as int].window_id,
                color: cfg.normal_border_color,
            },
            DriverCommand::SetClientDesktop {
                win: ws0.clients@[index as int].window_id,
                desktop: (nw + ns * NUMBER_OF_DESKTOPS) as u64,
            },
        ] + shift_repair_cmds(removed, ncc) + show_ws_cmds(
            old(app).runtime.screens[ns as int],
            arranged_seq(
                cfg,
                old(app).runtime.screens[ns as int],
                old(app).runtime.screens[ns as int].workspaces[nw as int].master_capacity,
                old(app).runtime.screens[ns as int].workspaces[nw as int].master_width,
                a3.runtime.screens[ns as int].workspaces[nw as int].clients@,
            ),
            a3.runtime.screens[ns as int].workspaces[nw as int].clients@.len() as int,
        ) + show_ws_cmds(
            scr0,
            arranged_seq(cfg, scr0, ws0.master_capacity, ws0.master_width, removed),
            removed.len() as int,
        ));
    }
}

/// What moving the selected client to the adjacent screen in direction `d` leaves behind.
pub open spec fn move_to_screen_post(
    a1: Application,
    a2: Application,
    d: ScreenSwitching,
    o1: Seq<DriverCommand>,
    o2: Seq<DriverCommand>,
) -> bool {
    ({
            let len = a1.runtime.screens.len() as int;
            let cs = a1.runtime.current_screen as int;
            let ns = match d {
                ScreenSwitching::Next => (cs + 1) % len,
                ScreenSwitching::Previous => (cs + len - 1) % len,
            };
            let scrn = a1.runtime.screens[ns];
            let nw = scrn.current_workspace as int;
            let wsn = scrn.workspaces[nw];
            match a1.runtime.current_client {
                None => a2 == a1 && o2 == o1,
                Some(index) => if len < 2 || wsn.clients.len() >= crate::model::MAX_CLIENTS {
                    a2 == a1 && o2 == o1
                } else {
                    moved_to_screen(a1, a2, ns, o1, o2)
                },
            }
        })
}

/// Move the selected client to the next or previous screen: it lands on
/// top of that screen's visible workspace and is selected there, the
/// source cursor is pulled back into range, and both screens are retiled
/// and re-shown.  With a single screen there is nowhere to move to.
pub fn move_to_screen(app: &mut Application, d: ScreenSwitching, out: &mut Vec<DriverCommand>)
    requires
        wf(*old(app)),
    ensures
        wf(*final(app)),
        move_to_screen_post(*old(app), *final(app), d, old(out)@, final(out)@),
{
    let cs = app.runtime.current_screen;
    if let Some(_index) = app.runtime.current_client {
        let nscreens = app.runtime.screens.len();
        let new_screen_index = match d {
            ScreenSwitching::Next => (cs + 1) % nscreens,
            ScreenSwitching::Previous => (cs + nscreens - 1) % nscreens,
        };
        if nscreens < 2 {
            // A single screen leaves nowhere to move to.
            return ;
        }
        let ns = new_screen_index;
        proof {
            let l = nscreens as int;
            match d {
                ScreenSwitching::Next => {
                    assert((cs as int + 1) % l != cs as int) by (nonlinear_arith)
                        requires
                            2 <= l,
                            0 <= cs as int,
                            (cs as int) < l,
                    ;
                },
                ScreenSwitching::Previous => {
                    assert((cs as int + l - 1) % l != cs as int) by (nonlinear_arith)
                        requires
                            2 <= l,
                            0 <= cs as int,
                            (cs as int) < l,
                    ;
                },
            }
            assert(ns != cs);
            assert(screen_wf(app.runtime.screens[ns as int]));
        }
        let nw = app.runtime.screens[ns].current_workspace;
        if app.runtime.screens[ns].workspaces[nw].clients.len() >= crate::model::MAX_CLIENTS {
            // The target workspace cannot take another client.
            return ;
        }
        move_to_screen_inner(app, ns, out);
    }
}

/// The input-focus repair a cursor shift performs on the active
/// workspace, spelled out over the remaining clients.
pub open spec fn shift_repair_cmds(removed: Seq<Client>, ncc: Option<usize>) -> Seq<
    DriverCommand,
> {
    match ncc {
        Some(i) => seq![
            DriverCommand::SetInputFocus { win: removed[i as int].window_id },
            DriverCommand::SetActiveWindow { win: removed[i as int].window_id },
        ],
        None => seq![DriverCommand::FocusRoot, DriverCommand::ClearActiveWindow],
    }
}

/// The hide-and-announce work of moving one client to another workspace.
pub open spec fn move_client_cmds(cfg: Config, popped: Client, desktop: u64) -> Seq<
    DriverCommand,
> {
    seq![
        DriverCommand::SetBorderColor {
            win: popped.window_id,
            color: cfg.normal_border_color,
        },
        DriverCommand::ReleaseDragButtons { win: popped.window_id },
        DriverCommand::MoveResize {
            win: popped.window_id,
            x: (-((popped.w + popped.border * 2) as int)) as i32,
            y: (-((popped.h + popped.border * 2) as int)) as i32,
            w: popped.w,
            h: popped.h,
        },
        DriverCommand::SetClientDesktop { win: popped.window_id, desktop },
    ]
}

/// What moving the selected client to workspace `n` leaves behind.
pub open spec fn move_to_workspace_post(
    a1: Application,
    a2: Application,
    n: u64,
    o1: Seq<DriverCommand>,
    o2: Seq<DriverCommand>,
) -> bool {
    ({
            let cs = a1.runtime.current_screen as int;
            let cw = a1.runtime.current_workspace as int;
            let scr0 = a1.runtime.screens[cs];
            let ws0 = scr0.workspaces[cw];
            match a1.runtime.current_client {
                None => a2 == a1 && o2 == o1,
                Some(index) => if n as int == cw {
                    // Remapped to a stack rotation of the selected client.
                    if ws0.arrange != ArrangeEngine::Tiled || ws0.clients.len() < 2 {
                        a2 == a1 && o2 == o1
                    } else {
                        let mid_clients = ws0.clients@.remove(index as int).push(
                            ws0.clients@[index as int],
                        );
                        let mid_cc = Some((ws0.clients.len() - 1) as usize);
                        &&& refreshed_ws(
                            a1,
                            mid_cc,
                            ws0.master_capacity,
                            ws0.master_width,
                            ws0.arrange,
                            mid_clients,
                            a2,
                        )
                        &&& o2 == o1 + refresh_cmds(
                            a1,
                            ws0.master_capacity,
                            ws0.master_width,
                            mid_clients,
                        ) + suppress_cmds(a1.config)
                    }
                } else if scr0.workspaces[n as int].clients.len()
                    >= crate::model::MAX_CLIENTS {
                    a2 == a1 && o2 == o1
                } else {
                    let popped = ws0.clients@[index as int];
                    let removed = ws0.clients@.remove(index as int);
                    let ncc = shifted_cursor(Some(index), removed.len() as nat);
                    let client2 = Client { visible: !popped.visible, ..popped };
                    let wsn = scr0.workspaces[n as int];
                    let pushed = wsn.clients@.push(client2);
                    let arr = arranged_seq(
                        a1.config,
                        scr0,
                        ws0.master_capacity,
                        ws0.master_width,
                        removed,
                    );
                    &&& a2.config == a1.config
                    &&& a2.core == a1.core
                    &&& a2.runtime.current_screen == a1.runtime.current_screen
                    &&& a2.runtime.current_workspace == a1.runtime.current_workspace
                    &&& a2.runtime.current_client == ncc
                    &&& a2.runtime.mouse_state == a1.runtime.mouse_state
                    &&& a2.runtime.autostart_rules == a1.runtime.autostart_rules
                    &&& a2.runtime.screens.len() == a1.runtime.screens.len()
                    &&& forall|s2: int|
                        0 <= s2 < a1.runtime.screens.len() && s2 != cs
                            ==> screen_visible_arranged(
                            a1.config,
                            #[trigger] a1.runtime.screens[s2],
                            a2.runtime.screens[s2],
                        )
                    &&& a2.runtime.screens[cs] == (Screen {
                        workspaces: a2.runtime.screens[cs].workspaces,
                        ..scr0
                    })
                    &&& a2.runtime.screens[cs].workspaces.len() == scr0.workspaces.len()
                    &&& forall|w2: int|
                        0 <= w2 < scr0.workspaces.len() && w2 != cw && w2 != n as int
                            ==> a2.runtime.screens[cs].workspaces[w2]
                            == scr0.workspaces[w2]
                    &&& a2.runtime.screens[cs].workspaces[n as int] == (Workspace {
                        clients: a2.runtime.screens[cs].workspaces[n as int].clients,
                        current_client: Some(wsn.clients.len() as usize),
                        ..wsn
                    })
                    &&& a2.runtime.screens[cs].workspaces[n as int].clients@
                        == arranged_seq(
                        a1.config,
                        scr0,
                        wsn.master_capacity,
                        wsn.master_width,
                        pushed,
                    )
                    &&& a2.runtime.screens[cs].workspaces[cw] == (Workspace {
                        clients: a2.runtime.screens[cs].workspaces[cw].clients,
                        current_client: ncc,
                        ..ws0
                    })
                    &&& a2.runtime.screens[cs].workspaces[cw].clients.len()
                        == removed.len()
                    &&& forall|p: int|
                        0 <= p < removed.len() ==> client_at(a2.runtime, cs, cw, p) == (
                        Client { visible: true, ..#[trigger] arr[p] })
                    &&& o2 == o1 + shift_repair_cmds(removed, ncc)
                        + move_client_cmds(
                        a1.config,
                        popped,
                        (n + a1.runtime.current_screen * NUMBER_OF_DESKTOPS) as u64,
                    ) + refresh_cmds(
                        a1,
                        ws0.master_capacity,
                        ws0.master_width,
                        removed,
                    )
                },
            }
        })
}

/// Move the selected client to workspace `n` of the active screen.
/// Moving it onto its own workspace rotates it to the top of the stack
/// instead.  The source workspace's cursor is pulled back into range and
/// both workspaces are retiled.
#[verifier::rlimit(100)]
pub fn move_to_workspace(app: &mut Application, n: u64, out: &mut Vec<DriverCommand>)
    requires
        wf(*old(app)),
        n < NUMBER_OF_DESKTOPS as u64,
    ensures
        wf(*final(app)),
        move_to_workspace_post(*old(app), *final(app), n, old(out)@, final(out)@),
{
    let cs = app.runtime.current_screen;
    let cw = app.runtime.current_workspace;
    proof {
        assert(screen_wf(app.runtime.screens[cs as int]));
        assert(workspace_wf(app.runtime.screens[cs as int].workspaces[cw as int]));
        assert(workspace_wf(app.runtime.screens[cs as int].workspaces[n as int]));
    }
    if let Some(index) = app.runtime.current_client {
        if n as usize != cw {
            if app.runtime.screens[cs].workspaces[n as usize].clients.len()
                >= crate::model::MAX_CLIENTS {
                // The target workspace cannot take another client.
                return ;
            }
            // Pop the selected client.
            let wref = &mut app.runtime.screens[cs].workspaces[cw];
            let popped_client = wref.clients.remove(index);
            let ghost a1 = *app;
            proof {
                crate::model::lemma_ids_unique_after_remove(
                    old(app).runtime,
                    a1.runtime,
                    cs as int,
                    cw as int,
                    index as int,
                );
                crate::model::lemma_removed_window_absent(
                    old(app).runtime,
                    a1.runtime,
                    cs as int,
                    cw as int,
                    index as int,
                );
                assert forall|s2: int|
                    0 <= s2 < a1.runtime.screens.len() implies {
                    let scr = #[trigger] a1.runtime.screens[s2];
                    &&& crate::model::screen_geometry_wf(scr)
                    &&& scr.workspaces.len() == NUMBER_OF_DESKTOPS
                    &&& scr.current_workspace < scr.workspaces.len()
                    &&& forall|w2: int|
                        0 <= w2 < scr.workspaces.len()
                            ==> crate::model::workspace_wf_except_cursor(
                            #[trigger] scr.workspaces[w2],
                        )
                } by {
                    assert(screen_wf(old(app).runtime.screens[s2]));
                    assert forall|w2: int|
                        0 <= w2 < a1.runtime.screens[s2].workspaces.len()
                            implies crate::model::workspace_wf_except_cursor(
                        #[trigger] a1.runtime.screens[s2].workspaces[w2],
                    ) by {
                        assert(workspace_wf(old(app).runtime.screens[s2].workspaces[w2]));
                        if s2 == cs as int && w2 == cw as int {
                            let s1c = old(app).runtime.screens[s2].workspaces[w2].clients@;
                            assert forall|c2: int|
                                0 <= c2 < a1.runtime.screens[s2].workspaces[w2].clients.len()
                                    implies crate::model::client_wf(
                                #[trigger] a1.runtime.screens[s2].workspaces[w2].clients[c2],
                            ) by {
                                if c2 >= index {
                                    assert(crate::model::client_wf(s1c[c2 + 1]));
                                } else {
                                    assert(crate::model::client_wf(s1c[c2]));
                                }
                            }
                        } else {
                            assert(a1.runtime.screens[s2].workspaces[w2] == old(
                                app,
                            ).runtime.screens[s2].workspaces[w2]);
                        }
                    }
                }
                assert forall|s2: int, w2: int|
                    0 <= s2 < a1.runtime.screens.len() && 0 <= w2
                        < a1.runtime.screens[s2].workspaces.len() && !(s2 == cs as int && w2
                        == cw as int) implies workspace_wf(
                    #[trigger] a1.runtime.screens[s2].workspaces[w2],
                ) by {
                    assert(a1.runtime.screens[s2].workspaces[w2] == old(
                        app,
                    ).runtime.screens[s2].workspaces[w2]);
                    assert(workspace_wf(old(app).runtime.screens[s2].workspaces[w2]));
                }
                assert(crate::model::wf_except_cursor(a1, cs as int, cw as int));
            }
            // Pull the source cursor back into range.
            shift_current_client_at(app, cs, cw, out);
            let ghost a2 = *app;
            proof {
                assert(a2.runtime.screens.len() == a1.runtime.screens.len());
                assert(a2.runtime.current_screen == cs && a2.runtime.current_workspace == cw);
                assert(forall|s2: int|
                    0 <= s2 < a1.runtime.screens.len() && s2 != cs as int
                        ==> a2.runtime.screens[s2] == a1.runtime.screens[s2]);
                assert forall|s2: int|
                    0 <= s2 < a1.runtime.screens.len()
                        implies (#[trigger] a2.runtime.screens[s2]).workspaces.len()
                    == a1.runtime.screens[s2].workspaces.len() by {
                    if s2 != cs as int {
                        assert(a2.runtime.screens[s2] == a1.runtime.screens[s2]);
                    }
                }
                assert forall|s2: int, w2: int|
                    0 <= s2 < a1.runtime.screens.len() && 0 <= w2
                        < a1.runtime.screens[s2].workspaces.len()
                        implies (#[trigger] a2.runtime.screens[s2].workspaces[w2]).clients.len()
                    == a1.runtime.screens[s2].workspaces[w2].clients.len() by {
                    if s2 != cs as int {
                        assert(a2.runtime.screens[s2] == a1.runtime.screens[s2]);
                    } else if w2 != cw as int {
                        assert(a2.runtime.screens[cs as int].workspaces[w2]
                            == a1.runtime.screens[cs as int].workspaces[w2]);
                    }
                }
                assert forall|s2: int, w2: int, c2: int|
                    pos_ok(a1.runtime, s2, w2, c2) implies #[trigger] client_at(
                    a2.runtime,
                    s2,
                    w2,
                    c2,
                ).window_id == client_at(a1.runtime, s2, w2, c2).window_id by {
                    if s2 != cs as int {
                        assert(a2.runtime.screens[s2] == a1.runtime.screens[s2]);
                    } else if w2 != cw as int {
                        assert(a2.runtime.screens[cs as int].workspaces[w2]
                            == a1.runtime.screens[cs as int].workspaces[w2]);
                    } else {
                        assert(a2.runtime.screens[cs as int].workspaces[cw as int].clients
                            == a1.runtime.screens[cs as int].workspaces[cw as int].clients);
                    }
                }
                crate::model::lemma_window_present_pointwise(
                    a1.runtime,
                    a2.runtime,
                    popped_client.window_id,
                );
                assert(!window_present(a2.runtime, popped_client.window_id));
                assert(client_at(old(app).runtime, cs as int, cw as int, index as int)
                    == popped_client);
                assert(crate::model::client_wf(popped_client));
                assert(a1.runtime.screens[cs as int].workspaces[n as int]
                    == old(app).runtime.screens[cs as int].workspaces[n as int]);
                assert(a2.runtime.screens[cs as int].workspaces[n as int]
                    == a1.runtime.screens[cs as int].workspaces[n as int]);
                assert(a2.runtime.current_workspace == cw);
                assert(a2.runtime.current_screen == cs);
            }
            // Move the popped client to the target workspace.
            move_client_to_workspace(app, popped_client, n, out);
            let ghost a3 = *app;
            // Update the source workspace's layout.
            apply_layout(app, out);
            proof {
                let cfg = old(app).config;
                let scr0 = old(app).runtime.screens[cs as int];
                let ws0 = scr0.workspaces[cw as int];
                let removed = ws0.clients@.remove(index as int);
                let ncc = shifted_cursor(Some(index), removed.len() as nat);
                let scr3 = a3.runtime.screens[cs as int];
                assert(a3.runtime.screens[cs as int].workspaces[cw as int].clients@ == removed);
                lemma_arranged_seq_same_geometry(
                    cfg,
                    scr0,
                    scr3,
                    ws0.master_capacity,
                    ws0.master_width,
                    removed,
                );
                lemma_show_ws_cmds_same_geometry(
                    scr0,
                    scr3,
                    arranged_seq(cfg, scr0, ws0.master_capacity, ws0.master_width, removed),
                    removed.len() as int,
                );
                assert forall|s2: int|
                    0 <= s2 < old(app).runtime.screens.len() && s2 != cs as int
                        implies screen_visible_arranged(
                    cfg,
                    #[trigger] old(app).runtime.screens[s2],
                    app.runtime.screens[s2],
                ) by {
                    assert(a3.runtime.screens[s2] == old(app).runtime.screens[s2]);
                    assert(screen_visible_arranged(
                        cfg,
                        a3.runtime.screens[s2],
                        app.runtime.screens[s2],
                    ));
                }
                assert forall|w2: int|
                    0 <= w2 < scr0.workspaces.len() && w2 != cw as int
                        implies app.runtime.screens[cs as int].workspaces[w2]
                        == a3.runtime.screens[cs as int].workspaces[w2] by {}
                assert forall|w2: int|
                    0 <= w2 < scr0.workspaces.len() && w2 != cw as int && w2 != n as int
                        implies app.runtime.screens[cs as int].workspaces[w2]
                        == scr0.workspaces[w2] by {
                    assert(a3.runtime.screens[cs as int].workspaces[w2]
                        == a2.runtime.screens[cs as int].workspaces[w2]);
                    assert(a2.runtime.screens[cs as int].workspaces[w2]
                        == a1.runtime.screens[cs as int].workspaces[w2]);
                    assert(a1.runtime.screens[cs as int].workspaces[w2] == scr0.workspaces[w2]);
                    assert(app.runtime.screens[cs as int].workspaces[w2]
                        == a3.runtime.screens[cs as int].workspaces[w2]);
                }
                let wsn = scr0.workspaces[n as int];
                let popped = ws0.clients@[index as int];
                let client2 = Client { visible: !popped.visible, ..popped };
                let pushed = wsn.clients@.push(client2);
                lemma_arranged_seq_same_geometry(
                    cfg,
                    scr0,
                    a2.runtime.screens[cs as int],
                    wsn.master_capacity,
                    wsn.master_width,
                    pushed,
                );
                let arr = arranged_seq(cfg, scr0, ws0.master_capacity, ws0.master_width, removed);
                assert forall|p: int| 0 <= p < removed.len() implies client_at(
                    app.runtime,
                    cs as int,
                    cw as int,
                    p,
                ) == (Client { visible: true, ..arr[p] }) by {
                    assert(client_at(app.runtime, cs as int, cw as int, p) == Client {
                        visible: true,
                        ..arranged_seq(
                            cfg,
                            scr3,
                            ws0.master_capacity,
                            ws0.master_width,
                            removed,
                        )[p]
                    });
                }
                assert(final(out)@ =~= old(out)@ + shift_repair_cmds(removed, ncc)
                    + move_client_cmds(
                    cfg,
                    popped,
                    (n + old(app).runtime.current_screen * NUMBER_OF_DESKTOPS) as u64,
                ) + refresh_cmds(*old(app), ws0.master_capacity, ws0.master_width, removed));
            }
        } else {
            // Remap to a rotation of the selected client.
            pop_push_stack(app, true, out);
        }
    }
}

/// The driver work of switching the active screen to workspace `n`:
/// unfocus the outgoing client, republish the current desktop, publish
/// (or clear) the incoming selection, focus it, then show the incoming
/// and hide the outgoing workspace.
pub open spec fn switch_workspace_cmds(a: Application, n: int) -> Seq<DriverCommand> {
    let cs = a.runtime.current_screen as int;
    let pw = a.runtime.current_workspace as int;
    let scr0 = a.runtime.screens[cs];
    let wsn = scr0.workspaces[n];
    let unf = match current_client_id_spec(a.runtime) {
        Some(oldwin) => seq![
            DriverCommand::SetBorderColor { win: oldwin, color: a.config.normal_border_color },
            DriverCommand::ReleaseDragButtons { win: oldwin },
        ],
        None => Seq::empty(),
    };
    let act = match wsn.current_client {
        Some(i) => seq![
            DriverCommand::SetActiveWindow { win: wsn.clients[i as int].window_id },
        ],
        None => seq![DriverCommand::FocusRoot, DriverCommand::ClearActiveWindow],
    };
    let foc = match wsn.current_client {
        Some(i) => focus_seq_at(a.config, wsn.clients[i as int].window_id, cs, n),
        None => Seq::empty(),
    };
    unf + seq![
        DriverCommand::SetCurrentDesktop {
            desktop: (n + cs * NUMBER_OF_DESKTOPS) as u64,
        },
    ] + act + foc + show_ws_cmds(scr0, wsn.clients@, wsn.clients.len() as int) + hide_ws_cmds(
        a.config,
        scr0.workspaces[pw].clients@,
        scr0.workspaces[pw].clients.len() as int,
    )
}

/// What switching the active screen to workspace `n` leaves behind.
pub open spec fn switch_workspace_post(
    a1: Application,
    a2: Application,
    n: usize,
    o1: Seq<DriverCommand>,
    o2: Seq<DriverCommand>,
) -> bool {
    ({
            let cs = a1.runtime.current_screen as int;
            let pw = a1.runtime.current_workspace as int;
            let scr0 = a1.runtime.screens[cs];
            let wsn = scr0.workspaces[n as int];
            let wsp = scr0.workspaces[pw];
            if n as int == pw {
                a2 == a1 && o2 == o1 + suppress_cmds(
                    a1.config,
                )
            } else {
                switched_workspace(a1, a2, n as int) && o2 == o1
                    + switch_workspace_cmds(a1, n as int) + suppress_cmds(a1.config)
            }
        })
}

/// Switch the active screen to workspace `n`: unfocus the outgoing
/// client, move the global cursors to the workspace's remembered
/// selection, focus it, republish the current desktop, show the incoming
/// clients and hide the outgoing ones.
pub fn switch_workspace(app: &mut Application, n: usize, out: &mut Vec<DriverCommand>)
    requires
        wf(*old(app)),
        n < NUMBER_OF_DESKTOPS,
    ensures
        wf(*final(app)),
        switch_workspace_post(*old(app), *final(app), n, old(out)@, final(out)@),
{
    if n != app.runtime.current_workspace {
        switch_workspace_inner(app, n, out);
    } else {
        suppress_notify(app, out);
        assert(final(out)@ =~= old(out)@ + suppress_cmds(old(app).config));
    }
}

/// The state a workspace switch leaves behind: cursors moved onto
/// workspace `n` and its remembered selection, the incoming clients shown
/// (the selected one with its urgency cleared), the outgoing clients
/// hidden, everything else untouched.
pub open spec fn switched_workspace(a1: Application, a2: Application, n: int) -> bool {
    let cs = a1.runtime.current_screen as int;
    let pw = a1.runtime.current_workspace as int;
    let scr0 = a1.runtime.screens[cs];
    let wsn = scr0.workspaces[n];
    let wsp = scr0.workspaces[pw];
    &&& a2.config == a1.config
    &&& a2.core == a1.core
    &&& a2.runtime.mouse_state == a1.runtime.mouse_state
    &&& a2.runtime.autostart_rules == a1.runtime.autostart_rules
    &&& a2.runtime.current_screen == a1.runtime.current_screen
    &&& a2.runtime.current_workspace == n
    &&& a2.runtime.current_client == wsn.current_client
    &&& a2.runtime.screens.len() == a1.runtime.screens.len()
    &&& forall|s2: int|
        0 <= s2 < a1.runtime.screens.len() && s2 != cs ==> a2.runtime.screens[s2]
            == a1.runtime.screens[s2]
    &&& a2.runtime.screens[cs] == (Screen {
        current_workspace: n as usize,
        workspaces: a2.runtime.screens[cs].workspaces,
        ..scr0
    })
    &&& a2.runtime.screens[cs].workspaces.len() == scr0.workspaces.len()
    &&& forall|w2: int|
        0 <= w2 < scr0.workspaces.len() && w2 != n && w2 != pw
            ==> a2.runtime.screens[cs].workspaces[w2] == scr0.workspaces[w2]
    &&& a2.runtime.screens[cs].workspaces[pw] == (Workspace {
        clients: a2.runtime.screens[cs].workspaces[pw].clients,
        ..wsp
    })
    &&& a2.runtime.screens[cs].workspaces[pw].clients.len() == wsp.clients.len()
    &&& forall|c2: int|
        0 <= c2 < wsp.clients.len() ==> client_at(a2.runtime, cs, pw, c2) == (Client {
            visible: false,
            ..#[trigger] wsp.clients[c2]
        })
    &&& a2.runtime.screens[cs].workspaces[n] == (Workspace {
        clients: a2.runtime.screens[cs].workspaces[n].clients,
        ..wsn
    })
    &&& a2.runtime.screens[cs].workspaces[n].clients.len() == wsn.clients.len()
    &&& forall|c2: int|
        0 <= c2 < wsn.clients.len() ==> client_at(a2.runtime, cs, n, c2) == (if wsn.current_client
            == Some(c2 as usize) {
            Client { visible: true, urgent: false, ..#[trigger] wsn.clients[c2] }
        } else {
            Client { visible: true, ..#[trigger] wsn.clients[c2] }
        })
}

/// The switching work itself, for a workspace other than the active one.
#[verifier::rlimit(100)]
#[verifier::spinoff_prover]
fn switch_workspace_inner(app: &mut Application, n: usize, out: &mut Vec<DriverCommand>)
    requires
        wf(*old(app)),
        n < NUMBER_OF_DESKTOPS,
        n != old(app).runtime.current_workspace,
    ensures
        wf(*final(app)),
        switched_workspace(*old(app), *final(app), n as int),
        final(out)@ == old(out)@ + switch_workspace_cmds(*old(app), n as int) + suppress_cmds(
            old(app).config,
        ),
{
    let cs = app.runtime.current_screen;
    proof {
        assert(screen_wf(app.runtime.screens[cs as int]));
        assert(workspace_wf(app.runtime.screens[cs as int].workspaces[n as int]));
        assert(workspace_wf(
            app.runtime.screens[cs as int].workspaces[app.runtime.current_workspace as int],
        ));
    }
    let pw = app.runtime.current_workspace;
    // Unfocus the outgoing client.
    let outgoing = crate::helper::get_current_client_id(app);
    if let Some(cwid) = outgoing {
        unfocus(app, cwid, out);
    }
    // Update the workspace cursors.
    app.runtime.current_workspace = n;
    let sref = &mut app.runtime.screens[cs];
    sref.current_workspace = n;
    out.push(DriverCommand::SetCurrentDesktop {
        desktop: (n as u64) + (cs as u64) * (NUMBER_OF_DESKTOPS as u64),
    });
    // Restore the incoming workspace's selection.
    app.runtime.current_client = app.runtime.screens[cs].workspaces[n].current_client;
    let ghost a1 = *app;
    proof {
        crate::model::lemma_ids_unique_pointwise(old(app).runtime, a1.runtime);
        assert(wf(a1));
    }
    crate::helper::update_active_window(app, out);
    if let Some(cwid) = crate::helper::get_current_client_id(app) {
        focus(app, cwid, out);
    }
    let ghost a2 = *app;
    proof {
        let wsn = old(app).runtime.screens[cs as int].workspaces[n as int];
        match wsn.current_client {
            Some(i) => {
                assert(client_at(a1.runtime, cs as int, n as int, i as int).window_id
                    == wsn.clients[i as int].window_id);
                assert(focused_at(a1, a2, cs as int, n as int, i as int));
                lemma_focus_cmds_present(
                    a1,
                    wsn.clients[i as int].window_id,
                    cs as int,
                    n as int,
                    i as int,
                );
            },
            None => {
                assert(a2 == a1);
            },
        }
        assert(wf(a2));
    }
    let ghost out2 = out@;
    show_workspace(app, cs, n, out);
    let ghost a3 = *app;
    let ghost out3 = out@;
    proof {
        let cfg = old(app).config;
        let scr0 = old(app).runtime.screens[cs as int];
        let wsn = scr0.workspaces[n as int];
        // The show pass emits the same work as over the untouched
        // clients: focusing only cleared an urgency flag.
        assert(a2.runtime.screens[cs as int].workspaces[n as int].clients@.len()
            == wsn.clients.len());
        assert forall|p: int| 0 <= p < wsn.clients.len() implies crate::helper::show_client_cmds(
            scr0,
            #[trigger] a2.runtime.screens[cs as int].workspaces[n as int].clients@[p],
        ) == crate::helper::show_client_cmds(scr0, wsn.clients[p]) by {
            assert(client_at(a2.runtime, cs as int, n as int, p) == client_at(
                a1.runtime,
                cs as int,
                n as int,
                p,
            ) || client_at(a2.runtime, cs as int, n as int, p) == Client {
                urgent: false,
                ..client_at(a1.runtime, cs as int, n as int, p)
            });
        }
        crate::helper::lemma_show_ws_cmds_congruent(
            scr0,
            wsn.clients@,
            a2.runtime.screens[cs as int].workspaces[n as int].clients@,
            wsn.clients.len() as int,
        );
        lemma_show_ws_cmds_same_geometry(
            scr0,
            a2.runtime.screens[cs as int],
            a2.runtime.screens[cs as int].workspaces[n as int].clients@,
            wsn.clients.len() as int,
        );
        assert(out3 =~= out2 + show_ws_cmds(scr0, wsn.clients@, wsn.clients.len() as int));
    }
    hide_workspace(app, cs, pw, out);
    proof {
        let cfg = old(app).config;
        let scr0 = old(app).runtime.screens[cs as int];
        let wsp = scr0.workspaces[pw as int];
        // The hide pass ran over the untouched outgoing clients.
        assert(a3.runtime.screens[cs as int].workspaces[pw as int].clients@
            == wsp.clients@);
        assert(out@ =~= out3 + hide_ws_cmds(cfg, wsp.clients@, wsp.clients.len() as int));
        assert(out@ =~= old(out)@ + switch_workspace_cmds(*old(app), n as int));
    }
    suppress_notify(app, out);
    proof {
        assert(final(out)@ =~= old(out)@ + switch_workspace_cmds(*old(app), n as int)
            + suppress_cmds(old(app).config));
    }
}

/// What focusing workspace `n` leaves behind: with `r` set, the
/// workspace switch on the active screen; otherwise the global desktop
/// index first focuses its screen and then switches that screen to the
/// workspace, through some intermediate state.
pub open spec fn focus_on_workspace_post(
    a1: Application,
    a2: Application,
    n: u64,
    r: bool,
    o1: Seq<DriverCommand>,
    o2: Seq<DriverCommand>,
) -> bool {
    if r {
        switch_workspace_post(a1, a2, n as usize, o1, o2)
    } else {
        exists|mid: Application, om: Seq<DriverCommand>|
            #[trigger] focus_screen_index_post(
                a1,
                mid,
                (n / (NUMBER_OF_DESKTOPS as u64)) as usize,
                o1,
                om,
            ) && switch_workspace_post(
                mid,
                a2,
                (n % (NUMBER_OF_DESKTOPS as u64)) as usize,
                om,
                o2,
            )
    }
}

/// Focus workspace `n`: with `r` set the index is relative to the active
/// screen; otherwise it is a global desktop index whose screen is
/// focused first.
pub fn focus_on_workspace(app: &mut Application, n: u64, r: bool, out: &mut Vec<DriverCommand>)
    requires
        wf(*old(app)),
        r ==> n < NUMBER_OF_DESKTOPS as u64,
        !r ==> n < (NUMBER_OF_DESKTOPS as u64) * old(app).runtime.screens.len(),
    ensures
        wf(*final(app)),
        focus_on_workspace_post(*old(app), *final(app), n, r, old(out)@, final(out)@),
{
    if !r {
        let target_screen = (n / (NUMBER_OF_DESKTOPS as u64)) as usize;
        focus_on_screen_index(app, target_screen, out);
        let ghost mid = *app;
        let ghost om = out@;
        let n2: u64 = n % (NUMBER_OF_DESKTOPS as u64);
        switch_workspace(app, n2 as usize, out);
        proof {
            assert(focus_screen_index_post(
                *old(app),
                mid,
                (n / (NUMBER_OF_DESKTOPS as u64)) as usize,
                old(out)@,
                om,
            ));
            assert(switch_workspace_post(
                mid,
                *final(app),
                (n % (NUMBER_OF_DESKTOPS as u64)) as usize,
                om,
                final(out)@,
            ));
        }
    } else {
        switch_workspace(app, n as usize, out);
    }
}

/// What focusing the adjacent screen in direction `d` leaves behind.
pub open spec fn focus_on_screen_post(
    a1: Application,
    a2: Application,
    d: ScreenSwitching,
    o1: Seq<DriverCommand>,
    o2: Seq<DriverCommand>,
) -> bool {
    ({
            let len = a1.runtime.screens.len() as int;
            let n = match d {
                ScreenSwitching::Next => (a1.runtime.current_screen + 1) % len,
                ScreenSwitching::Previous => (a1.runtime.current_screen + len - 1) % len,
            };
            let wsel = a1.runtime.screens[n].current_workspace as int;
            let saved = a1.runtime.screens[n].workspaces[wsel].current_client;
            &&& match saved {
                Some(i) => focused_at(a1, a2, n, wsel, i as int),
                None => a2 == (Application {
                    runtime: Runtime {
                        current_screen: n as usize,
                        current_workspace: wsel as usize,
                        current_client: None,
                        ..a1.runtime
                    },
                    ..a1
                }),
            }
            &&& o2 == o1 + focus_screen_cmds(a1, n)
        })
}

/// Focus the next or previous screen in the cycle.
pub fn focus_on_screen(app: &mut Application, d: ScreenSwitching, out: &mut Vec<DriverCommand>)
    requires
        wf(*old(app)),
    ensures
        wf(*final(app)),
        focus_on_screen_post(*old(app), *final(app), d, old(out)@, final(out)@),
{
    let mut cs = app.runtime.current_screen;
    cs = match d {
        ScreenSwitching::Next => (cs + 1) % app.runtime.screens.len(),
        ScreenSwitching::Previous => {
            (cs + app.runtime.screens.len() - 1) % app.runtime.screens.len()
        },
    };
    focus_on_screen_index(app, cs, out);
}

} // verus!
