//! The tiling arrangement engine: computes the rectangle of every tiled
//! client of a workspace from the screen geometry, the gap and border
//! configuration and the workspace's master settings.  The engine mutates
//! geometry only; a separate show pass applies it to the driver.

use vstd::prelude::*;

use crate::model::{
    client_wf, config_wf, screen_geometry_wf, screen_wf, wf, workspace_wf, Application, Client,
    Config, Screen, Workspace, MAX_CLIENTS,
};
use vstd::arithmetic::div_mod::{lemma_fundamental_div_mod, lemma_mod_bound};

verus! {

/// A client takes part in tiling unless it floats or is fullscreen.
pub open spec fn eligible(c: Client) -> bool {
    !c.floating && !c.fullscreen
}

/// Number of tiling-eligible clients among positions `[from, to)`.
pub open spec fn num_eligible(s: Seq<Client>, from: int, to: int) -> int
    decreases to - from,
{
    if from >= to {
        0
    } else {
        num_eligible(s, from, to - 1) + if eligible(s[to - 1]) {
            1int
        } else {
            0int
        }
    }
}

/// Counting splits over adjacent ranges.
pub proof fn lemma_num_eligible_split(s: Seq<Client>, a: int, b: int, c: int)
    requires
        0 <= a <= b <= c,
    ensures
        num_eligible(s, a, c) == num_eligible(s, a, b) + num_eligible(s, b, c),
    decreases c - b,
{
    if c > b {
        lemma_num_eligible_split(s, a, b, c - 1);
    }
}

/// A count over a range is between zero and the range's width.
pub proof fn lemma_num_eligible_bounds(s: Seq<Client>, a: int, b: int)
    requires
        a <= b,
    ensures
        0 <= num_eligible(s, a, b) <= b - a,
    decreases b - a,
{
    if b > a {
        lemma_num_eligible_bounds(s, a, b - 1);
    }
}

/// Counting depends only on the eligibility of the clients in the range.
pub proof fn lemma_num_eligible_congruent(s1: Seq<Client>, s2: Seq<Client>, a: int, b: int)
    requires
        a <= b,
        forall|p: int| a <= p < b ==> eligible(s1[p]) == eligible(s2[p]),
    ensures
        num_eligible(s1, a, b) == num_eligible(s2, a, b),
    decreases b - a,
{
    if b > a {
        lemma_num_eligible_congruent(s1, s2, a, b - 1);
    }
}

/// Tile index of the client at position `p`: clients are handed out in
/// reverse stacking order, so it counts the eligible clients above `p`.
pub open spec fn tile_index(s: Seq<Client>, p: int) -> int {
    num_eligible(s, p + 1, s.len() as int)
}

/// Clamp a computed dimension to at least one pixel.
pub open spec fn pos1(v: int) -> int {
    if v >= 1 {
        v
    } else {
        1
    }
}

/// The master capacity actually used: out-of-range values degenerate to a
/// single column holding all `n` tiled clients.
pub open spec fn effective_master(mc: i64, n: int) -> int {
    if 0 < mc < n {
        mc as int
    } else {
        n
    }
}

/// Height of the screen area left for clients once the bar insets are
/// reserved.
pub open spec fn usable_height(scr: Screen) -> int {
    scr.height - scr.bar_offsets.up - scr.bar_offsets.down
}

/// Width of the master column including borders: the configured fraction
/// of the gap-adjusted width, or the full gap-adjusted width when a single
/// column holds everything.
pub open spec fn master_px(scr: Screen, g: int, mc: i64, mwn: u32, n: int) -> int {
    if effective_master(mc, n) == n {
        pos1(scr.width - 2 * g)
    } else if scr.width - 3 * g >= 1 {
        pos1((scr.width - 3 * g) * mwn / 1000)
    } else {
        1
    }
}

/// Height share of one client in a column of `m`, including borders: the
/// gap-adjusted usable height divided evenly, at least one pixel.
pub open spec fn col_win_height(sh: int, g: int, m: int) -> int
    recommends
        m >= 1,
{
    let raw = sh - (m + 1) * g;
    if raw >= m {
        raw / m
    } else {
        1
    }
}

/// The rectangle (x, y, w, h) of the tiled client with tile index `i`,
/// for `n >= 2` eligible clients.  The stored width and height exclude
/// the border drawn on every side.
pub open spec fn tiled_rect(scr: Screen, g: int, b: int, mc: i64, mwn: u32, n: int, i: int) -> (
    int,
    int,
    int,
    int,
) {
    let sh = usable_height(scr);
    let m = effective_master(mc, n);
    let mw = master_px(scr, g, mc, mwn, n);
    if i < m {
        let wh = col_win_height(sh, g, m);
        let x = scr.x + g;
        let y = scr.y + scr.bar_offsets.up + g + (wh + g) * i;
        let w = pos1(mw - 2 * b);
        let h = if i == m - 1 {
            pos1(sh - 2 * g - (wh + g) * i - 2 * b)
        } else {
            pos1(wh - 2 * b)
        };
        (x, y, w, h)
    } else {
        let k = n - m;
        let wh = col_win_height(sh, g, k);
        let j = i - m;
        let x = scr.x + mw + 2 * g;
        let w = pos1((scr.width - 3 * g) - mw - 2 * b);
        let y = scr.y + scr.bar_offsets.up + g + (wh + g) * j;
        let h = if i == n - 1 {
            pos1(sh - 2 * g - (wh + g) * j - 2 * b)
        } else {
            pos1(wh - 2 * b)
        };
        (x, y, w, h)
    }
}

/// What arrangement makes of one client: floating and fullscreen clients
/// are untouched; a sole tiled client fills the usable rectangle without
/// a border; otherwise the client gets its column rectangle and the
/// configured border.
pub open spec fn arranged_client(
    cfg: Config,
    scr: Screen,
    mc: i64,
    mwn: u32,
    n: int,
    c: Client,
    i: int,
) -> Client {
    if !eligible(c) {
        c
    } else if n == 1 {
        Client {
            x: scr.x as i32,
            y: (scr.y + scr.bar_offsets.up) as i32,
            w: scr.width as u32,
            h: usable_height(scr) as u32,
            border: 0,
            ..c
        }
    } else {
        let r = tiled_rect(scr, cfg.gap_width as int, cfg.border_size as int, mc, mwn, n, i);
        Client {
            x: r.0 as i32,
            y: r.1 as i32,
            w: r.2 as u32,
            h: r.3 as u32,
            border: cfg.border_size,
            ..c
        }
    }
}

/// `w2` is `w1` with every eligible client's geometry recomputed and
/// everything else untouched.
pub open spec fn ws_arranged_seq(
    cfg: Config,
    scr: Screen,
    mc: i64,
    mwn: u32,
    s1: Seq<Client>,
    s2: Seq<Client>,
) -> bool {
    let n = num_eligible(s1, 0, s1.len() as int);
    &&& s2.len() == s1.len()
    &&& forall|p: int|
        0 <= p < s1.len() ==> s2[p] == arranged_client(
            cfg,
            scr,
            mc,
            mwn,
            n,
            #[trigger] s1[p],
            tile_index(s1, p),
        )
}

/// The arranged form of a client sequence, as a sequence: position `p`
/// keeps its client with the geometry tiling assigns it.
pub open spec fn arranged_seq(cfg: Config, scr: Screen, mc: i64, mwn: u32, s: Seq<Client>) -> Seq<
    Client,
> {
    let n = num_eligible(s, 0, s.len() as int);
    Seq::new(s.len(), |p: int| arranged_client(cfg, scr, mc, mwn, n, s[p], tile_index(s, p)))
}

/// Arranged sequences depend only on the screen's geometry.
pub proof fn lemma_arranged_seq_same_geometry(
    cfg: Config,
    s1: Screen,
    s2: Screen,
    mc: i64,
    mwn: u32,
    cs: Seq<Client>,
)
    requires
        s2.x == s1.x,
        s2.y == s1.y,
        s2.width == s1.width,
        s2.height == s1.height,
        s2.bar_offsets == s1.bar_offsets,
    ensures
        arranged_seq(cfg, s2, mc, mwn, cs) == arranged_seq(cfg, s1, mc, mwn, cs),
{
    let n = num_eligible(cs, 0, cs.len() as int);
    assert forall|p: int| 0 <= p < cs.len() implies arranged_client(
        cfg,
        s2,
        mc,
        mwn,
        n,
        cs[p],
        tile_index(cs, p),
    ) == arranged_client(cfg, s1, mc, mwn, n, #[trigger] cs[p], tile_index(cs, p)) by {}
    assert(arranged_seq(cfg, s2, mc, mwn, cs) =~= arranged_seq(cfg, s1, mc, mwn, cs));
}

/// A workspace's clients are arranged exactly when they equal the
/// arranged form of their old value.
pub proof fn lemma_ws_arranged_seq_is_arranged_seq(
    cfg: Config,
    scr: Screen,
    mc: i64,
    mwn: u32,
    s1: Seq<Client>,
    s2: Seq<Client>,
)
    requires
        ws_arranged_seq(cfg, scr, mc, mwn, s1, s2),
    ensures
        s2 == arranged_seq(cfg, scr, mc, mwn, s1),
{
    assert(s2 =~= arranged_seq(cfg, scr, mc, mwn, s1));
}

pub open spec fn ws_arranged(cfg: Config, scr: Screen, w1: Workspace, w2: Workspace) -> bool {
    &&& w2.number == w1.number
    &&& w2.current_client == w1.current_client
    &&& w2.arrange == w1.arrange
    &&& w2.master_capacity == w1.master_capacity
    &&& w2.master_width == w1.master_width
    &&& ws_arranged_seq(
        cfg,
        scr,
        w1.master_capacity,
        w1.master_width,
        w1.clients@,
        w2.clients@,
    )
}

/// Two screens that agree on everything but the workspace at `w`.
pub open spec fn screen_same_except_ws(s1: Screen, s2: Screen, w: int) -> bool {
    &&& s2.number == s1.number
    &&& s2.x == s1.x
    &&& s2.y == s1.y
    &&& s2.width == s1.width
    &&& s2.height == s1.height
    &&& s2.current_workspace == s1.current_workspace
    &&& s2.bar_offsets == s1.bar_offsets
    &&& s2.workspaces.len() == s1.workspaces.len()
    &&& forall|w2: int|
        0 <= w2 < s1.workspaces.len() && w2 != w ==> s2.workspaces[w2] == s1.workspaces[w2]
}

/// Two applications that agree on everything but the workspace at
/// `(s, w)`.
pub open spec fn app_same_except_ws(a1: Application, a2: Application, s: int, w: int) -> bool {
    &&& a2.config == a1.config
    &&& a2.core == a1.core
    &&& a2.runtime.current_screen == a1.runtime.current_screen
    &&& a2.runtime.current_workspace == a1.runtime.current_workspace
    &&& a2.runtime.current_client == a1.runtime.current_client
    &&& a2.runtime.mouse_state == a1.runtime.mouse_state
    &&& a2.runtime.autostart_rules == a1.runtime.autostart_rules
    &&& a2.runtime.screens.len() == a1.runtime.screens.len()
    &&& forall|s2: int|
        0 <= s2 < a1.runtime.screens.len() && s2 != s ==> a2.runtime.screens[s2]
            == a1.runtime.screens[s2]
    &&& 0 <= s < a1.runtime.screens.len() ==> screen_same_except_ws(
        a1.runtime.screens[s],
        a2.runtime.screens[s],
        w,
    )
}

/// Recompute the geometry of every tiled client of one workspace.
pub fn arrange_workspace(app: &mut Application, screen: usize, workspace: usize)
    requires
        wf(*old(app)),
        screen < old(app).runtime.screens.len(),
        workspace < old(app).runtime.screens[screen as int].workspaces.len(),
    ensures
        wf(*final(app)),
        app_same_except_ws(*old(app), *final(app), screen as int, workspace as int),
        ws_arranged(
            old(app).config,
            old(app).runtime.screens[screen as int],
            old(app).runtime.screens[screen as int].workspaces[workspace as int],
            final(app).runtime.screens[screen as int].workspaces[workspace as int],
        ),
{
    let ghost scr0 = app.runtime.screens[screen as int];
    let ghost ws0 = app.runtime.screens[screen as int].workspaces[workspace as int];
    let ghost cfg0 = app.config;
    proof {
        assert(screen_wf(old(app).runtime.screens[screen as int]));
        assert(workspace_wf(ws0));
    }

    let g: i64 = app.config.gap_width as i64;
    let b: i64 = app.config.border_size as i64;
    let scr_x: i64 = app.runtime.screens[screen].x;
    let scr_y: i64 = app.runtime.screens[screen].y;
    let scr_w: i64 = app.runtime.screens[screen].width;
    let scr_h: i64 = app.runtime.screens[screen].height;
    let bar_up: i64 = app.runtime.screens[screen].bar_offsets.up as i64;
    let bar_down: i64 = app.runtime.screens[screen].bar_offsets.down as i64;
    let sh: i64 = scr_h - (bar_up + bar_down);

    let len = app.runtime.screens[screen].workspaces[workspace].clients.len();

    // Count the clients tiling must place.
    let mut n: usize = 0;
    let mut p: usize = 0;
    while p < len
        invariant
            *app == *old(app),
            wf(*app),
            screen < app.runtime.screens.len(),
            workspace < app.runtime.screens[screen as int].workspaces.len(),
            ws0 == app.runtime.screens[screen as int].workspaces[workspace as int],
            len == ws0.clients.len(),
            p <= len,
            n == num_eligible(ws0.clients@, 0, p as int),
        decreases len - p,
    {
        proof {
            lemma_num_eligible_bounds(ws0.clients@, 0, p as int);
        }
        let c = &app.runtime.screens[screen].workspaces[workspace].clients[p];
        if !c.floating && !c.fullscreen {
            n = n + 1;
        }
        p = p + 1;
    }
    proof {
        lemma_num_eligible_bounds(ws0.clients@, 0, len as int);
    }

    let mc: i64 = app.runtime.screens[screen].workspaces[workspace].master_capacity;
    let mwn: i64 = app.runtime.screens[screen].workspaces[workspace].master_width as i64;
    proof {
        assert(workspace_wf(ws0));
        assert(screen_wf(old(app).runtime.screens[screen as int]));
        assert(0 < mwn < 1000);
        assert(0 <= n <= ws0.clients.len());
    }

    // Effective master capacity: out of range degenerates to one column.
    let m: i64 = if 0 < mc && mc < n as i64 {
        mc
    } else {
        n as i64
    };
    assert(m == effective_master(ws0.master_capacity, n as int));

    // Column widths including borders.
    let mw: i64 = if m == n as i64 {
        if scr_w - 2 * g >= 1 {
            scr_w - 2 * g
        } else {
            1
        }
    } else if scr_w - 3 * g >= 1 {
        assert((scr_w - 3 * g) * mwn >= 0 && (scr_w - 3 * g) * mwn <= 65535 * 999) by (
        nonlinear_arith)
            requires
                1 <= scr_w - 3 * g <= 65535,
                0 < mwn < 1000,
        ;
        let t: i64 = (scr_w - 3 * g) * mwn / 1000;
        if t >= 1 {
            t
        } else {
            1
        }
    } else {
        1
    };
    assert(mw == master_px(scr0, g as int, ws0.master_capacity, ws0.master_width, n as int));
    assert(1 <= mw <= 65535) by {
        if m != n as i64 && scr_w - 3 * g >= 1 {
            assert((scr_w - 3 * g) * mwn / 1000 <= scr_w - 3 * g) by (nonlinear_arith)
                requires
                    1 <= scr_w - 3 * g <= 65535,
                    0 < mwn < 1000,
            ;
            assert((scr_w - 3 * g) * mwn / 1000 >= 0) by (nonlinear_arith)
                requires
                    1 <= scr_w - 3 * g,
                    0 < mwn,
            ;
        }
    }

    // Walk the clients in reverse stacking order and assign geometry.
    let mut p: usize = len;
    let mut cnt: usize = 0;
    while p > 0
        invariant
            wf(*old(app)),
            screen < app.runtime.screens.len(),
            workspace < app.runtime.screens[screen as int].workspaces.len(),
            scr0 == old(app).runtime.screens[screen as int],
            ws0 == old(app).runtime.screens[screen as int].workspaces[workspace as int],
            cfg0 == old(app).config,
            config_wf(cfg0),
            screen_geometry_wf(scr0),
            workspace_wf(ws0),
            g == cfg0.gap_width as int,
            b == cfg0.border_size as int,
            scr_x == scr0.x,
            scr_y == scr0.y,
            scr_w == scr0.width,
            scr_h == scr0.height,
            bar_up == scr0.bar_offsets.up,
            bar_down == scr0.bar_offsets.down,
            sh == usable_height(scr0),
            len == ws0.clients.len(),
            n == num_eligible(ws0.clients@, 0, len as int),
            m == effective_master(ws0.master_capacity, n as int),
            mw == master_px(scr0, g as int, ws0.master_capacity, ws0.master_width, n as int),
            0 <= g <= 256,
            0 <= b <= 256,
            1 <= sh <= 65535,
            -32767 <= scr_x <= 32767,
            -32767 <= scr_y <= 32767,
            1 <= scr_w <= 65535,
            0 <= bar_up <= 65535,
            len <= 4096,
            0 <= n <= len,
            0 <= m <= n as i64,
            1 <= mw <= 65535,
            p <= len,
            cnt == num_eligible(ws0.clients@, p as int, len as int),
            app_same_except_ws(*old(app), *app, screen as int, workspace as int),
            ({
                let cur = app.runtime.screens[screen as int].workspaces[workspace as int];
                &&& cur.number == ws0.number
                &&& cur.current_client == ws0.current_client
                &&& cur.arrange == ws0.arrange
                &&& cur.master_capacity == ws0.master_capacity
                &&& cur.master_width == ws0.master_width
                &&& cur.clients.len() == len
                &&& forall|q: int| 0 <= q < p ==> cur.clients[q] == ws0.clients[q]
                &&& forall|q: int|
                    p <= q < len ==> cur.clients[q] == arranged_client(
                        cfg0,
                        scr0,
                        ws0.master_capacity,
                        ws0.master_width,
                        n as int,
                        #[trigger] ws0.clients[q],
                        tile_index(ws0.clients@, q),
                    )
                &&& forall|q: int| 0 <= q < len ==> client_wf(#[trigger] cur.clients[q])
            }),
        decreases p,
    {
        p = p - 1;
        proof {
            lemma_num_eligible_split(ws0.clients@, p as int, p as int + 1, len as int);
            lemma_num_eligible_bounds(ws0.clients@, p as int + 1, len as int);
            lemma_num_eligible_bounds(ws0.clients@, 0, p as int);
            lemma_num_eligible_split(ws0.clients@, 0, p as int, len as int);
            lemma_num_eligible_bounds(ws0.clients@, 0, len as int);
            assert(num_eligible(ws0.clients@, p as int, p as int) == 0);
            assert(num_eligible(ws0.clients@, p as int, p as int + 1) == if eligible(
                ws0.clients[p as int],
            ) {
                1int
            } else {
                0int
            });
        }
        let floating = app.runtime.screens[screen].workspaces[workspace].clients[p].floating;
        let fullscreen = app.runtime.screens[screen].workspaces[workspace].clients[p].fullscreen;
        assert(app.runtime.screens[screen as int].workspaces[workspace as int].clients[p as int]
            == ws0.clients[p as int]);
        if !floating && !fullscreen {
            assert(eligible(ws0.clients[p as int]));
            assert(num_eligible(ws0.clients@, p as int, len as int) == 1 + num_eligible(
                ws0.clients@,
                p as int + 1,
                len as int,
            ));
            let i: i64 = cnt as i64;
            assert(i == tile_index(ws0.clients@, p as int));
            assert(0 <= i < n as i64);
            let nx: i64;
            let ny: i64;
            let nw: i64;
            let nh: i64;
            let nb: u32;
            if n == 1 {
                nx = scr_x;
                ny = scr_y + bar_up;
                nw = scr_w;
                nh = sh;
                nb = 0;
            } else {
                nb = app.config.border_size;
                if i < m {
                    // Master column.
                    assert(0 <= (m + 1) * g <= 4097 * 256) by (nonlinear_arith)
                        requires
                            0 <= g <= 256,
                            0 <= m <= 4096,
                    ;
                    let raw: i64 = sh - (m + 1) * g;
                    let wh: i64 = if raw >= m {
                        raw / m
                    } else {
                        1
                    };
                    assert(wh == col_win_height(sh as int, g as int, m as int));
                    assert(1 <= wh <= sh) by {
                        if raw >= m {
                            assert(raw / m >= 1 && raw / m <= raw) by (nonlinear_arith)
                                requires
                                    m >= 1,
                                    raw >= m,
                            ;
                        }
                    }
                    assert(0 <= (wh + g) * i <= (wh + g) * (m - 1)) by (nonlinear_arith)
                        requires
                            0 <= i <= m - 1,
                            wh + g >= 0,
                    ;
                    assert((wh + g) * (m - 1) < 66000 * 4096) by (nonlinear_arith)
                        requires
                            0 <= wh + g < 66000,
                            0 <= m - 1 < 4096,
                    ;
                    nx = scr_x + g;
                    ny = scr_y + bar_up + g + (wh + g) * i;
                    nw = if mw - 2 * b >= 1 {
                        mw - 2 * b
                    } else {
                        1
                    };
                    nh = if i == m - 1 {
                        let t: i64 = sh - 2 * g - (wh + g) * i - 2 * b;
                        if t >= 1 {
                            t
                        } else {
                            1
                        }
                    } else {
                        if wh - 2 * b >= 1 {
                            wh - 2 * b
                        } else {
                            1
                        }
                    };
                } else {
                    // Stack column.
                    let k: i64 = n as i64 - m;
                    let j: i64 = i - m;
                    assert(0 <= (k + 1) * g <= 4097 * 256) by (nonlinear_arith)
                        requires
                            0 <= g <= 256,
                            0 <= k <= 4096,
                    ;
                    let raw: i64 = sh - (k + 1) * g;
                    let wh: i64 = if raw >= k {
                        raw / k
                    } else {
                        1
                    };
                    assert(wh == col_win_height(sh as int, g as int, k as int));
                    assert(1 <= wh <= sh) by {
                        if raw >= k {
                            assert(raw / k >= 1 && raw / k <= raw) by (nonlinear_arith)
                                requires
                                    k >= 1,
                                    raw >= k,
                            ;
                        }
                    }
                    assert(0 <= (wh + g) * j <= (wh + g) * (k - 1)) by (nonlinear_arith)
                        requires
                            0 <= j <= k - 1,
                            wh + g >= 0,
                    ;
                    assert((wh + g) * (k - 1) < 66000 * 4096) by (nonlinear_arith)
                        requires
                            0 <= wh + g < 66000,
                            0 <= k - 1 < 4096,
                    ;
                    nx = scr_x + mw + 2 * g;
                    ny = scr_y + bar_up + g + (wh + g) * j;
                    nw = if (scr_w - 3 * g) - mw - 2 * b >= 1 {
                        (scr_w - 3 * g) - mw - 2 * b
                    } else {
                        1
                    };
                    nh = if i == n as i64 - 1 {
                        let t: i64 = sh - 2 * g - (wh + g) * j - 2 * b;
                        if t >= 1 {
                            t
                        } else {
                            1
                        }
                    } else {
                        if wh - 2 * b >= 1 {
                            wh - 2 * b
                        } else {
                            1
                        }
                    };
                }
            }
            assert(-0x2000_0000 <= nx <= 0x2000_0000);
            assert(-0x2000_0000 <= ny <= 0x2000_0000);
            assert(1 <= nw <= 65535);
            assert(1 <= nh <= 65535);
            assert(nb <= 256);
            let cref = &mut app.runtime.screens[screen].workspaces[workspace].clients[p];
            cref.x = nx as i32;
            cref.y = ny as i32;
            cref.w = nw as u32;
            cref.h = nh as u32;
            cref.border = nb;
            assert(app.runtime.screens[screen as int].workspaces[workspace as int].clients[p as int]
                == arranged_client(
                cfg0,
                scr0,
                ws0.master_capacity,
                ws0.master_width,
                n as int,
                ws0.clients[p as int],
                tile_index(ws0.clients@, p as int),
            ));
            cnt = cnt + 1;
        }
    }
    proof {
        let a1 = *old(app);
        let a2 = *app;
        assert forall|s1: int, w1: int, c1: int, s2: int, w2: int, c2: int|
            crate::model::pos_ok(a2.runtime, s1, w1, c1) && crate::model::pos_ok(a2.runtime, s2, w2, c2)
                && #[trigger] crate::model::client_at(a2.runtime, s1, w1, c1).window_id
                == #[trigger] crate::model::client_at(a2.runtime, s2, w2, c2).window_id implies s1
            == s2 && w1 == w2 && c1 == c2 by {
            assert(crate::model::client_at(a2.runtime, s1, w1, c1).window_id
                == crate::model::client_at(a1.runtime, s1, w1, c1).window_id);
            assert(crate::model::client_at(a2.runtime, s2, w2, c2).window_id
                == crate::model::client_at(a1.runtime, s2, w2, c2).window_id);
        }
    }
}

/// Two applications that agree on the configuration, core, cursors and
/// screen count.
pub open spec fn runtime_scalars_same(a1: Application, a2: Application) -> bool {
    &&& a2.config == a1.config
    &&& a2.core == a1.core
    &&& a2.runtime.current_screen == a1.runtime.current_screen
    &&& a2.runtime.current_workspace == a1.runtime.current_workspace
    &&& a2.runtime.current_client == a1.runtime.current_client
    &&& a2.runtime.mouse_state == a1.runtime.mouse_state
    &&& a2.runtime.autostart_rules == a1.runtime.autostart_rules
    &&& a2.runtime.screens.len() == a1.runtime.screens.len()
}

/// An arranged workspace is arranged with respect to any screen of the
/// same geometry.
pub proof fn lemma_ws_arranged_same_geometry(
    cfg: Config,
    s1: Screen,
    s2: Screen,
    w1: Workspace,
    w2: Workspace,
)
    requires
        ws_arranged(cfg, s1, w1, w2),
        s2.x == s1.x,
        s2.y == s1.y,
        s2.width == s1.width,
        s2.height == s1.height,
        s2.bar_offsets == s1.bar_offsets,
    ensures
        ws_arranged(cfg, s2, w1, w2),
{
    let n = num_eligible(w1.clients@, 0, w1.clients.len() as int);
    assert forall|p: int| 0 <= p < w1.clients.len() implies w2.clients@[p] == arranged_client(
        cfg,
        s2,
        w1.master_capacity,
        w1.master_width,
        n,
        #[trigger] w1.clients@[p],
        tile_index(w1.clients@, p),
    ) by {
        assert(w2.clients@[p] == arranged_client(
            cfg,
            s1,
            w1.master_capacity,
            w1.master_width,
            n,
            w1.clients@[p],
            tile_index(w1.clients@, p),
        ));
    }
}

/// The visible workspace of `s2` is `s1`'s visible workspace arranged;
/// everything else on the screen is untouched.
pub open spec fn screen_visible_arranged(cfg: Config, s1: Screen, s2: Screen) -> bool {
    &&& screen_same_except_ws(s1, s2, s1.current_workspace as int)
    &&& ws_arranged(
        cfg,
        s1,
        s1.workspaces[s1.current_workspace as int],
        s2.workspaces[s1.current_workspace as int],
    )
}

/// Recompute the geometry of the visible workspace of every screen.
pub fn arrange_visible(app: &mut Application)
    requires
        wf(*old(app)),
    ensures
        wf(*final(app)),
        runtime_scalars_same(*old(app), *final(app)),
        forall|s: int|
            0 <= s < old(app).runtime.screens.len() ==> screen_visible_arranged(
                old(app).config,
                #[trigger] old(app).runtime.screens[s],
                final(app).runtime.screens[s],
            ),
{
    let screens_amount = app.runtime.screens.len();
    let mut index: usize = 0;
    while index < screens_amount
        invariant
            wf(*app),
            screens_amount == app.runtime.screens.len(),
            index <= screens_amount,
            runtime_scalars_same(*old(app), *app),
            forall|s: int|
                0 <= s < index ==> screen_visible_arranged(
                    old(app).config,
                    #[trigger] old(app).runtime.screens[s],
                    app.runtime.screens[s],
                ),
            forall|s: int|
                index <= s < screens_amount ==> app.runtime.screens[s] == old(
                    app,
                ).runtime.screens[s],
        decreases screens_amount - index,
    {
        let ghost mid = *app;
        let current_workspace = app.runtime.screens[index].current_workspace;
        arrange_workspace(app, index, current_workspace);
        proof {
            assert(mid.runtime.screens[index as int] == old(app).runtime.screens[index as int]);
            assert(screen_visible_arranged(
                old(app).config,
                old(app).runtime.screens[index as int],
                app.runtime.screens[index as int],
            ));
        }
        index = index + 1;
    }
}

/// Every workspace of `s2` is the matching workspace of `s1` arranged.
pub open spec fn screen_all_arranged(cfg: Config, s1: Screen, s2: Screen) -> bool {
    &&& s2.number == s1.number
    &&& s2.x == s1.x
    &&& s2.y == s1.y
    &&& s2.width == s1.width
    &&& s2.height == s1.height
    &&& s2.current_workspace == s1.current_workspace
    &&& s2.bar_offsets == s1.bar_offsets
    &&& s2.workspaces.len() == s1.workspaces.len()
    &&& forall|w: int|
        0 <= w < s1.workspaces.len() ==> ws_arranged(
            cfg,
            s1,
            #[trigger] s1.workspaces[w],
            s2.workspaces[w],
        )
}

/// Recompute the geometry of every workspace of every screen.
pub fn arrange_all(app: &mut Application)
    requires
        wf(*old(app)),
    ensures
        wf(*final(app)),
        runtime_scalars_same(*old(app), *final(app)),
        forall|s: int|
            0 <= s < old(app).runtime.screens.len() ==> screen_all_arranged(
                old(app).config,
                #[trigger] old(app).runtime.screens[s],
                final(app).runtime.screens[s],
            ),
{
    let screens_amount = app.runtime.screens.len();
    let mut screen: usize = 0;
    while screen < screens_amount
        invariant
            wf(*app),
            screens_amount == app.runtime.screens.len(),
            screen <= screens_amount,
            runtime_scalars_same(*old(app), *app),
            forall|s: int|
                0 <= s < screen ==> screen_all_arranged(
                    old(app).config,
                    #[trigger] old(app).runtime.screens[s],
                    app.runtime.screens[s],
                ),
            forall|s: int|
                screen <= s < screens_amount ==> app.runtime.screens[s] == old(
                    app,
                ).runtime.screens[s],
        decreases screens_amount - screen,
    {
        let workspaces_amount = app.runtime.screens[screen].workspaces.len();
        let mut workspace: usize = 0;
        while workspace < workspaces_amount
            invariant
                wf(*app),
                screens_amount == app.runtime.screens.len(),
                screen < screens_amount,
                workspaces_amount == app.runtime.screens[screen as int].workspaces.len(),
                workspace <= workspaces_amount,
                runtime_scalars_same(*old(app), *app),
                forall|s: int|
                    0 <= s < screen ==> screen_all_arranged(
                        old(app).config,
                        #[trigger] old(app).runtime.screens[s],
                        app.runtime.screens[s],
                    ),
                forall|s: int|
                    screen < s < screens_amount ==> app.runtime.screens[s] == old(
                        app,
                    ).runtime.screens[s],
                ({
                    let sold = old(app).runtime.screens[screen as int];
                    let scur = app.runtime.screens[screen as int];
                    &&& scur.number == sold.number
                    &&& scur.x == sold.x
                    &&& scur.y == sold.y
                    &&& scur.width == sold.width
                    &&& scur.height == sold.height
                    &&& scur.current_workspace == sold.current_workspace
                    &&& scur.bar_offsets == sold.bar_offsets
                    &&& scur.workspaces.len() == sold.workspaces.len()
                    &&& forall|w: int|
                        0 <= w < workspace ==> ws_arranged(
                            old(app).config,
                            sold,
                            #[trigger] sold.workspaces[w],
                            scur.workspaces[w],
                        )
                    &&& forall|w: int|
                        workspace <= w < workspaces_amount ==> scur.workspaces[w]
                            == sold.workspaces[w]
                }),
            decreases workspaces_amount - workspace,
        {
            let ghost mid = *app;
            arrange_workspace(app, screen, workspace);
            proof {
                let sold = old(app).runtime.screens[screen as int];
                let smid = mid.runtime.screens[screen as int];
                let scur = app.runtime.screens[screen as int];
                assert(smid.workspaces[workspace as int] == sold.workspaces[workspace as int]);
                assert(ws_arranged(
                    old(app).config,
                    smid,
                    sold.workspaces[workspace as int],
                    scur.workspaces[workspace as int],
                ));
                lemma_ws_arranged_same_geometry(
                    old(app).config,
                    smid,
                    sold,
                    sold.workspaces[workspace as int],
                    scur.workspaces[workspace as int],
                );
            }
            workspace = workspace + 1;
        }
        screen = screen + 1;
    }
}

/// The layout fits: columns and height shares are large enough that no
/// computed dimension needs clamping.
pub open spec fn arrangement_fits(cfg: Config, scr: Screen, mc: i64, mwn: u32, n: int) -> bool {
    let g = cfg.gap_width as int;
    let b = cfg.border_size as int;
    let m = effective_master(mc, n);
    let sh = usable_height(scr);
    &&& master_px(scr, g, mc, mwn, n) - 2 * b >= 1
    &&& (m == n ==> scr.width - 2 * g >= 1)
    &&& (m < n ==> scr.width - 3 * g >= 1 && (scr.width - 3 * g) - master_px(scr, g, mc, mwn, n)
        - 2 * b >= 1)
    &&& sh - (m + 1) * g >= m * (2 * b + 1)
    &&& (m < n ==> sh - (n - m + 1) * g >= (n - m) * (2 * b + 1))
}

/// The area law: with two or more tiled clients the computed rectangles,
/// together with their borders and the configured gaps, tile the usable
/// screen rectangle exactly.  Each column starts one gap below the top
/// inset, consecutive rectangles touch up to one gap, and the last
/// rectangle of each column absorbs the division remainder so the column
/// ends one gap above the bottom inset.  Horizontally the master and
/// stack columns share the width up to the three gaps between the edges
/// and the columns.
pub proof fn lemma_tiled_area_law(cfg: Config, scr: Screen, mc: i64, mwn: u32, n: int)
    requires
        config_wf(cfg),
        screen_geometry_wf(scr),
        2 <= n <= MAX_CLIENTS,
        arrangement_fits(cfg, scr, mc, mwn, n),
    ensures
        ({
            let g = cfg.gap_width as int;
            let b = cfg.border_size as int;
            let m = effective_master(mc, n);
            let sh = usable_height(scr);
            let mw = master_px(scr, g, mc, mwn, n);
            let top = scr.y + scr.bar_offsets.up;
            &&& forall|i: int|
                0 <= i < m ==> (#[trigger] tiled_rect(scr, g, b, mc, mwn, n, i)).0 == scr.x + g
                    && tiled_rect(scr, g, b, mc, mwn, n, i).2 == mw - 2 * b
            &&& tiled_rect(scr, g, b, mc, mwn, n, 0).1 == top + g
            &&& forall|i: int|
                0 <= i < m - 1 ==> (#[trigger] tiled_rect(scr, g, b, mc, mwn, n, i + 1)).1
                    == tiled_rect(scr, g, b, mc, mwn, n, i).1 + tiled_rect(scr, g, b, mc, mwn, n, i).3 + 2
                    * b + g
            &&& tiled_rect(scr, g, b, mc, mwn, n, m - 1).1 + tiled_rect(scr, g, b, mc, mwn, n, m - 1).3 + 2
                * b + g == top + sh
            &&& (m == n ==> g + (mw - 2 * b) + 2 * b + g == scr.width)
            &&& (m < n ==> {
                &&& forall|i: int|
                    m <= i < n ==> (#[trigger] tiled_rect(scr, g, b, mc, mwn, n, i)).0 == scr.x + mw + 2
                        * g && tiled_rect(scr, g, b, mc, mwn, n, i).2 == (scr.width - 3 * g) - mw - 2
                        * b
                &&& g + mw + g + ((scr.width - 3 * g) - mw - 2 * b) + 2 * b + g == scr.width
                &&& tiled_rect(scr, g, b, mc, mwn, n, m).1 == top + g
                &&& forall|i: int|
                    m <= i < n - 1 ==> (#[trigger] tiled_rect(scr, g, b, mc, mwn, n, i + 1)).1
                        == tiled_rect(scr, g, b, mc, mwn, n, i).1 + tiled_rect(scr, g, b, mc, mwn, n, i).3
                        + 2 * b + g
                &&& tiled_rect(scr, g, b, mc, mwn, n, n - 1).1 + tiled_rect(scr, g, b, mc, mwn, n, n - 1).3
                    + 2 * b + g == top + sh
            })
            &&& forall|i: int|
                0 <= i < n ==> (#[trigger] tiled_rect(scr, g, b, mc, mwn, n, i)).2 >= 1 && tiled_rect(
                    scr,
                    g,
                    b,
                    mc,
                    mwn,
                    n,
                    i,
                ).3 >= 1
        }),
{
    let g = cfg.gap_width as int;
    let b = cfg.border_size as int;
    let m = effective_master(mc, n);
    let sh = usable_height(scr);
    let mw = master_px(scr, g, mc, mwn, n);
    let top = scr.y + scr.bar_offsets.up;
    assert(1 <= m <= n);

    // Master column height share.
    let raw = sh - (m + 1) * g;
    let wh = col_win_height(sh, g, m);
    assert(m * (2 * b + 1) >= m) by (nonlinear_arith)
        requires
            m >= 1,
            b >= 0,
    ;
    assert(raw >= m);
    assert(wh == raw / m);
    lemma_fundamental_div_mod(raw, m);
    lemma_mod_bound(raw, m);
    assert(wh >= 2 * b + 1) by (nonlinear_arith)
        requires
            raw == m * wh + (raw % m),
            0 <= raw % m < m,
            raw >= m * (2 * b + 1),
            m >= 1,
    ;
    assert(raw - (m - 1) * wh - 2 * b >= 1) by (nonlinear_arith)
        requires
            raw == m * wh + (raw % m),
            0 <= raw % m,
            wh >= 2 * b + 1,
            m >= 1,
    ;

    assert forall|i: int| 0 <= i < m - 1 implies (#[trigger] tiled_rect(scr, g, b, mc, mwn, n, i
        + 1)).1 == tiled_rect(scr, g, b, mc, mwn, n, i).1 + tiled_rect(scr, g, b, mc, mwn, n, i).3 + 2 * b
        + g by {
        assert((wh + g) * (i + 1) == (wh + g) * i + wh + g) by (nonlinear_arith);
        assert(i + 1 != m - 1 ==> tiled_rect(scr, g, b, mc, mwn, n, i + 1).1 == top + g + (wh + g) * (i
            + 1));
    }
    assert(tiled_rect(scr, g, b, mc, mwn, n, m - 1).1 + tiled_rect(scr, g, b, mc, mwn, n, m - 1).3 + 2 * b
        + g == top + sh) by {
        assert(sh - 2 * g - (wh + g) * (m - 1) - 2 * b == raw - (m - 1) * wh - 2 * b) by (
        nonlinear_arith)
            requires
                raw == sh - (m + 1) * g,
        ;
        assert(top + g + (wh + g) * (m - 1) + (raw - (m - 1) * wh - 2 * b) + 2 * b + g == top
            + sh) by (nonlinear_arith)
            requires
                raw == sh - (m + 1) * g,
        ;
    }

    // Stack column.
    if m < n {
        let k = n - m;
        let raw2 = sh - (k + 1) * g;
        let wh2 = col_win_height(sh, g, k);
        assert(k * (2 * b + 1) >= k) by (nonlinear_arith)
            requires
                k >= 1,
                b >= 0,
        ;
        assert(raw2 >= k);
        assert(wh2 == raw2 / k);
        lemma_fundamental_div_mod(raw2, k);
        lemma_mod_bound(raw2, k);
        assert(wh2 >= 2 * b + 1) by (nonlinear_arith)
            requires
                raw2 == k * wh2 + (raw2 % k),
                0 <= raw2 % k < k,
                raw2 >= k * (2 * b + 1),
                k >= 1,
        ;
        assert(raw2 - (k - 1) * wh2 - 2 * b >= 1) by (nonlinear_arith)
            requires
                raw2 == k * wh2 + (raw2 % k),
                0 <= raw2 % k,
                wh2 >= 2 * b + 1,
                k >= 1,
        ;
        assert forall|i: int| m <= i < n - 1 implies (#[trigger] tiled_rect(scr, g, b, mc, mwn, n, i
            + 1)).1 == tiled_rect(scr, g, b, mc, mwn, n, i).1 + tiled_rect(scr, g, b, mc, mwn, n, i).3 + 2
            * b + g by {
            assert((wh2 + g) * (i + 1 - m) == (wh2 + g) * (i - m) + wh2 + g) by (nonlinear_arith);
        }
        assert(tiled_rect(scr, g, b, mc, mwn, n, n - 1).1 + tiled_rect(scr, g, b, mc, mwn, n, n - 1).3 + 2
            * b + g == top + sh) by {
            assert(sh - 2 * g - (wh2 + g) * (k - 1) - 2 * b == raw2 - (k - 1) * wh2 - 2 * b) by (
            nonlinear_arith)
                requires
                    raw2 == sh - (k + 1) * g,
            ;
            assert(top + g + (wh2 + g) * (k - 1) + (raw2 - (k - 1) * wh2 - 2 * b) + 2 * b + g
                == top + sh) by (nonlinear_arith)
                requires
                    raw2 == sh - (k + 1) * g,
            ;
        }
    }
}

/// With a single tiled client the computed rectangle is the whole usable
/// rectangle and the border is forced to zero.
pub proof fn lemma_single_client_fills_usable(
    cfg: Config,
    scr: Screen,
    mc: i64,
    mwn: u32,
    c: Client,
    i: int,
)
    requires
        eligible(c),
        screen_geometry_wf(scr),
    ensures
        ({
            let a = arranged_client(cfg, scr, mc, mwn, 1, c, i);
            &&& a.x as int == scr.x
            &&& a.y as int == scr.y + scr.bar_offsets.up
            &&& a.w as int == scr.width
            &&& a.h as int == usable_height(scr)
            &&& a.border == 0
        }),
{
}

/// Arrangement is idempotent: arranging an already arranged workspace
/// computes the same geometry again.
pub proof fn lemma_arrange_idempotent(
    cfg: Config,
    scr: Screen,
    w1: Workspace,
    w2: Workspace,
    w3: Workspace,
)
    requires
        ws_arranged(cfg, scr, w1, w2),
        ws_arranged(cfg, scr, w2, w3),
    ensures
        w3.clients.len() == w2.clients.len(),
        forall|p: int| 0 <= p < w2.clients.len() ==> #[trigger] w3.clients@[p] == w2.clients@[p],
{
    let s1 = w1.clients@;
    let s2 = w2.clients@;
    let len = s1.len() as int;
    let n = num_eligible(s1, 0, len);
    assert forall|p: int| 0 <= p < len implies eligible(s2[p]) == eligible(s1[p]) by {
        assert(w2.clients@[p] == arranged_client(
            cfg,
            scr,
            w1.master_capacity,
            w1.master_width,
            n,
            s1[p],
            tile_index(s1, p),
        ));
    }
    lemma_num_eligible_congruent(s1, s2, 0, len);
    assert forall|p: int| 0 <= p < len implies #[trigger] w3.clients@[p] == w2.clients@[p] by {
        lemma_num_eligible_congruent(s1, s2, p + 1, len);
        assert(tile_index(s2, p) == tile_index(s1, p));
        assert(w2.clients@[p] == arranged_client(
            cfg,
            scr,
            w1.master_capacity,
            w1.master_width,
            n,
            s1[p],
            tile_index(s1, p),
        ));
        assert(w3.clients@[p] == arranged_client(
            cfg,
            scr,
            w2.master_capacity,
            w2.master_width,
            n,
            s2[p],
            tile_index(s1, p),
        ));
    }
}

} // verus!
