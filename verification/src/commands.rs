//! The operations the manager asks the display driver to perform.  Every
//! handler returns its driver work as a sequence of these values; an
//! unverified shell translates them into protocol calls, so the decision
//! logic stays free of input and output.

use vstd::prelude::*;

verus! {

/// One driver operation, in the order it must be performed.
#[derive(Clone, PartialEq, Debug)]
pub enum DriverCommand {
    /// Configure geometry and border width of a window in one request.
    ApplyGeometry { win: u64, x: i32, y: i32, w: u32, h: u32, border: u32 },
    /// Send the window a synthetic confirmation of its current geometry.
    NotifyConfigure { win: u64, x: i32, y: i32, w: u32, h: u32, border: u32 },
    /// Move and resize a window.
    MoveResize { win: u64, x: i32, y: i32, w: u32, h: u32 },
    SetBorderWidth { win: u64, width: u32 },
    SetBorderColor { win: u64, color: u64 },
    Raise { win: u64 },
    SetInputFocus { win: u64 },
    /// Give input focus back to the root window.
    FocusRoot,
    /// Grab one drag-gesture button on a window.
    GrabDragButton { win: u64, button: u32 },
    /// Release every drag-gesture grab on a window.
    ReleaseDragButtons { win: u64 },
    /// Politely offer the client input focus, where it advertises the
    /// take-focus protocol; the shell checks the advertisement.
    SendTakeFocus { win: u64 },
    /// Politely ask the client to close itself.
    RequestClose { win: u64 },
    /// Forcibly terminate the client.
    ForceKill { win: u64 },
    SetUrgencyHint { win: u64, urgent: bool },
    /// Mark the window withdrawn in its published state property.
    SetWithdrawnState { win: u64 },
    /// Publish the desktop index a window belongs to.
    SetClientDesktop { win: u64, desktop: u64 },
    /// Publish or clear the fullscreen state property of a window.
    SetFullscreenProp { win: u64, on: bool },
    /// Publish the active window id on the root window.
    SetActiveWindow { win: u64 },
    /// Remove the active window property from the root window.
    ClearActiveWindow,
    /// Publish the current desktop index on the root window.
    SetCurrentDesktop { desktop: u64 },
    /// Publish the ordered list of managed windows.
    SetClientList { ids: Vec<u64> },
    /// Publish desktop count, names and viewports.
    SetDesktopMeta { names: Vec<String>, viewports: Vec<i64> },
    /// Subscribe to the input events a managed client must report.
    GrabClientEvents { win: u64 },
    /// Warp the pointer to a position inside a window.
    WarpPointer { win: u64, x: i32, y: i32 },
    /// Drop the pointer-crossing notifications queued so far.
    DropPendingCrossings,
    /// Forward a configure request of an unmanaged window unchanged.
    ForwardConfigure {
        win: u64,
        x: i32,
        y: i32,
        w: i32,
        h: i32,
        border: i32,
        sibling: u64,
        stack_mode: i32,
        mask: u64,
    },
    /// Start a program, detached from the event loop.
    Spawn { argv: Vec<String> },
}

} // verus!
