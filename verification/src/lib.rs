//! Core of a tiling window manager: the screen/workspace/client data model,
//! the tiling arrangement engine, focus and cursor synchronization, window
//! placement resolution and the event handlers, all verified.  Every driver
//! operation (the calls a display server would see) is returned as data, so
//! the logic itself never performs input or output.

pub mod actions;
pub mod arrange;
pub mod commands;
pub mod events;
pub mod helper;
pub mod logic;
pub mod model;
