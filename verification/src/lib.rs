//! A library for driving a terminal multiplexer from declarative session
//! layouts: it compiles named windows and panes into an ordered batch of
//! primitive multiplexer commands, resolves collision-free session names, and
//! rebuilds a declarative layout from the flat records a live session reports.

pub mod cli;
pub mod directories;
pub mod freeze;
pub mod helpers;
pub mod projects;
pub mod session;
pub mod strutil;
pub mod templates;
pub mod tmux;
pub mod widgets;
