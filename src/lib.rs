//! Port inventory: which processes listen on which TCP ports, how they are
//! classified, and how a process holding a port is asked to stop.
pub mod process;
pub mod text;
pub mod listeners;
pub mod containers;
pub mod classify;
pub mod snapshot;
pub mod ops;
pub mod kill;
pub mod tui_state;
pub mod config;
pub mod envfile;
