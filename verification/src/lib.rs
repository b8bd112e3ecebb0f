//! Memory of processes, told by the terminal pane they run in.
//!
//! The library finds the multiplexer pane that owns a process by walking up
//! its parents, reads the figures that the system tools print, folds the
//! rows of processes into rows of panes, and writes both as reports. It
//! runs no tool itself: callers hand over what the tools printed.

pub mod aggregate;
pub mod ancestry;
pub mod cli;
pub mod decimal;
pub mod human;
pub mod model;
pub mod options;
pub mod pane_report;
pub mod power;
pub mod process_report;
pub mod rank;
pub mod record;
pub mod render;
pub mod size;
pub mod snapshot;
pub mod text;
