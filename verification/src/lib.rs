//! Core of an interactive terminal command palette: it discovers named lists
//! of shell commands ("windows") along the upward path from the working
//! directory to the home directory, synthesizes a window from recent shell
//! history, ranks or searches the commands of a window, and drives the
//! two-level modal navigation state machine that turns key events into
//! selection changes and requested external actions.
//!
//! Everything here is pure logic over plain values; screen painting, raw
//! terminal handling, filesystem access, clipboard access and process
//! spawning live in the surrounding application.

pub mod config;
pub mod error;
pub mod history;
pub mod nav;
pub mod rank;
pub mod scan;
pub mod window;
