//! Keeps numbered workspaces of a tiling compositor on the outputs they are
//! mapped to.
//!
//! The compositor creates a new workspace on whichever output is focused.
//! This library decides, from snapshots of the compositor's state and a
//! mapping from outputs to workspace numbers, which commands correct that:
//!
//! - `token` reads the `output:spec` tokens that declare the mapping;
//! - `mapping` holds the mapping and its JSON text;
//! - `model` and `sway` hold the snapshots of workspaces, outputs and the
//!   window tree, with their lookups;
//! - `connection` renders the compositor commands and collects them in order;
//! - `reconcile` decides focusing, moving, mapping and bulk reassignment;
//! - `history` keeps the record of the previously focused workspace;
//! - `tools` serves the simpler workspace tools;
//! - `keyboard` serves the keyboard report for status bars;
//! - `text` converts, renders and parses text.
//!
//! Running the commands, reading and writing files and talking to the
//! compositor are left to the caller.
pub mod connection;
pub mod history;
pub mod keyboard;
pub mod mapping;
pub mod model;
pub mod reconcile;
pub mod sway;
pub mod text;
pub mod token;
pub mod tools;
