//! A digital audio workstation core: project model, command log, media store and engine helpers.

use vstd::prelude::*;

pub mod cli;
pub mod commands;
pub mod engine;
pub mod history;
pub mod media;
pub mod ids;
pub mod model;
pub mod paths;
pub mod render;
pub mod store;
pub mod text;
pub mod timeline;
pub mod vcs;
pub mod wav;

verus! {

/// Crate version exposed for smoke tests and diagnostics.
pub const VERSION: &'static str = "0.1.0";

} // verus!
