//! Navigation trees for documentation sources: the navigation entries that
//! index documents declare, their resolution against a source tree, and the
//! cross-check of the resolved tree against the files that exist.

pub mod config;
pub mod dircheck;
pub mod front_matter;
pub mod invariants;
pub mod md;
pub mod modes;
pub mod nav;
pub mod path;
pub mod process;
pub mod source;
pub mod text;
pub mod yaml;
