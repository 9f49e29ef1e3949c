//! gdl: a verified model of git status entries and file diffs, with their text renderings.

pub mod model;
pub mod text;
pub mod lines;
pub mod paths;
pub mod order;
pub mod status;
pub mod hunks;
pub mod style;
pub mod render_status;
pub mod render_diff;
pub mod render;
pub mod cli;
pub mod mcp;
