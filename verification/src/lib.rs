//! Verified core of a vertical-reel generator: the reel-script parser, the
//! overlay layout table, the FFmpeg filter-graph planner and the batch
//! scheduling decisions.
pub mod text;
pub mod patterns;
pub mod parser;
pub mod overlay;
pub mod render;
pub mod natural;
pub mod batch;
pub mod laws;
