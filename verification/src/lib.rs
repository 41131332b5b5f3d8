//! Prefrontal: project-garden scanning, health and recall logic.

pub mod text;
pub mod protocol;
pub mod config;
pub mod sort;
pub mod scan;
pub mod symbols;
pub mod docs;
pub mod search;
pub mod watch;
pub mod colony;
pub mod render;
pub mod ui;
pub mod mcp;
pub mod cortex;
pub mod client;
pub mod daemon;
