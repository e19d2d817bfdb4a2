//! Verified core of a line-oriented search, replace and statistics tool.

pub mod cli;
pub mod error;
pub mod files;
pub mod gui;
pub mod literal;
pub mod matcher;
pub mod order;
pub mod render;
pub mod replace;
pub mod search;
pub mod stats;
pub mod text;
