//! Extracts errors and warnings from the transcript of a LaTeX run and
//! attributes each to the source file and line that caused it.

pub mod blocks;
pub mod content;
pub mod error;
pub mod extract;
pub mod listing;
pub mod matcher;
pub mod render;
pub mod report;
pub mod rules;
pub mod text;
pub mod utils;
