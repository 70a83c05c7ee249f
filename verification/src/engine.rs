//! Runs a compilation: the command line, the stages, and what they report.
pub mod config;
pub mod drive;
pub mod error;
pub mod labels;
pub mod modules;
pub mod options;
pub mod pipeline;
