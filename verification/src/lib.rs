//! The decisions behind `cargo install-update`.

pub mod command;
pub mod config;
pub mod course;
pub mod executable;
pub mod laws;
pub mod options;
pub mod package;
pub mod plan;
pub mod quiet;
pub mod record;
pub mod registry;
pub mod report;
pub mod select;
pub mod session;
pub mod step;
pub mod story;
pub mod table;
pub mod tally;
pub mod text;
pub mod views;
