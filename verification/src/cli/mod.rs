//! The command line surface: arguments and what the view shows.

pub mod args;
pub mod commands;
pub mod output;
