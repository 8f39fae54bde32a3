//! Subcommands: the command lines they hand to git and the texts they show.

pub mod file;
pub mod menu;
pub mod resolve;
pub mod run;
pub mod switch;
