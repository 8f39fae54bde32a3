use vstd::prelude::*;

pub mod app;
pub mod cli;
pub mod commands;
pub mod config;
pub mod cover;
pub mod git;
pub mod i18n;
pub mod marked;
pub mod merge;
pub mod text;
pub mod ui;

verus! {

} // verus!
