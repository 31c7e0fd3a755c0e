use vstd::prelude::*;

pub mod apps;
pub mod builder;
pub mod engine;
pub mod file_actions;
pub mod filters;
pub mod gui;
pub mod model;
pub mod paths;
pub mod query;
pub mod regex_support;
pub mod search;
pub mod sorting;
pub mod strings;
pub mod text;
pub mod utils;
pub mod watcher;

verus! {
}
