use vstd::prelude::*;

pub mod app;
pub mod bug_report;
pub mod clipboard;
pub mod comments;
pub mod components;
pub mod diff;
pub mod file_viewer;
pub mod file_tree;
pub mod git_status;
pub mod pane_text;
pub mod paths;
pub mod startup;
pub mod text;
pub mod tree;
pub mod unicode;

verus! {
} // verus!
