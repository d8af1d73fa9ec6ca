//! Git sidebar, diff panel, selection context and shell-polling logic of the
//! terminal app, as verified state machines and parsers.
use vstd::prelude::*;

pub mod auto_selection_context;
pub mod diff_state;
pub mod git;
pub mod git_history;
pub mod git_history_diff;
pub mod git_history_view;
pub mod read_skill;
pub mod shell_command;
pub mod text;

verus! {
} // verus!
