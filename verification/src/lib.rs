//! Activation-state detection for Kylin, UOS, Ubuntu and Windows systems:
//! the rules that read command output, the date arithmetic, and the
//! confirmation flow of the checking tool.
use vstd::prelude::*;

pub mod active;
pub mod config;
pub mod date;
pub mod detect;
pub mod flow;
pub mod model;
pub mod sys;
pub mod text;
pub mod ui;

verus! {

} // verus!
