use vstd::prelude::*;

pub mod ratio;
pub mod text;
pub mod fmt;
pub mod types;
pub mod vote;
pub mod names;
pub mod wide;
pub mod score;
pub mod check;
pub mod judge;
pub mod debate;
pub mod hybrid;
pub mod pipeline;
pub mod provider;
pub mod cli;
pub mod format;
pub mod semantic;
