//! Verified core of the pult desktop companion: the `PULT_EVENTS` line
//! parser, the run-journal reader's decisions, and the `pick.source`
//! interpolation and quoting rules.

pub mod text;

pub mod events;
pub mod pult_bin;
pub mod types;
pub mod journal;
pub mod commands;
