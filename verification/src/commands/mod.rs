//! The decisions behind each `colorant` subcommand.
//!
//! Each submodule holds what its command computes; reading files, talking
//! to the terminal and the network is the binary's part.

pub mod picks;
pub mod show;
pub mod doctor;
pub mod apply;
pub mod themes;
