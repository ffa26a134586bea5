//! Per-directory terminal theme switching: parsers, resolution and the
//! decisions behind every `colorant` command.

pub mod cli;
pub mod commands;
pub mod config;
pub mod mode;
pub mod shell;
pub mod terminal;
pub mod text;
pub mod theme;
pub mod walk;
