//! Shell integration snippets.

pub mod zsh;
