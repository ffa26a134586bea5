//! The command line, as plain data.
//!
//! The binary parses arguments into these types; each `Command` variant
//! maps to one subcommand.

use vstd::prelude::*;

verus! {

/// The parsed command line.
#[derive(Debug, Clone, PartialEq, Eq)]
pub struct Cli {
    /// The subcommand the user invoked.
    pub command: Command,
}

/// One of colorant's subcommands.
#[derive(Debug, Clone, PartialEq, Eq)]
pub enum Command {
    /// Find the nearest .colorantrc and apply its theme. No-op on
    /// unsupported terminals. Falls back to the global default theme (if
    /// configured) or resets the terminal when no .colorantrc is found.
    Apply,
    /// Reset terminal colors to defaults.
    Reset,
    /// Print the .colorantrc path that would be applied for the current dir.
    Current,
    /// Print a shell-specific integration snippet (typically
    /// `eval "$(colorant init zsh)"` in ~/.zshrc).
    Init { shell: Shell },
    /// Browse, install and apply themes; without a sub-action, the
    /// interactive picker.
    Themes { action: Option<ThemesAction> },
    /// Diagnose silent failures in a .colorantrc: unknown keys, invalid
    /// colors, missing extends palettes. Without `path`, walks up from the
    /// current directory like `colorant current`.
    Doctor { path: Option<String> },
    /// Print the resolved colors for the current directory; `all` prints
    /// both dark and light instead of just the current mode.
    Show { all: bool },
    /// Interactively pick themes for the current directory's `.colorantrc`
    /// (the `set` subcommand).
    Pick,
}

/// Sub-actions of `colorant themes`.
#[derive(Debug, Clone, PartialEq, Eq)]
pub enum ThemesAction {
    /// List themes from one or all sources, marking installed ones.
    List { source: Option<String>, installed: bool },
    /// Copy bundled palettes into the themes directory: one by name, or
    /// all; existing files are only replaced with `force`.
    Install { name: Option<String>, all: bool, force: bool },
    /// Print the configured themes directory.
    Path,
    /// Case-insensitive name search across sources.
    Search { query: String, source: Option<String> },
    /// Refresh the cached catalog of remote sources.
    Sync { source: Option<String> },
    /// Write `extends` / `extends.dark` / `extends.light` to the current
    /// directory's `.colorantrc`, installing themes as needed. A name may
    /// carry a source prefix (`gogh:<name>`).
    Apply { name: Option<String>, dark: Option<String>, light: Option<String> },
}

/// The shells `colorant init` supports.
#[derive(Debug, Clone, Copy, PartialEq, Eq, Structural)]
pub enum Shell {
    /// Zsh: an `add-zsh-hook chpwd/precmd` snippet.
    Zsh,
}

} // verus!
