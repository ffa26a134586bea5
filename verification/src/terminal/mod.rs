//! Terminal-specific output and detection.
//!
//! `osc` builds the xterm-flavored OSC escape sequences that repaint the
//! terminal, wrapped in tmux DCS passthrough when needed. `utils`
//! identifies which terminal we're inside (`Terminal::Ghostty`,
//! `Terminal::ITerm2`) so callers can gate OSC emission on it. `style`
//! colors command output.

pub mod osc;
pub mod style;
pub mod utils;
