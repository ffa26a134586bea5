//! ANSI styling helpers for command output.
//!
//! Used by `colorant doctor` (red/green error/clean markers) and
//! `colorant show` (24-bit swatches for each resolved color).
//!
//! Color emission is decided once, by `Style::for_env`, from whether
//! stdout is a terminal and whether `NO_COLOR` is set. When colors are
//! disabled every painted span falls back to its plain text, so piping a
//! command's output anywhere (or setting `NO_COLOR=1`) gives a clean log.

use crate::text::{push_decimal, push_str, string_of, decimal};
use vstd::prelude::*;

verus! {

/// SGR red foreground.
pub const RED: &'static str = "\x1b[31m";
/// SGR green foreground.
pub const GREEN: &'static str = "\x1b[32m";
/// SGR reset.
pub const RESET: &'static str = "\x1b[0m";

/// Minimal ANSI-coloring helper, captured once and threaded by value so
/// the decision (color or not) doesn't drift mid-report.
#[derive(Debug, Clone, Copy, PartialEq, Eq, Structural)]
pub struct Style {
    /// Whether escapes are emitted at all.
    pub color: bool,
}

/// `text` between `prefix` and the reset, or bare when disabled.
pub open spec fn painted_text(text: Seq<char>, prefix: Seq<char>, enabled: bool) -> Seq<char> {
    if enabled {
        prefix + text + RESET@
    } else {
        text
    }
}

/// `text` in a 24-bit foreground color, or bare when disabled.
pub open spec fn rgb_text(text: Seq<char>, rgb: Option<(u8, u8, u8)>) -> Seq<char> {
    match rgb {
        Some(c) => "\x1b[38;2;"@ + decimal(c.0 as nat) + seq![';'] + decimal(c.1 as nat) + seq![';']
            + decimal(c.2 as nat) + seq!['m'] + text + RESET@,
        None => text,
    }
}

impl Style {
    /// Colors only when stdout is a TTY and `NO_COLOR` is unset. This is
    /// what makes `colorant doctor | tee log` produce plain text.
    pub fn for_env(stdout_is_tty: bool, no_color_set: bool) -> (r: Style)
        ensures
            r.color == (stdout_is_tty && !no_color_set),
    {
        Style { color: stdout_is_tty && !no_color_set }
    }

    /// Wrap `text` in the SGR red foreground escape.
    pub fn red<'a>(self, text: &'a str) -> (r: Painted<'a>)
        ensures
            r@ == painted_text(text@, RED@, self.color),
    {
        Painted::new(text, RED, self.color)
    }

    /// Wrap `text` in the SGR green foreground escape.
    pub fn green<'a>(self, text: &'a str) -> (r: Painted<'a>)
        ensures
            r@ == painted_text(text@, GREEN@, self.color),
    {
        Painted::new(text, GREEN, self.color)
    }

    /// Wrap `text` in a 24-bit RGB foreground escape. The text is usually a
    /// block glyph so the cell fills with the requested color; that is how
    /// `colorant show` draws swatches.
    pub fn fg_rgb<'a>(self, text: &'a str, r: u8, g: u8, b: u8) -> (p: RgbPainted<'a>)
        ensures
            p@ == rgb_text(
                text@,
                if self.color {
                    Some((r, g, b))
                } else {
                    None
                },
            ),
    {
        RgbPainted {
            text,
            rgb: if self.color {
                Some((r, g, b))
            } else {
                None
            },
        }
    }
}

/// A span of text with an SGR escape pair around it when the originating
/// `Style` had colors enabled.
pub struct Painted<'a> {
    text: &'a str,
    prefix: &'static str,
    suffix: &'static str,
}

impl<'a> View for Painted<'a> {
    type V = Seq<char>;

    closed spec fn view(&self) -> Seq<char> {
        self.prefix@ + self.text@ + self.suffix@
    }
}

impl<'a> Painted<'a> {
    /// `text` with `prefix` and the reset around it, or bare text.
    pub fn new(text: &'a str, prefix: &'static str, enabled: bool) -> (r: Painted<'a>)
        ensures
            r@ == painted_text(text@, prefix@, enabled),
    {
        let r = Painted {
            text,
            prefix: if enabled {
                prefix
            } else {
                ""
            },
            suffix: if enabled {
                RESET
            } else {
                ""
            },
        };
        proof {
            reveal_strlit("");
            assert(r@ =~= painted_text(text@, prefix@, enabled));
        }
        r
    }

    /// The rendered span.
    pub fn to_string(&self) -> (r: String)
        ensures
            r@ == self@,
    {
        let mut out: Vec<char> = Vec::new();
        push_str(&mut out, self.prefix);
        push_str(&mut out, self.text);
        push_str(&mut out, self.suffix);
        string_of(&out)
    }
}

/// A span of text in a 24-bit foreground color, or plain when colors are
/// disabled.
pub struct RgbPainted<'a> {
    text: &'a str,
    rgb: Option<(u8, u8, u8)>,
}

impl<'a> View for RgbPainted<'a> {
    type V = Seq<char>;

    closed spec fn view(&self) -> Seq<char> {
        rgb_text(self.text@, self.rgb)
    }
}

impl<'a> RgbPainted<'a> {
    /// The rendered span.
    pub fn to_string(&self) -> (r: String)
        ensures
            r@ == self@,
    {
        let mut out: Vec<char> = Vec::new();
        match self.rgb {
            Some((r, g, b)) => {
                push_str(&mut out, "\x1b[38;2;");
                push_decimal(&mut out, r as usize);
                out.push(';');
                push_decimal(&mut out, g as usize);
                out.push(';');
                push_decimal(&mut out, b as usize);
                out.push('m');
                push_str(&mut out, self.text);
                push_str(&mut out, RESET);
            },
            None => push_str(&mut out, self.text),
        }
        assert(out@ =~= self@);
        string_of(&out)
    }
}

} // verus!
