//! `colorant apply` — the main orchestration command.
//!
//! 1. Nothing happens outside a terminal we know how to theme: the shell
//!    hook runs this on every `chpwd`/`precmd`, so a silent no-op is right
//!    elsewhere.
//! 2. When a `.colorantrc` is found walking up from the working directory,
//!    it is resolved for the current mode and emitted (a resolution that
//!    sets nothing resets the terminal instead).
//! 3. Otherwise the configured default palette is emitted when it exists
//!    and sets something; otherwise the terminal is reset.
//!
//! Detecting the terminal, walking the directories and reading the files is
//! the binary's part; this module decides what to write.

use crate::terminal::osc::{emit, emit_reset, emit_tab_reset, emitted, opt_osc, reset_emitted, tab_reset_of};
use crate::terminal::utils::Terminal;
use crate::theme::model::{empty_layer, HexColor, LayerView, Mode, ThemeLayer};
use crate::theme::parse::{palette_parse, parse_palette_str, rc_parse};
use crate::theme::resolve::{flattened, Resolver};
use vstd::prelude::*;

verus! {

/// What `emit_themed` writes: the layer, with the tab following the
/// background when `tab_follows_window`; when the tab should follow but
/// there is no background, a tab reset so the tab doesn't keep the
/// previous directory's color.
pub open spec fn themed(terminal: Terminal, layer: LayerView, tab_follows_window: bool, in_tmux: bool) -> Seq<char> {
    let tab = if tab_follows_window {
        layer.bg
    } else {
        None
    };
    emitted(terminal, layer, tab, in_tmux) + if tab_follows_window && tab is None {
        opt_osc(in_tmux, tab_reset_of(terminal))
    } else {
        Seq::empty()
    }
}

/// Apply the `tab_follows_window` policy to `layer` and append it.
pub fn emit_themed(
    out: &mut String,
    terminal: Terminal,
    layer: &ThemeLayer,
    tab_follows_window: bool,
    in_tmux: bool,
)
    ensures
        final(out)@ == old(out)@ + themed(terminal, layer@, tab_follows_window, in_tmux),
{
    let ghost start = out@;
    let tab: Option<&HexColor> = if tab_follows_window {
        layer.bg.as_ref()
    } else {
        None
    };
    emit(out, terminal, layer, tab, in_tmux);
    if tab_follows_window && tab.is_none() {
        emit_tab_reset(out, terminal, in_tmux);
    } else {
        assert(out@ + Seq::<char>::empty() =~= out@);
    }
    assert(out@ =~= start + themed(terminal, layer@, tab_follows_window, in_tmux));
}

/// Everything `apply` writes: for a found rc (`Some((rc text, parent
/// palette text if that file exists))`) its resolution, or a reset when
/// that sets nothing; else the default palette (its text, when one is
/// configured and present) when it sets something; else a reset.
pub open spec fn apply_text(
    terminal: Terminal,
    base_dir: Seq<char>,
    rc: Option<(Seq<char>, Option<Seq<char>>)>,
    default_palette: Option<Seq<char>>,
    mode: Mode,
    tab_follows_window: bool,
    in_tmux: bool,
) -> Seq<char> {
    match rc {
        Some(found) => {
            let layer = flattened(
                rc_parse(found.0).0,
                mode,
                match found.1 {
                    Some(p) => Some(palette_parse(p).0),
                    None => None,
                },
            );
            if layer == empty_layer() {
                reset_emitted(terminal, in_tmux)
            } else {
                themed(terminal, layer, tab_follows_window, in_tmux)
            }
        },
        None => match default_palette {
            Some(d) if palette_parse(d).0 != empty_layer() => themed(
                terminal,
                palette_parse(d).0,
                tab_follows_window,
                in_tmux,
            ),
            _ => reset_emitted(terminal, in_tmux),
        },
    }
}

pub open spec fn found_view(rc: Option<(&str, Option<&str>)>) -> Option<(Seq<char>, Option<Seq<char>>)> {
    match rc {
        Some(f) => Some(
            (
                f.0@,
                match f.1 {
                    Some(p) => Some(p@),
                    None => None,
                },
            ),
        ),
        None => None,
    }
}

/// The escape sequences `colorant apply` writes in a recognized terminal.
/// `rc` is the nearest `.colorantrc`'s text with its parent palette's text
/// (when the file at `resolver.parent_path` exists); `default_palette` is
/// the text of the configured default palette when it exists.
pub fn apply_output(
    terminal: Terminal,
    resolver: &Resolver,
    rc: Option<(&str, Option<&str>)>,
    default_palette: Option<&str>,
    mode: Mode,
    tab_follows_window: bool,
    in_tmux: bool,
) -> (r: String)
    ensures
        r@ == apply_text(
            terminal,
            resolver.base_theme_dir@,
            found_view(rc),
            match default_palette {
                Some(d) => Some(d@),
                None => None,
            },
            mode,
            tab_follows_window,
            in_tmux,
        ),
{
    let mut out = String::new();
    assert(out@ =~= Seq::<char>::empty());
    if let Some((rc_text, parent)) = rc {
        let theme = resolver.resolve(rc_text, mode, parent);
        if theme.is_empty() {
            emit_reset(&mut out, terminal, in_tmux);
        } else {
            emit_themed(&mut out, terminal, &theme, tab_follows_window, in_tmux);
        }
        return out;
    }
    if let Some(d) = default_palette {
        let palette = parse_palette_str(d);
        if !palette.layer.is_empty() {
            emit_themed(&mut out, terminal, &palette.layer, tab_follows_window, in_tmux);
            return out;
        }
    }
    emit_reset(&mut out, terminal, in_tmux);
    out
}

} // verus!
