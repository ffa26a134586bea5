//! Resolves a `.colorantrc` into a single flat `ThemeLayer` for a given mode.
//!
//! Composition is intentionally one-level: a `.colorantrc` may inherit colors
//! from at most one `.colorant` palette (chosen per mode), then layers its own
//! keys on top.
//!
//! Order of operations for mode `M`:
//!
//! 1. Pick the parent palette name: `extends.M` if set, else top-level
//!    `extends`, else none.
//! 2. If a parent is named and `<base_theme_dir>/<name>.colorant` exists,
//!    merge its layer into the accumulator.
//! 3. Merge the rc's `base` (top-level) keys.
//! 4. Merge the rc's `[M]` section if `M` is dark or light.
//!
//! This gives the property "child always beats parent, even when the parent
//! is a per-mode palette".
//!
//! Looking the palette file up on disk is the caller's part: it hands the
//! parsed parent palette (or its text) to the resolver.

use crate::text::{chars_of, push_str};
use crate::theme::model::{
    empty_layer, merged, Mode, ParsedPalette, ParsedRc, RcView, LayerView, ThemeLayer,
    ThemeName,
};
use crate::theme::parse::{palette_parse, parse_palette_str, parse_rc_str, rc_parse};
use vstd::prelude::*;

verus! {

/// Extension used for palette files in the base theme directory.
pub const PALETTE_EXTENSION: &'static str = "colorant";

/// `Path::join` for a relative, separator-free component.
pub open spec fn join_path(base: Seq<char>, part: Seq<char>) -> Seq<char> {
    if base.len() == 0 {
        part
    } else if base.last() == '/' {
        base + part
    } else {
        base + seq!['/'] + part
    }
}

/// Join a relative component onto a directory path.
pub fn join(base: &str, part: &str) -> (r: String)
    ensures
        r@ == join_path(base@, part@),
{
    let mut out = chars_of(base);
    let n = out.len();
    if n > 0 && out[n - 1] != '/' {
        out.push('/');
    }
    push_str(&mut out, part);
    crate::text::string_of(&out)
}

/// The file name of the palette called `name`.
pub open spec fn palette_file_name(name: Seq<char>) -> Seq<char> {
    name + seq!['.'] + "colorant"@
}

/// The flat layer for `mode`: the parent palette (when one was found), then
/// the rc's base keys, then its section for the mode.
pub open spec fn flattened(rc: RcView, mode: Mode, parent: Option<LayerView>) -> LayerView {
    let acc = match parent {
        Some(p) => merged(empty_layer(), p),
        None => empty_layer(),
    };
    let acc = merged(acc, rc.base);
    match mode {
        Mode::Dark => merged(acc, rc.dark),
        Mode::Light => merged(acc, rc.light),
        Mode::Unknown => acc,
    }
}

/// Resolves a config file by merging the right palette (if any) for the
/// requested mode with the rc's own keys.
pub struct Resolver {
    /// Directory where palette files named via `extends` are looked up.
    pub base_theme_dir: String,
}

impl Resolver {
    /// Construct a resolver that looks up palette files in `base_theme_dir`.
    pub fn new(base_theme_dir: String) -> (r: Resolver)
        ensures
            r.base_theme_dir@ == base_theme_dir@,
    {
        Resolver { base_theme_dir }
    }

    /// Where the palette called `name` lives:
    /// `<base_theme_dir>/<name>.colorant`.
    pub fn palette_path(&self, name: &ThemeName) -> (r: String)
        ensures
            r@ == join_path(self.base_theme_dir@, palette_file_name(name@)),
    {
        let mut file = chars_of(name.as_str());
        file.push('.');
        push_str(&mut file, PALETTE_EXTENSION);
        let file = crate::text::string_of(&file);
        join(self.base_theme_dir.as_str(), file.as_str())
    }

    /// The path of the palette `rc` inherits from in `mode`, if it names one.
    pub fn parent_path(&self, rc: &ParsedRc, mode: Mode) -> (r: Option<String>)
        ensures
            match crate::theme::model::parent_name(rc@, mode) {
                Some(n) => r matches Some(p) && p@ == join_path(
                    self.base_theme_dir@,
                    palette_file_name(n),
                ),
                None => r is None,
            },
    {
        match rc.parent_for(mode) {
            Some(n) => Some(self.palette_path(n)),
            None => None,
        }
    }

    /// Resolve a parsed rc. `parent` is the palette at `parent_path(rc,
    /// mode)` when that file exists, `None` otherwise.
    pub fn flatten(&self, rc: &ParsedRc, mode: Mode, parent: Option<&ParsedPalette>) -> (r:
        ThemeLayer)
        ensures
            r@ == flattened(
                rc@,
                mode,
                match parent {
                    Some(p) => Some(p.layer@),
                    None => None,
                },
            ),
    {
        let mut acc = ThemeLayer::default();
        match parent {
            Some(p) => acc.merge(&p.layer),
            None => {},
        }
        acc.merge(&rc.base);
        match mode {
            Mode::Dark => acc.merge(&rc.dark),
            Mode::Light => acc.merge(&rc.light),
            Mode::Unknown => {},
        }
        acc
    }

    /// Resolve the text of a `.colorantrc` for `mode`. `parent` is the text
    /// of the palette file at `parent_path` when it exists.
    pub fn resolve(&self, rc_content: &str, mode: Mode, parent: Option<&str>) -> (r: ThemeLayer)
        ensures
            r@ == flattened(
                rc_parse(rc_content@).0,
                mode,
                match parent {
                    Some(p) => Some(palette_parse(p@).0),
                    None => None,
                },
            ),
    {
        let rc = parse_rc_str(rc_content);
        match parent {
            Some(text) => {
                let palette = parse_palette_str(text);
                self.flatten(&rc, mode, Some(&palette))
            },
            None => self.flatten(&rc, mode, None),
        }
    }
}

/// Child always beats parent: a slot the rc sets for the mode wins over its
/// base keys, which win over the inherited palette; a slot nobody sets stays
/// unset. Stated for the foreground, the background and the cursor;
/// `lemma_child_beats_parent_palette` states it for the palette entries.
pub proof fn lemma_child_beats_parent(rc: RcView, mode: Mode, parent: Option<LayerView>)
    ensures
        ({
            let out = flattened(rc, mode, parent);
            let section = match mode {
                Mode::Dark => rc.dark.fg,
                Mode::Light => rc.light.fg,
                Mode::Unknown => None,
            };
            let inherited = match parent {
                Some(p) => p.fg,
                None => None,
            };
            &&& section is Some ==> out.fg == section
            &&& section is None && rc.base.fg is Some ==> out.fg == rc.base.fg
            &&& section is None && rc.base.fg is None ==> out.fg == inherited
        }),
        ({
            let out = flattened(rc, mode, parent);
            let section = match mode {
                Mode::Dark => rc.dark.bg,
                Mode::Light => rc.light.bg,
                Mode::Unknown => None,
            };
            let inherited = match parent {
                Some(p) => p.bg,
                None => None,
            };
            &&& section is Some ==> out.bg == section
            &&& section is None && rc.base.bg is Some ==> out.bg == rc.base.bg
            &&& section is None && rc.base.bg is None ==> out.bg == inherited
        }),
        ({
            let out = flattened(rc, mode, parent);
            let section = match mode {
                Mode::Dark => rc.dark.cursor,
                Mode::Light => rc.light.cursor,
                Mode::Unknown => None,
            };
            let inherited = match parent {
                Some(p) => p.cursor,
                None => None,
            };
            &&& section is Some ==> out.cursor == section
            &&& section is None && rc.base.cursor is Some ==> out.cursor == rc.base.cursor
            &&& section is None && rc.base.cursor is None ==> out.cursor == inherited
        }),
{
}

/// Same precedence for every palette entry.
pub proof fn lemma_child_beats_parent_palette(
    rc: RcView,
    mode: Mode,
    parent: Option<LayerView>,
    i: int,
)
    requires
        0 <= i < 16,
    ensures
        ({
            let out = flattened(rc, mode, parent);
            let section = match mode {
                Mode::Dark => rc.dark.palette[i],
                Mode::Light => rc.light.palette[i],
                Mode::Unknown => None,
            };
            let inherited = match parent {
                Some(p) => p.palette[i],
                None => None,
            };
            &&& section is Some ==> out.palette[i] == section
            &&& section is None && rc.base.palette[i] is Some ==> out.palette[i]
                == rc.base.palette[i]
            &&& section is None && rc.base.palette[i] is None ==> out.palette[i] == inherited
        }),
{
}

} // verus!
