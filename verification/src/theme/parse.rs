//! Parsers for the two colorant file shapes.
//!
//! ## Palettes (`.colorant`)
//!
//! Flat key/value, no sections, no inheritance:
//!
//! ```ini
//! # Catppuccin Mocha
//! fg     = #cdd6f4
//! bg     = #1e1e2e
//! cursor = #f5e0dc
//! color0 = #45475a
//! # ...
//! color15 = #a6adc8
//! ```
//!
//! ## Config files (`.colorantrc`)
//!
//! Can declare parent palettes (globally or per mode), plus its own keys.
//! Top-level keys apply in both modes; `[dark]` / `[light]` sections override
//! per mode.
//!
//! Unknown keys and unknown sections are silently ignored to keep forward
//! compatibility easy. Invalid color values are dropped.
//!
//! ## Diagnostics
//!
//! Each parser has a `_with_diagnostics` variant that reports every
//! silently-dropped line and why; `colorant doctor` consumes it. The plain
//! variants discard the diagnostics and return the same parsed value.

use crate::text::{
    chars_of, eq_str, find_char, index_of, lemma_index_of, lines, lines_of, lower_seq,
    lower_vec, slice, small_unsigned, starts_with_str, string_of, trim, trim_bounds,
    trim_slice, unsigned_value,
};
use crate::theme::model::{
    color_of, empty_layer, empty_rc, is_canonical_color, is_color_text, layer_wf,
    lemma_lower_idempotent, name_check, HexColor, LayerView, NameErrorView, ParsedPalette,
    ParsedRc, RcView, ThemeLayer, ThemeName, ThemeNameError, set_slot,
};
use vstd::prelude::*;

verus! {

// ---------------------------------------------------------------------
// Diagnostics
// ---------------------------------------------------------------------

/// Abstract form of `DropReason`.
pub enum DropView {
    MalformedLine,
    UnknownSection(Seq<char>),
    UnknownKey(Seq<char>),
    InvalidColor { key: Seq<char>, value: Seq<char> },
    InvalidExtendsName { key: Seq<char>, value: Seq<char>, error: NameErrorView },
}

/// Categorized reasons the parsers silently dropped a line.
///
/// Each variant carries enough context for `colorant doctor` to print a
/// useful one-liner without the user having to re-read the file.
#[derive(Debug, Clone, PartialEq, Eq)]
pub enum DropReason {
    /// Non-empty, non-comment line with no `=` separator.
    MalformedLine,
    /// Section header other than `[dark]` or `[light]`. Reported once for
    /// the header itself; per-line drops inside the section are suppressed.
    UnknownSection(String),
    /// Key isn't `fg`, `bg`, `cursor`, `color0`..`color15`, `extends`,
    /// `extends.dark`, or `extends.light`.
    UnknownKey(String),
    /// Key would set a color but the value isn't a valid `#rrggbb`.
    InvalidColor { key: String, value: String },
    /// Key is one of `extends`, `extends.dark`, `extends.light` but the
    /// value isn't a valid theme name.
    InvalidExtendsName { key: String, value: String, error: ThemeNameError },
}

impl View for DropReason {
    type V = DropView;

    open spec fn view(&self) -> DropView {
        match self {
            DropReason::MalformedLine => DropView::MalformedLine,
            DropReason::UnknownSection(s) => DropView::UnknownSection(s@),
            DropReason::UnknownKey(s) => DropView::UnknownKey(s@),
            DropReason::InvalidColor { key, value } => DropView::InvalidColor {
                key: key@,
                value: value@,
            },
            DropReason::InvalidExtendsName { key, value, error } => DropView::InvalidExtendsName {
                key: key@,
                value: value@,
                error: error@,
            },
        }
    }
}

/// `(line number, reason)` pairs, abstracted.
pub open spec fn diags_view(d: Seq<(usize, DropReason)>) -> Seq<(int, DropView)> {
    Seq::new(d.len(), |i: int| (d[i].0 as int, d[i].1@))
}

proof fn lemma_diags_push(d: Seq<(usize, DropReason)>, x: (usize, DropReason))
    ensures
        diags_view(d.push(x)) == diags_view(d).push((x.0 as int, x.1@)),
{
    assert(diags_view(d.push(x)) =~= diags_view(d).push((x.0 as int, x.1@)));
}

fn push_diag(diags: &mut Vec<(usize, DropReason)>, lineno: usize, reason: DropReason)
    ensures
        diags_view(final(diags)@) == diags_view(old(diags)@).push((lineno as int, reason@)),
{
    proof {
        lemma_diags_push(diags@, (lineno, reason));
    }
    diags.push((lineno, reason));
}

// ---------------------------------------------------------------------
// Line-level rules shared by both parsers
// ---------------------------------------------------------------------

/// Which slot a palette key names (see `set_slot` for the numbering).
pub open spec fn palette_slot(key: Seq<char>) -> Option<int> {
    if key == "fg"@ {
        Some(0)
    } else if key == "bg"@ {
        Some(1)
    } else if key == "cursor"@ {
        Some(2)
    } else if "color"@.len() <= key.len() && key.take("color"@.len() as int) == "color"@ {
        match unsigned_value(key.skip("color"@.len() as int)) {
            Some(v) => if v < 16 {
                Some(3 + v as int)
            } else {
                None
            },
            None => None,
        }
    } else {
        None
    }
}

/// Split a trimmed, non-comment line at its first `=`: the trimmed key and
/// value, or `None` when there is no `=` or the key is empty.
pub open spec fn key_value(line: Seq<char>) -> Option<(Seq<char>, Seq<char>)> {
    let eq = index_of(line, '=');
    if eq == line.len() {
        None
    } else {
        let key = trim(line.take(eq as int));
        if key.len() == 0 {
            None
        } else {
            Some((key, trim(line.skip(eq as int + 1))))
        }
    }
}

/// The effect of one `key = value` on a layer and its diagnostics.
pub open spec fn apply_kv(
    layer: LayerView,
    diags: Seq<(int, DropView)>,
    key: Seq<char>,
    value: Seq<char>,
    lineno: int,
) -> (LayerView, Seq<(int, DropView)>) {
    match palette_slot(key) {
        None => (layer, diags.push((lineno, DropView::UnknownKey(key)))),
        Some(slot) => match color_of(value) {
            Some(c) => (set_slot(layer, slot, c), diags),
            None => (layer, diags.push((lineno, DropView::InvalidColor { key, value }))),
        },
    }
}

// ---------------------------------------------------------------------
// Palette parser specification
// ---------------------------------------------------------------------

/// One palette line: blank lines, comments and section-looking lines are
/// skipped silently; everything else must be `key = value`.
pub open spec fn palette_step(
    st: (LayerView, Seq<(int, DropView)>),
    raw: Seq<char>,
    lineno: int,
) -> (LayerView, Seq<(int, DropView)>) {
    let line = trim(raw);
    if line.len() == 0 || line[0] == '#' || line[0] == '[' {
        st
    } else {
        match key_value(line) {
            None => (st.0, st.1.push((lineno, DropView::MalformedLine))),
            Some(kv) => apply_kv(st.0, st.1, kv.0, kv.1, lineno),
        }
    }
}

pub open spec fn palette_fold(ls: Seq<Seq<char>>) -> (LayerView, Seq<(int, DropView)>)
    decreases ls.len(),
{
    if ls.len() == 0 {
        (empty_layer(), Seq::empty())
    } else {
        palette_step(palette_fold(ls.drop_last()), ls.last(), ls.len() as int)
    }
}

/// What parsing `content` as a palette yields: the layer and the 1-based
/// line numbers of every dropped line with the reason, in file order.
pub open spec fn palette_parse(content: Seq<char>) -> (LayerView, Seq<(int, DropView)>) {
    palette_fold(lines(content))
}

// ---------------------------------------------------------------------
// Rc parser specification
// ---------------------------------------------------------------------

/// Which part of an rc the parser is in.
#[derive(Copy, Clone, PartialEq, Eq, Structural)]
pub enum Section {
    Base,
    Dark,
    Light,
    /// Any section name other than `[dark]` / `[light]`. Keys inside are dropped.
    Unknown,
}

/// The trimmed name inside a `[...]` line.
pub open spec fn section_name(line: Seq<char>) -> Option<Seq<char>> {
    if line.len() >= 2 && line[0] == '[' && line.last() == ']' {
        Some(trim(line.subrange(1, line.len() - 1)))
    } else {
        None
    }
}

/// Which `extends*` slot a top-level key names: 0 = `extends`,
/// 1 = `extends.dark`, 2 = `extends.light`.
pub open spec fn extends_slot(key: Seq<char>) -> Option<int> {
    if key == "extends"@ {
        Some(0)
    } else if key == "extends.dark"@ {
        Some(1)
    } else if key == "extends.light"@ {
        Some(2)
    } else {
        None
    }
}

pub open spec fn set_extends(rc: RcView, slot: int, name: Seq<char>) -> RcView {
    if slot == 0 {
        RcView { extends: Some(name), ..rc }
    } else if slot == 1 {
        RcView { extends_dark: Some(name), ..rc }
    } else {
        RcView { extends_light: Some(name), ..rc }
    }
}

/// A top-level `key = value` of an rc.
pub open spec fn apply_base_kv(
    rc: RcView,
    diags: Seq<(int, DropView)>,
    key: Seq<char>,
    value: Seq<char>,
    lineno: int,
) -> (RcView, Seq<(int, DropView)>) {
    match extends_slot(key) {
        Some(slot) => match name_check(value) {
            Ok(n) => (set_extends(rc, slot, n), diags),
            Err(e) => (
                rc,
                diags.push(
                    (lineno, DropView::InvalidExtendsName { key, value, error: e }),
                ),
            ),
        },
        None => {
            let r = apply_kv(rc.base, diags, key, value, lineno);
            (RcView { base: r.0, ..rc }, r.1)
        },
    }
}

/// One rc line.
pub open spec fn rc_step(
    st: (RcView, Seq<(int, DropView)>, Section),
    raw: Seq<char>,
    lineno: int,
) -> (RcView, Seq<(int, DropView)>, Section) {
    let line = trim(raw);
    if line.len() == 0 || line[0] == '#' {
        st
    } else if section_name(line) is Some {
        let name = section_name(line)->0;
        let low = lower_seq(name);
        if low == "dark"@ {
            (st.0, st.1, Section::Dark)
        } else if low == "light"@ {
            (st.0, st.1, Section::Light)
        } else {
            (st.0, st.1.push((lineno, DropView::UnknownSection(name))), Section::Unknown)
        }
    } else {
        match key_value(line) {
            None => (st.0, st.1.push((lineno, DropView::MalformedLine)), st.2),
            Some(kv) => match st.2 {
                Section::Unknown => st,
                Section::Base => {
                    let r = apply_base_kv(st.0, st.1, kv.0, kv.1, lineno);
                    (r.0, r.1, st.2)
                },
                Section::Dark => {
                    let r = apply_kv(st.0.dark, st.1, kv.0, kv.1, lineno);
                    (RcView { dark: r.0, ..st.0 }, r.1, st.2)
                },
                Section::Light => {
                    let r = apply_kv(st.0.light, st.1, kv.0, kv.1, lineno);
                    (RcView { light: r.0, ..st.0 }, r.1, st.2)
                },
            },
        }
    }
}

pub open spec fn rc_fold(ls: Seq<Seq<char>>) -> (RcView, Seq<(int, DropView)>, Section)
    decreases ls.len(),
{
    if ls.len() == 0 {
        (empty_rc(), Seq::empty(), Section::Base)
    } else {
        rc_step(rc_fold(ls.drop_last()), ls.last(), ls.len() as int)
    }
}

/// What parsing `content` as an rc yields.
pub open spec fn rc_parse(content: Seq<char>) -> (RcView, Seq<(int, DropView)>) {
    let st = rc_fold(lines(content));
    (st.0, st.1)
}

// ---------------------------------------------------------------------
// Implementation
// ---------------------------------------------------------------------

/// Which slot `key` names, computed.
fn slot_of(key: &Vec<char>) -> (r: Option<usize>)
    ensures
        match palette_slot(key@) {
            Some(s) => r == Some(s as usize),
            None => r is None,
        },
{
    if eq_str(key, "fg") {
        return Some(0);
    }
    if eq_str(key, "bg") {
        return Some(1);
    }
    if eq_str(key, "cursor") {
        return Some(2);
    }
    if starts_with_str(key, "color") {
        proof {
            reveal_strlit("color");
        }
        match small_unsigned(key, 5, 16) {
            Some(i) => Some(3 + i),
            None => None,
        }
    } else {
        None
    }
}

/// Store `c` in slot `slot` of `layer`.
fn store(layer: &mut ThemeLayer, slot: usize, c: HexColor)
    requires
        slot < 19,
    ensures
        final(layer)@ == set_slot(old(layer)@, slot as int, c@),
{
    if slot == 0 {
        layer.fg = Some(c);
    } else if slot == 1 {
        layer.bg = Some(c);
    } else if slot == 2 {
        layer.cursor = Some(c);
    } else {
        layer.palette[slot - 3] = Some(c);
        assert(final(layer)@.palette =~= old(layer)@.palette.update(slot - 3, Some(c@)));
    }
}

/// Apply a single palette key/value to a layer. Keys we don't recognize are
/// reported as `UnknownKey`. Values that aren't valid colors are reported
/// as `InvalidColor`.
fn apply_kv_exec(
    layer: &mut ThemeLayer,
    key: &Vec<char>,
    value: &Vec<char>,
    lineno: usize,
    diags: &mut Vec<(usize, DropReason)>,
)
    ensures
        (final(layer)@, diags_view(final(diags)@)) == apply_kv(
            old(layer)@,
            diags_view(old(diags)@),
            key@,
            value@,
            lineno as int,
        ),
{
    match slot_of(key) {
        None => {
            push_diag(diags, lineno, DropReason::UnknownKey(string_of(key)));
        },
        Some(slot) => {
            match HexColor::from_chars(value) {
                Some(c) => store(layer, slot, c),
                None => push_diag(
                    diags,
                    lineno,
                    DropReason::InvalidColor { key: string_of(key), value: string_of(value) },
                ),
            }
        },
    }
}

/// The trimmed line `raw`, or `None` for a blank line or a comment.
fn content_line(raw: &Vec<char>) -> (r: Option<Vec<char>>)
    ensures
        match r {
            Some(l) => l@ == trim(raw@) && l@.len() > 0 && l@[0] != '#',
            None => trim(raw@).len() == 0 || trim(raw@)[0] == '#',
        },
{
    let (a, b) = trim_bounds(raw);
    let line = slice(raw, a, b);
    if line.len() == 0 || line[0] == '#' {
        None
    } else {
        Some(line)
    }
}

/// The trimmed key and value of `line`.
fn split_key_value(line: &Vec<char>) -> (r: Option<(Vec<char>, Vec<char>)>)
    ensures
        match key_value(line@) {
            Some(kv) => r matches Some(p) && p.0@ == kv.0 && p.1@ == kv.1,
            None => r is None,
        },
{
    proof {
        lemma_index_of(line@, '=');
    }
    match find_char(line, '=') {
        None => None,
        Some(eq) => {
            assert(eq < line.len());
            let key = trim_slice(line, 0, eq);
            assert(line@.subrange(0, eq as int) =~= line@.take(eq as int));
            if key.len() == 0 {
                return None;
            }
            let value = trim_slice(line, eq + 1, line.len());
            assert(line@.subrange(eq + 1, line@.len() as int) =~= line@.skip(eq + 1));
            Some((key, value))
        },
    }
}

/// Parse a `.colorant` palette from a string. Sections and `extends` lines
/// are silently ignored — palettes are flat by design.
pub fn parse_palette_str(content: &str) -> (r: ParsedPalette)
    ensures
        r.layer@ == palette_parse(content@).0,
{
    parse_palette_str_with_diagnostics(content).0
}

/// Parse a `.colorant` palette and report every silently-dropped line.
/// Section headers (`[anything]`) and comments (`# ...`) are skipped
/// without a diagnostic — palettes don't have sections by design and a
/// section-looking line is treated as a no-op for forward compatibility.
pub fn parse_palette_str_with_diagnostics(content: &str) -> (r: (
    ParsedPalette,
    Vec<(usize, DropReason)>,
))
    ensures
        (r.0.layer@, diags_view(r.1@)) == palette_parse(content@),
{
    let chars = chars_of(content);
    let ls = lines_of(&chars);
    let ghost spec_lines = lines(content@);
    let mut layer = ThemeLayer::default();
    let mut diags: Vec<(usize, DropReason)> = Vec::new();
    let mut i: usize = 0;
    assert(spec_lines.take(0) =~= Seq::<Seq<char>>::empty());
    assert(diags_view(diags@) =~= Seq::<(int, DropView)>::empty());
    while i < ls.len()
        invariant
            i <= ls.len(),
            crate::text::deep(ls@) == spec_lines,
            (layer@, diags_view(diags@)) == palette_fold(spec_lines.take(i as int)),
        decreases ls.len() - i,
    {
        let lineno = i + 1;
        let ghost before = spec_lines.take(i as int);
        assert(spec_lines.take(i + 1).drop_last() =~= before);
        assert(spec_lines.take(i + 1).last() == ls@[i as int]@);
        let raw = &ls[i];
        match content_line(raw) {
            None => {},
            Some(line) => {
                if line[0] == '[' {
                } else {
                    match split_key_value(&line) {
                        None => push_diag(&mut diags, lineno, DropReason::MalformedLine),
                        Some(kv) => apply_kv_exec(&mut layer, &kv.0, &kv.1, lineno, &mut diags),
                    }
                }
            },
        }
        i = i + 1;
    }
    assert(spec_lines.take(ls.len() as int) =~= spec_lines);
    (ParsedPalette { layer }, diags)
}

fn set_extends_exec(rc: &mut ParsedRc, slot: usize, name: ThemeName)
    requires
        slot < 3,
    ensures
        final(rc)@ == set_extends(old(rc)@, slot as int, name@),
{
    if slot == 0 {
        rc.extends = Some(name);
    } else if slot == 1 {
        rc.extends_dark = Some(name);
    } else {
        rc.extends_light = Some(name);
    }
}

/// Top-level keys in a `.colorantrc`: `extends`, `extends.dark`,
/// `extends.light`, plus the regular palette keys (which form the file's
/// `base` layer). Duplicate keys: last valid value wins; an invalid value is
/// dropped and leaves any previously-set valid value in place.
fn apply_rc_base_kv(
    rc: &mut ParsedRc,
    key: &Vec<char>,
    value: &Vec<char>,
    lineno: usize,
    diags: &mut Vec<(usize, DropReason)>,
)
    ensures
        (final(rc)@, diags_view(final(diags)@)) == apply_base_kv(
            old(rc)@,
            diags_view(old(diags)@),
            key@,
            value@,
            lineno as int,
        ),
{
    let slot: Option<usize> = if eq_str(key, "extends") {
        Some(0)
    } else if eq_str(key, "extends.dark") {
        Some(1)
    } else if eq_str(key, "extends.light") {
        Some(2)
    } else {
        None
    };
    match slot {
        Some(s) => match ThemeName::from_chars(value) {
            Ok(name) => set_extends_exec(rc, s, name),
            Err(error) => push_diag(
                diags,
                lineno,
                DropReason::InvalidExtendsName {
                    key: string_of(key),
                    value: string_of(value),
                    error,
                },
            ),
        },
        None => apply_kv_exec(&mut rc.base, key, value, lineno, diags),
    }
}

/// Parse a `.colorantrc` from a string. Never fails — malformed lines are
/// silently skipped. Use `parse_rc_str_with_diagnostics` to see what was
/// dropped.
pub fn parse_rc_str(content: &str) -> (r: ParsedRc)
    ensures
        r@ == rc_parse(content@).0,
{
    parse_rc_str_with_diagnostics(content).0
}

/// Parse a `.colorantrc` from a string and report every silently-dropped
/// line. Returns the same `ParsedRc` that `parse_rc_str` would, paired with
/// a list of `(1-based line number, DropReason)` entries in file order.
pub fn parse_rc_str_with_diagnostics(content: &str) -> (r: (ParsedRc, Vec<(usize, DropReason)>))
    ensures
        (r.0@, diags_view(r.1@)) == rc_parse(content@),
{
    let chars = chars_of(content);
    let ls = lines_of(&chars);
    let ghost spec_lines = lines(content@);
    let mut rc = ParsedRc::default();
    let mut diags: Vec<(usize, DropReason)> = Vec::new();
    let mut section = Section::Base;
    let mut i: usize = 0;
    assert(spec_lines.take(0) =~= Seq::<Seq<char>>::empty());
    assert(diags_view(diags@) =~= Seq::<(int, DropView)>::empty());
    while i < ls.len()
        invariant
            i <= ls.len(),
            crate::text::deep(ls@) == spec_lines,
            (rc@, diags_view(diags@), section) == rc_fold(spec_lines.take(i as int)),
        decreases ls.len() - i,
    {
        let lineno = i + 1;
        let ghost before = spec_lines.take(i as int);
        assert(spec_lines.take(i + 1).drop_last() =~= before);
        assert(spec_lines.take(i + 1).last() == ls@[i as int]@);
        let raw = &ls[i];
        match content_line(raw) {
            None => {},
            Some(line) => {
                let n = line.len();
                if n >= 2 && line[0] == '[' && line[n - 1] == ']' {
                    let name = trim_slice(&line, 1, n - 1);
                    let low = lower_vec(&name);
                    if eq_str(&low, "dark") {
                        section = Section::Dark;
                    } else if eq_str(&low, "light") {
                        section = Section::Light;
                    } else {
                        push_diag(&mut diags, lineno, DropReason::UnknownSection(string_of(&name)));
                        section = Section::Unknown;
                    }
                } else {
                    match split_key_value(&line) {
                        None => push_diag(&mut diags, lineno, DropReason::MalformedLine),
                        Some(kv) => match section {
                            Section::Unknown => {},
                            Section::Base => apply_rc_base_kv(
                                &mut rc,
                                &kv.0,
                                &kv.1,
                                lineno,
                                &mut diags,
                            ),
                            Section::Dark => apply_kv_exec(
                                &mut rc.dark,
                                &kv.0,
                                &kv.1,
                                lineno,
                                &mut diags,
                            ),
                            Section::Light => apply_kv_exec(
                                &mut rc.light,
                                &kv.0,
                                &kv.1,
                                lineno,
                                &mut diags,
                            ),
                        },
                    }
                }
            },
        }
        i = i + 1;
    }
    assert(spec_lines.take(ls.len() as int) =~= spec_lines);
    (rc, diags)
}

} // verus!
