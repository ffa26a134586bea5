//! `colorant show` — the resolved colors that would apply for the current
//! directory, one slot per line with its hex code and a 24-bit swatch.
//!
//! Finding the `.colorantrc`, reading files and detecting the mode is the
//! binary's part; this module resolves the layer and renders the report.

use crate::terminal::style::{painted_text, rgb_text, Style, RED};
use crate::text::{
    chars_of, contains_seq, decimal, lemma_contains_middle, padded, push_decimal, push_padded,
    push_str, string_of,
};
use crate::theme::model::{color_rgb, empty_layer, HexColor, LayerView, Mode, ThemeLayer, ThemeName};
use crate::theme::parse::{palette_parse, parse_palette_str, rc_parse};
use crate::theme::resolve::{flattened, join_path, palette_file_name, Resolver};
use vstd::prelude::*;
use vstd::string::StringSliceAdditionalSpecFns;

verus! {

/// Width of the key column (fits both "cursor" and "color15").
pub const KEY_WIDTH: usize = 7;
/// Width of the value column (fits "#rrggbb" and "(unset)").
pub const VALUE_WIDTH: usize = 7;
/// Swatch glyph: four full blocks drawn in a 24-bit foreground color on a
/// TTY. In piped output the blocks stay in the default color, so the
/// columns still align.
pub const SWATCH: &'static str = "████";

pub open spec fn mode_label_of(mode: Mode) -> Seq<char> {
    match mode {
        Mode::Dark => "dark"@,
        Mode::Light => "light"@,
        Mode::Unknown => "unknown"@,
    }
}

/// The user-facing label of every mode.
pub fn mode_label(mode: Mode) -> (r: &'static str)
    ensures
        r@ == mode_label_of(mode),
{
    match mode {
        Mode::Dark => "dark",
        Mode::Light => "light",
        Mode::Unknown => "unknown",
    }
}

/// `color<idx>`, the index padded to two places so `color0 ` and `color15`
/// line up.
pub open spec fn color_name_of(idx: nat) -> Seq<char> {
    "color"@ + padded(decimal(idx), 2)
}

pub fn color_name(idx: usize) -> (r: String)
    ensures
        r@ == color_name_of(idx as nat),
{
    let mut out = chars_of("color");
    let mut d: Vec<char> = Vec::new();
    push_decimal(&mut d, idx);
    push_padded(&mut out, &d, 2);
    string_of(&out)
}

/// The value of an ASCII hex digit byte.
pub open spec fn hex_byte(b: u8) -> Option<nat> {
    if 48 <= b <= 57 {
        Some((b - 48) as nat)
    } else if 97 <= b <= 102 {
        Some((b - 87) as nat)
    } else if 65 <= b <= 70 {
        Some((b - 55) as nat)
    } else {
        None
    }
}

/// `u8::from_str_radix(&s[i..i + 2], 16).unwrap_or(0)`, over the bytes:
/// two hex digits, or `+` and one, give their value; anything else
/// (including a range that is out of bounds or splits a character) gives
/// 0.
pub open spec fn octet_at(bs: Seq<u8>, i: int) -> u8 {
    if bs.len() >= i + 2 {
        let hi = bs[i];
        let lo = bs[i + 1];
        if hi == 43 {
            match hex_byte(lo) {
                Some(v) => v as u8,
                None => 0,
            }
        } else {
            match (hex_byte(hi), hex_byte(lo)) {
                (Some(h), Some(l)) => (16 * h + l) as u8,
                _ => 0,
            }
        }
    } else {
        0
    }
}

fn hex_byte_exec(b: u8) -> (r: Option<u8>)
    ensures
        match hex_byte(b) {
            Some(v) => r == Some(v as u8) && v < 16,
            None => r is None,
        },
{
    if 48 <= b && b <= 57 {
        Some(b - 48)
    } else if 97 <= b && b <= 102 {
        Some(b - 87)
    } else if 65 <= b && b <= 70 {
        Some(b - 55)
    } else {
        None
    }
}

fn octet_exec(bs: &[u8], i: usize) -> (r: u8)
    requires
        i <= 5,
    ensures
        r == octet_at(bs@, i as int),
{
    if bs.len() < i + 2 {
        return 0;
    }
    let hi = bs[i];
    let lo = bs[i + 1];
    if hi == 43 {
        match hex_byte_exec(lo) {
            Some(v) => v,
            None => 0,
        }
    } else {
        match (hex_byte_exec(hi), hex_byte_exec(lo)) {
            (Some(h), Some(l)) => h * 16 + l,
            _ => 0,
        }
    }
}

/// Parse `#rrggbb` into its RGB octets. A valid color parses exactly;
/// anything malformed gives 0 for the affected octet rather than failing.
pub fn hex_to_rgb(hex: &str) -> (r: (u8, u8, u8))
    ensures
        r == (
            octet_at(hex.spec_bytes(), 1),
            octet_at(hex.spec_bytes(), 3),
            octet_at(hex.spec_bytes(), 5),
        ),
{
    let bs = hex.as_bytes();
    (octet_exec(bs, 1), octet_exec(bs, 3), octet_exec(bs, 5))
}

/// One report row: name, value and swatch, or `(unset)` with the swatch
/// position padded so the columns line up.
pub open spec fn slot_line(name: Seq<char>, color: Option<Seq<char>>, style: Style) -> Seq<char> {
    match color {
        Some(hex) => {
            let rgb = color_rgb(hex);
            padded(name, 7) + "  "@ + padded(hex, 7) + "  "@ + rgb_text(
                SWATCH@,
                if style.color {
                    Some(rgb)
                } else {
                    None
                },
            )
        },
        None => padded(name, 7) + "  "@ + padded("(unset)"@, 7) + "      "@,
    }
}

pub fn format_slot(name: &str, color: Option<&HexColor>, style: Style) -> (r: String)
    ensures
        r@ == slot_line(
            name@,
            match color {
                Some(c) => Some(c@),
                None => None,
            },
            style,
        ),
{
    let mut out: Vec<char> = Vec::new();
    push_padded(&mut out, &chars_of(name), KEY_WIDTH);
    push_str(&mut out, "  ");
    match color {
        Some(c) => {
            push_padded(&mut out, &chars_of(c.as_str()), VALUE_WIDTH);
            push_str(&mut out, "  ");
            let (r, g, b) = c.rgb();
            let swatch = style.fg_rgb(SWATCH, r, g, b).to_string();
            push_str(&mut out, swatch.as_str());
        },
        None => {
            push_padded(&mut out, &chars_of("(unset)"), VALUE_WIDTH);
            push_str(&mut out, "      ");
        },
    }
    string_of(&out)
}

pub open spec fn opt_hex(o: Option<Seq<char>>) -> Option<Seq<char>> {
    o
}

/// Rows `0..n` of the palette table: entry `i` on the left, `i + 8` on the
/// right (the conventional normal/bright split).
pub open spec fn palette_rows(indent: Seq<char>, layer: LayerView, style: Style, n: nat) -> Seq<char>
    decreases n,
{
    if n == 0 {
        Seq::empty()
    } else {
        let i = (n - 1) as nat;
        palette_rows(indent, layer, style, i) + indent + slot_line(
            color_name_of(i),
            layer.palette[i as int],
            style,
        ) + "   "@ + slot_line(color_name_of(i + 8), layer.palette[i + 8 as int], style) + seq!['\n']
    }
}

/// The whole report for one layer.
pub open spec fn layer_report(layer: LayerView, style: Style, indent: Seq<char>) -> Seq<char> {
    indent + slot_line("fg"@, layer.fg, style) + seq!['\n'] + indent + slot_line(
        "bg"@,
        layer.bg,
        style,
    ) + seq!['\n'] + indent + slot_line("cursor"@, layer.cursor, style) + seq!['\n'] + seq!['\n']
        + palette_rows(indent, layer, style, 8)
}

fn push_line(out: &mut String, indent: &str, line: &str)
    ensures
        final(out)@ == old(out)@ + indent@ + line@ + seq!['\n'],
{
    let mut v = chars_of(out.as_str());
    push_str(&mut v, indent);
    push_str(&mut v, line);
    v.push('\n');
    *out = string_of(&v);
}

/// Row `i` of the palette table.
fn palette_row(layer: &ThemeLayer, i: usize, style: Style) -> (r: String)
    requires
        i < 8,
        crate::theme::model::layer_wf(layer@),
    ensures
        r@ == slot_line(color_name_of(i as nat), layer@.palette[i as int], style) + "   "@ + slot_line(
            color_name_of((i + 8) as nat),
            layer@.palette[i + 8 as int],
            style,
        ),
{
    let left = format_slot(color_name(i).as_str(), layer.palette[i].as_ref(), style);
    let right = format_slot(color_name(i + 8).as_str(), layer.palette[i + 8].as_ref(), style);
    assert(layer@.palette[i as int] == crate::theme::model::opt_color(layer.palette[i as int]));
    assert(layer@.palette[i + 8] == crate::theme::model::opt_color(layer.palette[i + 8]));
    let mut row = chars_of(left.as_str());
    push_str(&mut row, "   ");
    push_str(&mut row, right.as_str());
    string_of(&row)
}

/// Append the report for `layer`: fg, bg and cursor, a blank line, then
/// the 16 palette entries in two columns.
#[verifier::rlimit(30)]
pub fn print_layer(out: &mut String, layer: &ThemeLayer, style: Style, indent: &str)
    ensures
        final(out)@ == old(out)@ + layer_report(layer@, style, indent@),
{
    layer.establish_wf();
    let ghost start = out@;
    let fg = format_slot("fg", layer.fg.as_ref(), style);
    push_line(out, indent, fg.as_str());
    let bg = format_slot("bg", layer.bg.as_ref(), style);
    push_line(out, indent, bg.as_str());
    let cursor = format_slot("cursor", layer.cursor.as_ref(), style);
    push_line(out, indent, cursor.as_str());
    push_line(out, "", "");
    proof {
        reveal_strlit("");
    }
    let ghost head = out@;
    assert(head =~= start + indent@ + slot_line("fg"@, layer@.fg, style) + seq!['\n'] + indent@
        + slot_line("bg"@, layer@.bg, style) + seq!['\n'] + indent@ + slot_line(
        "cursor"@,
        layer@.cursor,
        style,
    ) + seq!['\n'] + seq!['\n']);
    let mut i: usize = 0;
    while i < 8
        invariant
            i <= 8,
            crate::theme::model::layer_wf(layer@),
            out@ == head + palette_rows(indent@, layer@, style, i as nat),
        decreases 8 - i,
    {
        let row = palette_row(layer, i, style);
        let ghost before = out@;
        push_line(out, indent, row.as_str());
        assert(out@ == before + indent@ + row@ + seq!['\n']);
        i = i + 1;
        assert(out@ =~= head + palette_rows(indent@, layer@, style, i as nat));
    }
    assert(out@ =~= start + layer_report(layer@, style, indent@));
}

/// The layer `show` reports for `mode`: the resolved rc when one was found
/// (`rc_content`, with `parent_content` the text of its parent palette
/// when that file exists), else the default theme's palette when it is
/// configured and present (`default_palette`), else nothing.
pub fn resolve_layer(
    resolver: &Resolver,
    rc_content: Option<&str>,
    parent_content: Option<&str>,
    default_palette: Option<&str>,
    mode: Mode,
) -> (r: ThemeLayer)
    ensures
        r@ == match rc_content {
            Some(rc) => flattened(
                rc_parse(rc@).0,
                mode,
                match parent_content {
                    Some(p) => Some(palette_parse(p@).0),
                    None => None,
                },
            ),
            None => match default_palette {
                Some(d) => palette_parse(d@).0,
                None => empty_layer(),
            },
        },
{
    if let Some(rc) = rc_content {
        return resolver.resolve(rc, mode, parent_content);
    }
    if let Some(d) = default_palette {
        return parse_palette_str(d).layer;
    }
    ThemeLayer::default()
}

/// The first lines of `colorant show`: the rc that applies; else the
/// default theme, with a warning when its palette file is missing (so a
/// confident heading over rows of `(unset)` does not leave the user
/// guessing); else the note that no theme applies. The flag says whether
/// the color report follows.
pub open spec fn heading_text(
    rc_path: Option<Seq<char>>,
    default: Option<(Seq<char>, Seq<char>, bool)>,
    style: Style,
) -> (Seq<char>, bool) {
    match rc_path {
        Some(p) => ("Active theme for "@ + p + "\n"@, true),
        None => match default {
            Some((name, path, exists)) => (
                "Default theme: "@ + name + "\n"@ + if exists {
                    Seq::empty()
                } else {
                    "  "@ + painted_text("(palette file not found at "@ + path + ")"@, RED@, style.color)
                        + "\n"@
                },
                true,
            ),
            None => ("No theme applies in this directory.\n"@, false),
        },
    }
}

/// The heading for the nearest rc (`rc_path`), or else the configured
/// default theme, whose palette file exists or not (`default_exists`).
pub fn heading(
    rc_path: Option<&str>,
    default_theme: Option<&ThemeName>,
    resolver: &Resolver,
    default_exists: bool,
    style: Style,
) -> (r: (String, bool))
    ensures
        (r.0@, r.1) == heading_text(
            match rc_path {
                Some(p) => Some(p@),
                None => None,
            },
            match default_theme {
                Some(n) => Some(
                    (n@, join_path(resolver.base_theme_dir@, palette_file_name(n@)), default_exists),
                ),
                None => None,
            },
            style,
        ),
{
    let mut out: Vec<char> = Vec::new();
    match rc_path {
        Some(p) => {
            push_str(&mut out, "Active theme for ");
            push_str(&mut out, p);
            push_str(&mut out, "\n");
            (string_of(&out), true)
        },
        None => match default_theme {
            Some(name) => {
                push_str(&mut out, "Default theme: ");
                push_str(&mut out, name.as_str());
                push_str(&mut out, "\n");
                if !default_exists {
                    let path = resolver.palette_path(name);
                    let mut msg = chars_of("(palette file not found at ");
                    push_str(&mut msg, path.as_str());
                    push_str(&mut msg, ")");
                    let msg = string_of(&msg);
                    let warning = style.red(msg.as_str()).to_string();
                    push_str(&mut out, "  ");
                    push_str(&mut out, warning.as_str());
                    push_str(&mut out, "\n");
                }
                (string_of(&out), true)
            },
            None => {
                push_str(&mut out, "No theme applies in this directory.\n");
                (string_of(&out), false)
            },
        },
    }
}

/// What a row shows for a slot: its color, or `(unset)`.
pub open spec fn shown(color: Option<Seq<char>>) -> Seq<char> {
    match color {
        Some(c) => padded(c, 7),
        None => "(unset)"@,
    }
}

/// A row is its label, padded, then the value it shows.
proof fn lemma_row_starts(name: Seq<char>, label: Seq<char>, color: Option<Seq<char>>, style: Style) -> (rest: Seq<char>)
    requires
        label == padded(name, 7) + "  "@,
    ensures
        slot_line(name, color, style) == label + shown(color) + rest,
{
    match color {
        Some(hex) => {
            let rest = "  "@ + rgb_text(
                SWATCH@,
                if style.color {
                    Some(color_rgb(hex))
                } else {
                    None
                },
            );
            assert(slot_line(name, color, style) =~= label + shown(color) + rest);
            rest
        },
        None => {
            reveal_strlit("(unset)");
            assert(padded("(unset)"@, 7) =~= "(unset)"@);
            let rest = "      "@;
            assert(slot_line(name, color, style) =~= label + shown(color) + rest);
            rest
        },
    }
}

proof fn lemma_labels()
    ensures
        padded("fg"@, 7) + "  "@ == seq!['f', 'g', ' ', ' ', ' ', ' ', ' ', ' ', ' '],
        padded("bg"@, 7) + "  "@ == seq!['b', 'g', ' ', ' ', ' ', ' ', ' ', ' ', ' '],
        padded("cursor"@, 7) + "  "@ == seq!['c', 'u', 'r', 's', 'o', 'r', ' ', ' ', ' '],
{
    reveal_strlit("fg");
    reveal_strlit("bg");
    reveal_strlit("cursor");
    reveal_strlit("  ");
    assert(padded("fg"@, 7) + "  "@ =~= seq!['f', 'g', ' ', ' ', ' ', ' ', ' ', ' ', ' ']);
    assert(padded("bg"@, 7) + "  "@ =~= seq!['b', 'g', ' ', ' ', ' ', ' ', ' ', ' ', ' ']);
    assert(padded("cursor"@, 7) + "  "@ =~= seq!['c', 'u', 'r', 's', 'o', 'r', ' ', ' ', ' ']);
}

proof fn lemma_report_parts(layer: LayerView, style: Style, indent: Seq<char>)
    ensures
        layer_report(layer, style, indent) == (indent + slot_line("fg"@, layer.fg, style)) + (
        seq!['\n'] + (indent + slot_line("bg"@, layer.bg, style))) + (seq!['\n'] + (indent
            + slot_line("cursor"@, layer.cursor, style))) + (seq!['\n'] + seq!['\n']
            + palette_rows(indent, layer, style, 8)),
{
    assert(layer_report(layer, style, indent) =~= (indent + slot_line("fg"@, layer.fg, style)) + (
    seq!['\n'] + (indent + slot_line("bg"@, layer.bg, style))) + (seq!['\n'] + (indent
        + slot_line("cursor"@, layer.cursor, style))) + (seq!['\n'] + seq!['\n']
        + palette_rows(indent, layer, style, 8)));
}

/// `indent + row` holds `indent + label + shown(color)` at its start.
proof fn lemma_row_in(indent: Seq<char>, name: Seq<char>, label: Seq<char>, color: Option<Seq<char>>, style: Style) -> (rest: Seq<char>)
    requires
        label == padded(name, 7) + "  "@,
    ensures
        indent + slot_line(name, color, style) == (indent + label + shown(color)) + rest,
{
    let rest = lemma_row_starts(name, label, color, style);
    assert(indent + slot_line(name, color, style) =~= (indent + label + shown(color)) + rest);
    rest
}

/// Each of three rows laid out one after the other occurs in the whole.
proof fn lemma_three_rows(
    row_f: Seq<char>,
    row_b: Seq<char>,
    row_c: Seq<char>,
    tail: Seq<char>,
    nl: Seq<char>,
    nf: Seq<char>,
    nb: Seq<char>,
    nc: Seq<char>,
    rf: Seq<char>,
    rb: Seq<char>,
    rc: Seq<char>,
)
    requires
        row_f == nf + rf,
        row_b == nb + rb,
        row_c == nc + rc,
    ensures
        contains_seq(row_f + (nl + row_b) + (nl + row_c) + tail, nf),
        contains_seq(row_f + (nl + row_b) + (nl + row_c) + tail, nb),
        contains_seq(row_f + (nl + row_b) + (nl + row_c) + tail, nc),
{
    let all = row_f + (nl + row_b) + (nl + row_c) + tail;
    let after_f = (nl + row_b) + (nl + row_c) + tail;
    assert(all =~= Seq::<char>::empty() + nf + (rf + after_f));
    lemma_contains_middle(Seq::empty(), nf, rf + after_f);
    let before_b = row_f + nl;
    let after_b = (nl + row_c) + tail;
    assert(all =~= before_b + nb + (rb + after_b));
    lemma_contains_middle(before_b, nb, rb + after_b);
    let before_c = row_f + (nl + row_b) + nl;
    assert(all =~= before_c + nc + (rc + tail));
    lemma_contains_middle(before_c, nc, rc + tail);
}

/// `show` labels each of the first three rows with its slot and shows that
/// slot's own value: the `cursor` row the layer's cursor color (or
/// `(unset)`), whatever the foreground and background are, and likewise
/// for `fg` and `bg`.
pub proof fn lemma_rows_show_their_slot(layer: LayerView, style: Style, indent: Seq<char>)
    ensures
        contains_seq(
            layer_report(layer, style, indent),
            indent + seq!['f', 'g', ' ', ' ', ' ', ' ', ' ', ' ', ' '] + shown(layer.fg),
        ),
        contains_seq(
            layer_report(layer, style, indent),
            indent + seq!['b', 'g', ' ', ' ', ' ', ' ', ' ', ' ', ' '] + shown(layer.bg),
        ),
        contains_seq(
            layer_report(layer, style, indent),
            indent + seq!['c', 'u', 'r', 's', 'o', 'r', ' ', ' ', ' '] + shown(layer.cursor),
        ),
{
    lemma_labels();
    let lf = seq!['f', 'g', ' ', ' ', ' ', ' ', ' ', ' ', ' '];
    let lb = seq!['b', 'g', ' ', ' ', ' ', ' ', ' ', ' ', ' '];
    let lc = seq!['c', 'u', 'r', 's', 'o', 'r', ' ', ' ', ' '];
    lemma_report_parts(layer, style, indent);
    let nl = seq!['\n'];
    let row_f = indent + slot_line("fg"@, layer.fg, style);
    let row_b = indent + slot_line("bg"@, layer.bg, style);
    let row_c = indent + slot_line("cursor"@, layer.cursor, style);
    let tail = nl + nl + palette_rows(indent, layer, style, 8);
    let all = layer_report(layer, style, indent);
    assert(all == row_f + (nl + row_b) + (nl + row_c) + tail);
    let nf = indent + lf + shown(layer.fg);
    let nb = indent + lb + shown(layer.bg);
    let nc = indent + lc + shown(layer.cursor);
    let rf = lemma_row_in(indent, "fg"@, lf, layer.fg, style);
    let rb = lemma_row_in(indent, "bg"@, lb, layer.bg, style);
    let rc = lemma_row_in(indent, "cursor"@, lc, layer.cursor, style);
    lemma_three_rows(row_f, row_b, row_c, tail, nl, nf, nb, nc, rf, rb, rc);
}

} // verus!
