//! `colorant themes` — manage themes from bundled and remote sources.
//!
//! With no sub-action the binary opens the interactive picker (see
//! [`tui`]). The sub-actions list, search, install, sync and apply themes.
//! This module holds their decisions and texts: which sources a filter
//! names, where a palette is installed, what an install or an apply has to
//! do, and how a palette is written back to disk. Reading directories,
//! writing files and fetching from the network is the binary's part.

pub mod tui;

use crate::text::{
    chars_of, decimal, lemma_decimal, lemma_index_of_is, lemma_lines_push, no_newline, push_decimal,
    push_str, split_state, string_of, trim, trim_end, trim_start, lines, is_ws, lower_seq,
    unsigned_value,
};
use crate::theme::model::{
    color_of, empty_layer, is_canonical_color, layer_wf, lemma_lower_idempotent, set_slot,
    HexColor, LayerView, ParsedPalette, ThemeLayer,
};
use crate::theme::parse::{palette_fold, palette_parse, palette_slot, palette_step, key_value};
use crate::theme::bundled::{bundled_content, bundled_themes, catalog, lookup, pairs_view};
use crate::theme::model::{debug_str, debug_string};
use crate::theme::resolve::{join, join_path, palette_file_name, PALETTE_EXTENSION};
use crate::theme::source::{all_sources, source_of, source_name, Source, SourceError};
use crate::text::{contains_chars, contains_seq, to_lowercase, unicode_lower, views};
use vstd::prelude::*;

verus! {

// ---------------------------------------------------------------------
// Writing a palette back out
// ---------------------------------------------------------------------

/// The color in slot `s` (0 fg, 1 bg, 2 cursor, 3 + i palette entry i).
pub open spec fn slot_value(l: LayerView, s: int) -> Option<Seq<char>> {
    if s == 0 {
        l.fg
    } else if s == 1 {
        l.bg
    } else if s == 2 {
        l.cursor
    } else {
        l.palette[s - 3]
    }
}

/// The palette-file key of slot `s`.
pub open spec fn slot_key(s: int) -> Seq<char> {
    if s == 0 {
        "fg"@
    } else if s == 1 {
        "bg"@
    } else if s == 2 {
        "cursor"@
    } else {
        "color"@ + decimal((s - 3) as nat)
    }
}

pub open spec fn key_line(s: int, c: Seq<char>) -> Seq<char> {
    slot_key(s) + " = "@ + c
}

/// The `key = value` lines for the set slots among the first `n`, each
/// with its line feed.
pub open spec fn render_upto(l: LayerView, n: nat) -> Seq<char>
    decreases n,
{
    if n == 0 {
        Seq::empty()
    } else {
        let s = (n - 1) as nat;
        render_upto(l, s) + match slot_value(l, s as int) {
            Some(c) => key_line(s as int, c) + seq!['\n'],
            None => Seq::empty(),
        }
    }
}

/// A layer in the flat `.colorant` format: one `key = value` line per set
/// slot, in the order fg, bg, cursor, color0..color15; unset slots are
/// skipped.
pub open spec fn rendered(l: LayerView) -> Seq<char> {
    render_upto(l, 19)
}

fn push_slot(out: &mut Vec<char>, s: usize, c: &Option<HexColor>)
    requires
        s < 19,
    ensures
        final(out)@ == old(out)@ + match crate::theme::model::opt_color(*c) {
            Some(v) => key_line(s as int, v) + seq!['\n'],
            None => Seq::empty(),
        },
{
    match c {
        Some(color) => {
            let ghost start = out@;
            if s == 0 {
                push_str(out, "fg");
            } else if s == 1 {
                push_str(out, "bg");
            } else if s == 2 {
                push_str(out, "cursor");
            } else {
                push_str(out, "color");
                push_decimal(out, s - 3);
            }
            assert(out@ =~= start + slot_key(s as int));
            push_str(out, " = ");
            push_str(out, color.as_str());
            out.push('\n');
        },
        None => {
            assert(old(out)@ + Seq::<char>::empty() =~= old(out)@);
        },
    }
}

/// Render a layer in the flat `.colorant` key/value format used on disk.
/// Unset slots are skipped, so a partial palette round-trips without
/// empty `colorN = ` lines.
pub fn render_palette_layer(layer: &ThemeLayer) -> (r: String)
    ensures
        r@ == rendered(layer@),
{
    layer.establish_wf();
    let mut out: Vec<char> = Vec::new();
    assert(out@ =~= render_upto(layer@, 0));
    push_slot(&mut out, 0, &layer.fg);
    assert(out@ =~= render_upto(layer@, 1));
    push_slot(&mut out, 1, &layer.bg);
    assert(out@ =~= render_upto(layer@, 2));
    push_slot(&mut out, 2, &layer.cursor);
    assert(out@ =~= render_upto(layer@, 3));
    let mut i: usize = 0;
    while i < 16
        invariant
            i <= 16,
            layer_wf(layer@),
            out@ == render_upto(layer@, (i + 3) as nat),
        decreases 16 - i,
    {
        assert(layer@.palette[i as int] == crate::theme::model::opt_color(layer.palette[i as int]));
        push_slot(&mut out, i + 3, &layer.palette[i]);
        i = i + 1;
    }
    string_of(&out)
}

/// Render a parsed palette as a `.colorant` file: the format the palette
/// parser reads, so writing and reading back is lossless.
pub fn render_palette(palette: &ParsedPalette) -> (r: String)
    ensures
        r@ == rendered(palette.layer@),
{
    render_palette_layer(&palette.layer)
}

// ---------------------------------------------------------------------
// Laws: a rendered palette parses back to itself
// ---------------------------------------------------------------------

/// The layer holding the slots of `l` below `n` and nothing else.
pub open spec fn partial(l: LayerView, n: nat) -> LayerView {
    LayerView {
        fg: if n > 0 {
            l.fg
        } else {
            None
        },
        bg: if n > 1 {
            l.bg
        } else {
            None
        },
        cursor: if n > 2 {
            l.cursor
        } else {
            None
        },
        palette: Seq::new(16, |i: int| if i + 3 < n { l.palette[i] } else { None }),
    }
}

/// The lines of `render_upto(l, n)`.
pub open spec fn render_lines(l: LayerView, n: nat) -> Seq<Seq<char>>
    decreases n,
{
    if n == 0 {
        Seq::empty()
    } else {
        let s = (n - 1) as nat;
        match slot_value(l, s as int) {
            Some(c) => render_lines(l, s).push(key_line(s as int, c)),
            None => render_lines(l, s),
        }
    }
}

proof fn lemma_trim_clean(s: Seq<char>)
    requires
        s.len() > 0,
        !is_ws(s[0]),
        !is_ws(s.last()),
    ensures
        trim(s) == s,
{
    assert(trim_start(s) == s);
}

proof fn lemma_key_shape(s: int)
    requires
        0 <= s < 19,
    ensures
        slot_key(s).len() >= 2,
        slot_key(s)[0] == 'f' || slot_key(s)[0] == 'b' || slot_key(s)[0] == 'c',
        !is_ws(slot_key(s).last()),
        forall|j: int| 0 <= j < slot_key(s).len() ==> slot_key(s)[j] != '=' && slot_key(s)[j]
            != '\n',
        palette_slot(slot_key(s)) == Some(s),
{
    reveal_strlit("fg");
    reveal_strlit("bg");
    reveal_strlit("cursor");
    reveal_strlit("color");
    reveal_strlit("fg");
    let k = slot_key(s);
    if s == 1 {
        assert(k[0] != "fg"@[0]);
    } else if s == 2 {
        assert(k.len() != "fg"@.len() && k.len() != "bg"@.len());
    }
    if s >= 3 {
        let d = decimal((s - 3) as nat);
        lemma_decimal((s - 3) as nat);
        assert(k.take(5) =~= "color"@);
        assert(k.skip(5) =~= d);
        assert forall|j: int| 0 <= j < k.len() implies k[j] != '=' && k[j] != '\n' by {
            if j >= 5 {
                assert(k[j] == d[j - 5]);
                assert(crate::text::is_ascii_digit(d[j - 5]));
            }
        }
        assert(k.last() == d.last());
        assert(crate::text::is_ascii_digit(d[d.len() - 1]));
        assert(k != "fg"@ && k != "bg"@) by {
            assert(k.len() >= 6);
        }
        assert(k != "cursor"@) by {
            assert(k[1] == 'o');
        }
        assert("color"@.len() == 5);
        assert(unsigned_value(k.skip(5)) == Some((s - 3) as nat));
        assert(palette_slot(k) == Some(s));
    }
}

/// One rendered line, parsed, sets exactly its slot and drops nothing.
proof fn lemma_parse_key_line(st: (LayerView, Seq<(int, crate::theme::parse::DropView)>), s: int, c: Seq<char>, lineno: int)
    requires
        0 <= s < 19,
        is_canonical_color(c),
    ensures
        palette_step(st, key_line(s, c), lineno) == (set_slot(st.0, s, c), st.1),
        no_newline(key_line(s, c)),
        key_line(s, c).last() != '\r',
{
    reveal_strlit(" = ");
    lemma_key_shape(s);
    let k = slot_key(s);
    let line = key_line(s, c);
    assert(line.len() == k.len() + 3 + 7);
    assert(line[0] == k[0]);
    assert(line.last() == c[6]);
    lemma_trim_clean(line);
    assert forall|j: int| 0 <= j < line.len() implies line[j] != '\n' by {
        if j < k.len() {
            assert(line[j] == k[j]);
        } else if j >= k.len() + 3 {
            assert(line[j] == c[j - k.len() - 3]);
        }
    }
    let eq: int = k.len() as int + 1;
    assert(line[eq] == '=');
    assert forall|j: int| 0 <= j < eq implies line[j] != '=' by {
        if j < k.len() {
            assert(line[j] == k[j]);
        }
    }
    lemma_index_of_is(line, '=', eq);
    let before = line.take(eq);
    assert(before =~= k.push(' '));
    assert(trim_start(before) == before);
    assert(before.drop_last() =~= k);
    assert(trim_end(before) == trim_end(k));
    assert(trim_end(k) == k);
    let after = line.skip(eq + 1);
    assert(after =~= seq![' '] + c);
    assert(after.drop_first() =~= c);
    assert(trim_start(after) == trim_start(c));
    assert(trim_start(c) == c);
    assert(trim_end(c) == c);
    assert(key_value(line) == Some((k, c)));
    lemma_lower_idempotent(c);
    assert(color_of(c) == Some(c));
}

proof fn lemma_render_upto(l: LayerView, n: nat)
    requires
        layer_wf(l),
        n <= 19,
    ensures
        split_state(render_upto(l, n)) == (render_lines(l, n), Seq::<char>::empty()),
        palette_fold(render_lines(l, n)) == (partial(l, n), Seq::<(int, crate::theme::parse::DropView)>::empty()),
    decreases n,
{
    if n == 0 {
        assert(partial(l, 0).palette =~= empty_layer().palette);
        assert(partial(l, 0) == empty_layer());
    } else {
        let s = (n - 1) as nat;
        lemma_render_upto(l, s);
        match slot_value(l, s as int) {
            Some(c) => {
                assert(is_canonical_color(c)) by {
                    if s >= 3 {
                        assert(l.palette[s - 3] matches Some(x) ==> is_canonical_color(x));
                    }
                }
                lemma_parse_key_line(
                    (partial(l, s), Seq::empty()),
                    s as int,
                    c,
                    render_lines(l, s).len() + 1 as int,
                );
                lemma_lines_push(render_upto(l, s), key_line(s as int, c));
                assert(render_upto(l, n) =~= render_upto(l, s) + key_line(s as int, c) + seq!['\n']);
                let ls = render_lines(l, n);
                assert(ls.drop_last() =~= render_lines(l, s));
                assert(set_slot(partial(l, s), s as int, c).palette =~= partial(l, n).palette);
            },
            None => {
                assert(render_upto(l, n) =~= render_upto(l, s));
                assert(partial(l, s).palette =~= partial(l, n).palette);
            },
        }
    }
}

/// Writing a palette and reading it back is lossless: the rendered text
/// parses to the very same layer, with no dropped line.
pub proof fn lemma_render_round_trip(l: LayerView)
    requires
        layer_wf(l),
    ensures
        palette_parse(rendered(l)) == (l, Seq::<(int, crate::theme::parse::DropView)>::empty()),
{
    lemma_render_upto(l, 19);
    assert(lines(rendered(l)) == render_lines(l, 19));
    assert(partial(l, 19).palette =~= l.palette);
    assert(partial(l, 19) == l);
}


// ---------------------------------------------------------------------
// Errors
// ---------------------------------------------------------------------

/// Why a `themes` sub-action failed.
#[derive(Debug, Clone, PartialEq, Eq)]
pub enum ThemesError {
    /// `install` without a name or `--all`.
    NoInstallTarget,
    /// `install` with both a name and `--all`.
    InstallConflict,
    /// No bundled palette has this name.
    NoBundledPalette(String),
    /// The destination exists and `--force` was not given.
    AlreadyExists(String),
    /// `--source` names no known source.
    UnknownSource(String),
    /// `apply` without any theme.
    NothingToApply,
    /// No installed or bundled theme has this name.
    NotFound(String),
    /// This many sources failed to sync.
    SyncFailed(usize),
}

pub open spec fn themes_error_text(e: ThemesError) -> Seq<char> {
    match e {
        ThemesError::NoInstallTarget => "specify a palette name or pass --all to install every bundled palette"@,
        ThemesError::InstallConflict => "--all conflicts with a named palette"@,
        ThemesError::NoBundledPalette(n) => "no bundled palette named "@ + debug_str(n@),
        ThemesError::AlreadyExists(p) => p@ + " already exists; pass --force to overwrite"@,
        ThemesError::UnknownSource(n) => "unknown source "@ + debug_str(n@) + "; known sources: bundled, gogh"@,
        ThemesError::NothingToApply => "pass a theme name (applies to both modes) or --dark / --light"@,
        ThemesError::NotFound(n) => "no theme named "@ + debug_str(n@)
            + " installed or bundled — try `colorant themes search "@ + n@
            + "` or qualify with a source prefix (e.g. `gogh:"@ + n@ + "`)"@,
        ThemesError::SyncFailed(k) => decimal(k as nat) + " source(s) failed to sync — see warnings above"@,
    }
}

impl ThemesError {
    /// The user-facing message.
    pub fn message(&self) -> (r: String)
        ensures
            r@ == themes_error_text(*self),
    {
        let mut out: Vec<char> = Vec::new();
        match self {
            ThemesError::NoInstallTarget => push_str(
                &mut out,
                "specify a palette name or pass --all to install every bundled palette",
            ),
            ThemesError::InstallConflict => push_str(&mut out, "--all conflicts with a named palette"),
            ThemesError::NoBundledPalette(n) => {
                push_str(&mut out, "no bundled palette named ");
                push_str(&mut out, debug_string(n.as_str()).as_str());
            },
            ThemesError::AlreadyExists(p) => {
                push_str(&mut out, p.as_str());
                push_str(&mut out, " already exists; pass --force to overwrite");
            },
            ThemesError::UnknownSource(n) => {
                push_str(&mut out, "unknown source ");
                push_str(&mut out, debug_string(n.as_str()).as_str());
                push_str(&mut out, "; known sources: bundled, gogh");
            },
            ThemesError::NothingToApply => push_str(
                &mut out,
                "pass a theme name (applies to both modes) or --dark / --light",
            ),
            ThemesError::NotFound(n) => {
                push_str(&mut out, "no theme named ");
                push_str(&mut out, debug_string(n.as_str()).as_str());
                push_str(&mut out, " installed or bundled — try `colorant themes search ");
                push_str(&mut out, n.as_str());
                push_str(&mut out, "` or qualify with a source prefix (e.g. `gogh:");
                push_str(&mut out, n.as_str());
                push_str(&mut out, "`)");
            },
            ThemesError::SyncFailed(k) => {
                push_decimal(&mut out, *k);
                push_str(&mut out, " source(s) failed to sync — see warnings above");
            },
        }
        string_of(&out)
    }
}

fn owned(s: &str) -> (r: String)
    ensures
        r@ == s@,
{
    string_of(&chars_of(s))
}

// ---------------------------------------------------------------------
// Sources and destinations
// ---------------------------------------------------------------------

/// Where the palette called `name` is installed:
/// `<base_theme_dir>/<name>.colorant`.
pub fn dest_path(base_theme_dir: &str, name: &str) -> (r: String)
    ensures
        r@ == join_path(base_theme_dir@, palette_file_name(name@)),
{
    let mut file = chars_of(name);
    file.push('.');
    push_str(&mut file, PALETTE_EXTENSION);
    join(base_theme_dir, string_of(&file).as_str())
}

/// The sources a `--source` filter selects: the named one, or every
/// source without a filter.
pub fn resolve_sources(source_filter: Option<&str>) -> (r: Result<Vec<Source>, ThemesError>)
    ensures
        match source_filter {
            None => r matches Ok(v) && v@ == all_sources(),
            Some(n) => match source_of(n@) {
                Some(s) => r matches Ok(v) && v@ == seq![s],
                None => r matches Err(ThemesError::UnknownSource(m)) && m@ == n@,
            },
        },
{
    match source_filter {
        None => Ok(Source::all()),
        Some(n) => match Source::parse(n) {
            Some(s) => {
                let v = vec![s];
                assert(v@ =~= seq![s]);
                Ok(v)
            },
            None => Err(ThemesError::UnknownSource(owned(n))),
        },
    }
}

// ---------------------------------------------------------------------
// install
// ---------------------------------------------------------------------

/// What `themes install` was asked for.
#[derive(Debug, Clone, PartialEq, Eq)]
pub enum InstallTarget {
    /// One bundled palette.
    One(String),
    /// Every bundled palette.
    All,
}

/// Check the `install` arguments: a name or `--all`, not both, not
/// neither. (The argument parser already rejects both together; the
/// check stays for callers that bypass it.)
pub fn run_install(name: Option<&str>, all: bool) -> (r: Result<InstallTarget, ThemesError>)
    ensures
        match (name, all) {
            (None, false) => r == Err::<InstallTarget, ThemesError>(ThemesError::NoInstallTarget),
            (Some(n), false) => r matches Ok(InstallTarget::One(m)) && m@ == n@,
            (None, true) => r == Ok::<InstallTarget, ThemesError>(InstallTarget::All),
            (Some(_), true) => r == Err::<InstallTarget, ThemesError>(ThemesError::InstallConflict),
        },
{
    match (name, all) {
        (None, false) => Err(ThemesError::NoInstallTarget),
        (Some(n), false) => Ok(InstallTarget::One(owned(n))),
        (None, true) => Ok(InstallTarget::All),
        (Some(_), true) => Err(ThemesError::InstallConflict),
    }
}

/// Whether a palette may be written to `dest`: an existing file is only
/// replaced with `force`.
pub fn write_palette(dest: &str, dest_exists: bool, force: bool) -> (r: Result<(), ThemesError>)
    ensures
        dest_exists && !force ==> (r matches Err(ThemesError::AlreadyExists(p)) && p@ == dest@),
        !(dest_exists && !force) ==> r is Ok,
{
    if dest_exists && !force {
        return Err(ThemesError::AlreadyExists(owned(dest)));
    }
    Ok(())
}

/// Install one bundled palette: its destination and contents, or why not.
/// A name the catalog lacks is an error; so is an existing destination
/// without `force` (naming one palette, the user should hear about the
/// conflict). `dest_exists` tells whether `dest_path(base, name)` exists.
pub fn install_one(base_theme_dir: &str, name: &str, force: bool, dest_exists: bool) -> (r: Result<
    (String, &'static str),
    ThemesError,
>)
    ensures
        match lookup(catalog(), name@) {
            None => r matches Err(ThemesError::NoBundledPalette(n)) && n@ == name@,
            Some(c) => if dest_exists && !force {
                r matches Err(ThemesError::AlreadyExists(p)) && p@ == join_path(
                    base_theme_dir@,
                    palette_file_name(name@),
                )
            } else {
                r matches Ok(w) && w.0@ == join_path(base_theme_dir@, palette_file_name(name@))
                    && w.1@ == c
            },
        },
{
    let content = match bundled_content(name) {
        Some(c) => c,
        None => return Err(ThemesError::NoBundledPalette(owned(name))),
    };
    let dest = dest_path(base_theme_dir, name);
    write_palette(dest.as_str(), dest_exists, force)?;
    Ok((dest, content))
}

/// One step of `install --all`.
#[derive(Debug, Clone, PartialEq, Eq)]
pub enum InstallStep {
    /// Leave the existing file alone.
    Skip(String),
    /// Write the contents to the path.
    Write(String, &'static str),
}

/// What `install --all` does: one step per bundled palette, in catalog
/// order, and the counts it reports.
pub struct InstallAllPlan {
    pub steps: Vec<InstallStep>,
    pub installed: usize,
    pub overwritten: usize,
    pub skipped: usize,
}

/// `install --all` is a batch: an existing file is skipped without
/// `force` (rather than an error as for one name) and overwritten with it.
pub open spec fn all_step(base: Seq<char>, entry: (Seq<char>, Seq<char>), exists: bool, force: bool) -> (
    bool,
    Seq<char>,
    Seq<char>,
) {
    (exists && !force, join_path(base, palette_file_name(entry.0)), entry.1)
}

pub open spec fn step_view(s: InstallStep) -> (bool, Seq<char>, Seq<char>) {
    match s {
        InstallStep::Skip(p) => (true, p@, Seq::empty()),
        InstallStep::Write(p, c) => (false, p@, c@),
    }
}

pub open spec fn count_true(flags: Seq<bool>) -> nat
    decreases flags.len(),
{
    if flags.len() == 0 {
        0
    } else {
        count_true(flags.drop_last()) + if flags.last() {
            1nat
        } else {
            0nat
        }
    }
}

/// Plan `install --all`. `exists[i]` tells whether the i-th bundled
/// palette's destination already exists.
pub fn install_all(base_theme_dir: &str, force: bool, exists: &[bool]) -> (r: InstallAllPlan)
    requires
        exists@.len() == catalog().len(),
    ensures
        r.steps@.len() == catalog().len(),
        forall|i: int|
            0 <= i < catalog().len() ==> {
                let s = step_view(#[trigger] r.steps@[i]);
                let want = all_step(base_theme_dir@, catalog()[i], exists@[i], force);
                &&& s.0 == want.0
                &&& s.1 == want.1
                &&& !s.0 ==> s.2 == want.2
            },
        r.skipped == (if force {
            0
        } else {
            count_true(exists@)
        }),
        r.overwritten == (if force {
            count_true(exists@)
        } else {
            0
        }),
        r.installed + r.skipped == catalog().len(),
{
    let all = bundled_themes();
    let mut steps: Vec<InstallStep> = Vec::new();
    let mut installed: usize = 0;
    let mut overwritten: usize = 0;
    let mut skipped: usize = 0;
    let mut i: usize = 0;
    while i < all.len()
        invariant
            i <= all.len(),
            pairs_view(all@) == catalog(),
            exists@.len() == catalog().len(),
            steps@.len() == i,
            forall|j: int|
                0 <= j < i ==> {
                    let s = step_view(#[trigger] steps@[j]);
                    let want = all_step(base_theme_dir@, catalog()[j], exists@[j], force);
                    &&& s.0 == want.0
                    &&& s.1 == want.1
                    &&& !s.0 ==> s.2 == want.2
                },
            skipped == (if force {
                0
            } else {
                count_true(exists@.take(i as int))
            }),
            overwritten == (if force {
                count_true(exists@.take(i as int))
            } else {
                0
            }),
            installed + skipped == i,
            overwritten <= i,
        decreases all.len() - i,
    {
        let (name, content) = all[i];
        assert(catalog()[i as int] == (name@, content@));
        let dest = dest_path(base_theme_dir, name);
        assert(exists@.take(i + 1).drop_last() =~= exists@.take(i as int));
        if exists[i] {
            if !force {
                steps.push(InstallStep::Skip(dest));
                skipped = skipped + 1;
                i = i + 1;
                continue;
            }
            overwritten = overwritten + 1;
        }
        steps.push(InstallStep::Write(dest, content));
        installed = installed + 1;
        i = i + 1;
    }
    assert(exists@.take(all.len() as int) =~= exists@);
    InstallAllPlan { steps, installed, overwritten, skipped }
}

/// The closing line of `install --all`.
pub fn install_all_summary(plan: &InstallAllPlan) -> (r: String)
    ensures
        r@ == "installed "@ + decimal(plan.installed as nat) + " themes ("@ + decimal(
            plan.overwritten as nat,
        ) + " overwritten, "@ + decimal(plan.skipped as nat) + " skipped)"@,
{
    let mut out = chars_of("installed ");
    push_decimal(&mut out, plan.installed);
    push_str(&mut out, " themes (");
    push_decimal(&mut out, plan.overwritten);
    push_str(&mut out, " overwritten, ");
    push_decimal(&mut out, plan.skipped);
    push_str(&mut out, " skipped)");
    string_of(&out)
}

// ---------------------------------------------------------------------
// apply
// ---------------------------------------------------------------------

/// What `themes apply` must do to have a theme installed.
#[derive(Debug, Clone, PartialEq, Eq)]
pub enum ApplyInstall {
    /// An explicit source: fetch the theme from it and (re)write `dest`,
    /// warning first when that replaces an existing file.
    Fetch { source: Source, dest: String, overwrites: bool },
    /// The theme is already installed.
    Installed,
    /// Write the bundled palette's contents to `dest`.
    WriteBundled { dest: String, content: &'static str },
}

/// Decide how `apply` gets the theme `name` onto disk. With an explicit
/// source prefix the theme is always fetched and (re)installed, so the
/// disk matches the chosen source. Without one the lookup order is
/// installed, then bundled; a remote source must be named explicitly (an
/// implicit fetch would be a network surprise). `dest_is_file` tells
/// whether `dest_path(base, name)` is a file.
pub fn install_for_apply(
    base_theme_dir: &str,
    source_hint: Option<Source>,
    name: &str,
    dest_is_file: bool,
) -> (r: Result<ApplyInstall, ThemesError>)
    ensures
        ({
            let dest = join_path(base_theme_dir@, palette_file_name(name@));
            match source_hint {
                Some(s) => r matches Ok(ApplyInstall::Fetch { source, dest: d, overwrites }) && source
                    == s && d@ == dest && overwrites == dest_is_file,
                None => if dest_is_file {
                    r == Ok::<ApplyInstall, ThemesError>(ApplyInstall::Installed)
                } else {
                    match lookup(catalog(), name@) {
                        Some(c) => r matches Ok(ApplyInstall::WriteBundled { dest: d, content })
                            && d@ == dest && content@ == c,
                        None => r matches Err(ThemesError::NotFound(n)) && n@ == name@,
                    }
                },
            }
        }),
{
    let dest = dest_path(base_theme_dir, name);
    if let Some(source) = source_hint {
        return Ok(ApplyInstall::Fetch { source, dest, overwrites: dest_is_file });
    }
    if dest_is_file {
        return Ok(ApplyInstall::Installed);
    }
    match bundled_content(name) {
        Some(content) => Ok(ApplyInstall::WriteBundled { dest, content }),
        None => Err(ThemesError::NotFound(owned(name))),
    }
}

/// `themes apply` needs at least one theme.
pub fn run_apply(name: Option<&str>, dark: Option<&str>, light: Option<&str>) -> (r: Result<
    (),
    ThemesError,
>)
    ensures
        (name is None && dark is None && light is None) ==> r == Err::<(), ThemesError>(
            ThemesError::NothingToApply,
        ),
        !(name is None && dark is None && light is None) ==> r is Ok,
{
    if name.is_none() && dark.is_none() && light.is_none() {
        return Err(ThemesError::NothingToApply);
    }
    Ok(())
}

pub open spec fn opt_line(prefix: Seq<char>, n: Option<&str>) -> Seq<char> {
    match n {
        Some(v) => "  "@ + prefix + v@ + seq!['\n'],
        None => Seq::empty(),
    }
}

fn push_opt_line(out: &mut Vec<char>, prefix: &str, n: Option<&str>)
    ensures
        final(out)@ == old(out)@ + opt_line(prefix@, n),
{
    match n {
        Some(v) => {
            push_str(out, "  ");
            push_str(out, prefix);
            push_str(out, v);
            out.push('\n');
        },
        None => {
            assert(old(out)@ + Seq::<char>::empty() =~= old(out)@);
        },
    }
}

/// What `themes apply` prints after writing the rc.
pub fn apply_summary(rc_path: &str, both: Option<&str>, dark: Option<&str>, light: Option<&str>) -> (r:
    String)
    ensures
        r@ == "Updated "@ + rc_path@ + seq!['\n'] + opt_line("extends = "@, both) + opt_line(
            "extends.dark = "@,
            dark,
        ) + opt_line("extends.light = "@, light),
{
    let mut out = chars_of("Updated ");
    push_str(&mut out, rc_path);
    out.push('\n');
    push_opt_line(&mut out, "extends = ", both);
    push_opt_line(&mut out, "extends.dark = ", dark);
    push_opt_line(&mut out, "extends.light = ", light);
    string_of(&out)
}

// ---------------------------------------------------------------------
// list, search, sync
// ---------------------------------------------------------------------

/// `[<source>] <name>`, marked when installed.
pub open spec fn listing_text(source: Source, name: Seq<char>, installed: bool) -> Seq<char> {
    seq!['['] + source_name(source) + "] "@ + name + if installed {
        " (installed)"@
    } else {
        Seq::empty()
    }
}

/// One line of `themes list` / `themes search` (without its line feed).
pub fn listing_line(source: Source, name: &str, installed: bool) -> (r: String)
    ensures
        r@ == listing_text(source, name@, installed),
{
    let mut out: Vec<char> = Vec::new();
    out.push('[');
    push_str(&mut out, source.name());
    push_str(&mut out, "] ");
    push_str(&mut out, name);
    if installed {
        push_str(&mut out, " (installed)");
    }
    string_of(&out)
}

/// Whether `themes search <query>` matches `name`: a case-insensitive
/// (Unicode lowercase) substring match.
pub fn matches_query(name: &str, query: &str) -> (r: bool)
    ensures
        r == contains_seq(unicode_lower(name@), unicode_lower(query@)),
{
    let n = to_lowercase(name);
    let q = to_lowercase(query);
    contains_chars(&chars_of(n.as_str()), &chars_of(q.as_str()))
}

/// The lines `themes list` prints for one source's `names`, where
/// `installed[i]` tells whether the i-th name's palette is installed;
/// with `installed_only`, names not installed are left out.
pub open spec fn list_text(
    source: Source,
    names: Seq<Seq<char>>,
    installed: Seq<bool>,
    installed_only: bool,
) -> Seq<Seq<char>>
    decreases names.len(),
{
    if names.len() == 0 {
        Seq::empty()
    } else {
        let prev = list_text(source, names.drop_last(), installed.drop_last(), installed_only);
        let flag = installed[names.len() - 1];
        if installed_only && !flag {
            prev
        } else {
            prev.push(listing_text(source, names.last(), flag))
        }
    }
}

/// The lines `themes search <query>` prints for one source: the names
/// that match, each marked when installed.
pub open spec fn search_text(
    source: Source,
    names: Seq<Seq<char>>,
    installed: Seq<bool>,
    query: Seq<char>,
) -> Seq<Seq<char>>
    decreases names.len(),
{
    if names.len() == 0 {
        Seq::empty()
    } else {
        let prev = search_text(source, names.drop_last(), installed.drop_last(), query);
        if contains_seq(unicode_lower(names.last()), unicode_lower(query)) {
            prev.push(listing_text(source, names.last(), installed[names.len() - 1]))
        } else {
            prev
        }
    }
}

/// `themes list` for one source.
pub fn list_lines(source: Source, names: &[String], installed: &[bool], installed_only: bool) -> (r:
    Vec<String>)
    requires
        names@.len() == installed@.len(),
    ensures
        views(r@) == list_text(source, views(names@), installed@, installed_only),
{
    let mut out: Vec<String> = Vec::new();
    let mut i: usize = 0;
    while i < names.len()
        invariant
            i <= names@.len(),
            names@.len() == installed@.len(),
            views(out@) == list_text(
                source,
                views(names@).take(i as int),
                installed@.take(i as int),
                installed_only,
            ),
        decreases names@.len() - i,
    {
        assert(views(names@).take(i + 1).drop_last() =~= views(names@).take(i as int));
        assert(installed@.take(i + 1).drop_last() =~= installed@.take(i as int));
        assert(views(names@).take(i + 1).last() == names@[i as int]@);
        if !(installed_only && !installed[i]) {
            let line = listing_line(source, names[i].as_str(), installed[i]);
            let ghost before = views(out@);
            out.push(line);
            assert(views(out@) =~= before.push(listing_text(source, names@[i as int]@, installed@[i as int])));
        }
        i = i + 1;
    }
    assert(views(names@).take(names@.len() as int) =~= views(names@));
    assert(installed@.take(installed@.len() as int) =~= installed@);
    out
}

/// `themes search <query>` for one source.
pub fn search_lines(source: Source, names: &[String], installed: &[bool], query: &str) -> (r: Vec<
    String,
>)
    requires
        names@.len() == installed@.len(),
    ensures
        views(r@) == search_text(source, views(names@), installed@, query@),
{
    let mut out: Vec<String> = Vec::new();
    let mut i: usize = 0;
    while i < names.len()
        invariant
            i <= names@.len(),
            names@.len() == installed@.len(),
            views(out@) == search_text(
                source,
                views(names@).take(i as int),
                installed@.take(i as int),
                query@,
            ),
        decreases names@.len() - i,
    {
        assert(views(names@).take(i + 1).drop_last() =~= views(names@).take(i as int));
        assert(installed@.take(i + 1).drop_last() =~= installed@.take(i as int));
        assert(views(names@).take(i + 1).last() == names@[i as int]@);
        if matches_query(names[i].as_str(), query) {
            let line = listing_line(source, names[i].as_str(), installed[i]);
            let ghost before = views(out@);
            out.push(line);
            assert(views(out@) =~= before.push(listing_text(source, names@[i as int]@, installed@[i as int])));
        }
        i = i + 1;
    }
    assert(views(names@).take(names@.len() as int) =~= views(names@));
    assert(installed@.take(installed@.len() as int) =~= installed@);
    out
}

/// The line `themes search` prints when nothing matched.
pub fn no_match_line(query: &str) -> (r: String)
    ensures
        r@ == "no themes matched "@ + debug_str(query@),
{
    let mut out = chars_of("no themes matched ");
    push_str(&mut out, debug_string(query).as_str());
    string_of(&out)
}

/// The sources `themes sync` refreshes, in order: every remote one of
/// `sources` (`Bundled` has nothing to sync).
pub open spec fn remote_sources(sources: Seq<Source>) -> Seq<Source>
    decreases sources.len(),
{
    if sources.len() == 0 {
        Seq::empty()
    } else if sources.last() == Source::Bundled {
        remote_sources(sources.drop_last())
    } else {
        remote_sources(sources.drop_last()).push(sources.last())
    }
}

pub fn sync_sources(sources: &[Source]) -> (r: Vec<Source>)
    ensures
        r@ == remote_sources(sources@),
{
    let mut out: Vec<Source> = Vec::new();
    let mut i: usize = 0;
    while i < sources.len()
        invariant
            i <= sources@.len(),
            out@ == remote_sources(sources@.take(i as int)),
        decreases sources@.len() - i,
    {
        assert(sources@.take(i + 1).drop_last() =~= sources@.take(i as int));
        if sources[i] != Source::Bundled {
            out.push(sources[i]);
        }
        i = i + 1;
    }
    assert(sources@.take(sources@.len() as int) =~= sources@);
    out
}

/// `themes sync` fails when any source failed, so `themes sync && ...`
/// does the right thing in scripts.
pub fn run_sync(failed: usize) -> (r: Result<(), ThemesError>)
    ensures
        failed == 0 ==> r is Ok,
        failed > 0 ==> r == Err::<(), ThemesError>(ThemesError::SyncFailed(failed)),
{
    if failed > 0 {
        return Err(ThemesError::SyncFailed(failed));
    }
    Ok(())
}

} // verus!
