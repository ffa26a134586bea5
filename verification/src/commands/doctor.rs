//! `colorant doctor` — diagnose silent failures in colorant config files.
//!
//! Re-parses the target `.colorantrc` with the diagnostics-collecting
//! parser so users see every line that was silently dropped: unknown keys,
//! invalid colors, malformed lines, unknown sections, invalid theme names.
//! For each mode it checks whether the chosen `extends` palette file
//! exists under `base_theme_dir` and, if it does, parses that palette with
//! the same diagnostics so typos in the themes directory aren't hidden
//! either.
//!
//! The report is built here; finding and reading the files is the
//! binary's part, which hands in what it found for each palette.

use crate::terminal::style::{painted_text, Style, GREEN, RED};
use crate::text::{chars_of, decimal, push_all, push_decimal, push_str, string_of};
use crate::theme::model::{name_error_text, parent_name, Mode, ParsedRc, RcView};
use crate::theme::parse::{
    diags_view, palette_parse, parse_palette_str_with_diagnostics, parse_rc_str_with_diagnostics,
    rc_parse, DropReason, DropView,
};
use crate::theme::resolve::{join_path, palette_file_name, Resolver};
use vstd::prelude::*;

verus! {

/// What the binary found at a palette path.
pub enum PaletteProbe {
    /// No file there.
    Missing,
    /// The file exists but could not be read; carries the error text.
    Unreadable(String),
    /// The file's contents.
    Read(String),
}

pub enum ProbeView {
    Missing,
    Unreadable(Seq<char>),
    Read(Seq<char>),
}

impl View for PaletteProbe {
    type V = ProbeView;

    open spec fn view(&self) -> ProbeView {
        match self {
            PaletteProbe::Missing => ProbeView::Missing,
            PaletteProbe::Unreadable(e) => ProbeView::Unreadable(e@),
            PaletteProbe::Read(c) => ProbeView::Read(c@),
        }
    }
}

/// The one-line explanation of a dropped line.
pub open spec fn reason_text(r: DropView) -> Seq<char> {
    match r {
        DropView::MalformedLine => "malformed line (expected 'key = value')"@,
        DropView::UnknownSection(name) => "unknown section ["@ + name + "]"@,
        DropView::UnknownKey(key) => "unknown key '"@ + key + "'"@,
        DropView::InvalidColor { key, value } => "invalid color '"@ + value + "' for key '"@ + key
            + "' (expected #rrggbb)"@,
        DropView::InvalidExtendsName { key, value, error } => "invalid theme name '"@ + value
            + "' for key '"@ + key + "': "@ + name_error_text(error),
    }
}

/// Explain a dropped line. The parser reports a malformed line both when
/// it has no `=` and when the key half is empty, so that message stays
/// neutral between the two.
pub fn format_reason(r: &DropReason) -> (s: String)
    ensures
        s@ == reason_text(r@),
{
    let mut out: Vec<char> = Vec::new();
    match r {
        DropReason::MalformedLine => push_str(&mut out, "malformed line (expected 'key = value')"),
        DropReason::UnknownSection(name) => {
            push_str(&mut out, "unknown section [");
            push_str(&mut out, name.as_str());
            push_str(&mut out, "]");
        },
        DropReason::UnknownKey(key) => {
            push_str(&mut out, "unknown key '");
            push_str(&mut out, key.as_str());
            push_str(&mut out, "'");
        },
        DropReason::InvalidColor { key, value } => {
            push_str(&mut out, "invalid color '");
            push_str(&mut out, value.as_str());
            push_str(&mut out, "' for key '");
            push_str(&mut out, key.as_str());
            push_str(&mut out, "' (expected #rrggbb)");
        },
        DropReason::InvalidExtendsName { key, value, error } => {
            push_str(&mut out, "invalid theme name '");
            push_str(&mut out, value.as_str());
            push_str(&mut out, "' for key '");
            push_str(&mut out, key.as_str());
            push_str(&mut out, "': ");
            let m = error.message();
            push_str(&mut out, m.as_str());
        },
    }
    string_of(&out)
}

/// The issue lines for `diags`, each indented one step past `indent`.
pub open spec fn issue_lines(diags: Seq<(int, DropView)>, indent: Seq<char>, style: Style) -> Seq<
    char,
>
    decreases diags.len(),
{
    if diags.len() == 0 {
        Seq::empty()
    } else {
        let d = diags.last();
        issue_lines(diags.drop_last(), indent, style) + indent + "  "@ + painted_text(
            "line "@ + decimal(d.0 as nat) + ": "@ + reason_text(d.1),
            RED@,
            style.color,
        ) + seq!['\n']
    }
}

/// A `Parsing errors:` block, or a `No parsing errors.` confirmation.
pub open spec fn diagnostics_text(diags: Seq<(int, DropView)>, indent: Seq<char>, style: Style) -> Seq<
    char,
> {
    if diags.len() == 0 {
        indent + painted_text("No parsing errors."@, GREEN@, style.color) + seq!['\n']
    } else {
        indent + "Parsing errors:\n"@ + issue_lines(diags, indent, style)
    }
}

fn append(out: &mut String, v: &Vec<char>)
    ensures
        final(out)@ == old(out)@ + v@,
{
    let mut w = chars_of(out.as_str());
    push_all(&mut w, v);
    *out = string_of(&w);
}

/// Append a `Parsing errors:` block under `indent` when `diags` is not
/// empty, otherwise a `No parsing errors.` confirmation. Individual issues
/// are indented one extra step.
pub fn write_diagnostics(out: &mut String, diags: &[(usize, DropReason)], indent: &str, style: Style)
    ensures
        final(out)@ == old(out)@ + diagnostics_text(diags_view(diags@), indent@, style),
{
    let ghost dv = diags_view(diags@);
    let mut v: Vec<char> = Vec::new();
    if diags.len() == 0 {
        push_str(&mut v, indent);
        let ok = style.green("No parsing errors.").to_string();
        push_str(&mut v, ok.as_str());
        v.push('\n');
        append(out, &v);
        return;
    }
    push_str(&mut v, indent);
    push_str(&mut v, "Parsing errors:\n");
    let ghost head = v@;
    let mut i: usize = 0;
    while i < diags.len()
        invariant
            i <= diags@.len(),
            dv == diags_view(diags@),
            v@ == head + issue_lines(dv.take(i as int), indent@, style),
        decreases diags@.len() - i,
    {
        let (line, reason) = &diags[i];
        let mut msg = chars_of("line ");
        push_decimal(&mut msg, *line);
        push_str(&mut msg, ": ");
        let r = format_reason(reason);
        push_str(&mut msg, r.as_str());
        let msg = string_of(&msg);
        let painted = style.red(msg.as_str()).to_string();
        push_str(&mut v, indent);
        push_str(&mut v, "  ");
        push_str(&mut v, painted.as_str());
        v.push('\n');
        assert(dv.take(i + 1).drop_last() =~= dv.take(i as int));
        assert(dv.take(i + 1).last() == dv[i as int]);
        i = i + 1;
        assert(v@ =~= head + issue_lines(dv.take(i as int), indent@, style));
    }
    assert(dv.take(diags@.len() as int) =~= dv);
    append(out, &v);
}

/// The audit of one palette file: its read failure, or its diagnostics.
/// Returns the text and the number of issues.
pub open spec fn audit_text(path: Seq<char>, probe: ProbeView, style: Style) -> (Seq<char>, nat) {
    match probe {
        ProbeView::Read(content) => {
            let d = palette_parse(content).1;
            (diagnostics_text(d, "      "@, style), d.len())
        },
        ProbeView::Unreadable(e) => (
            "      "@ + painted_text("Could not read palette "@ + path + ": "@ + e, RED@, style.color)
                + seq!['\n'],
            1,
        ),
        ProbeView::Missing => (Seq::empty(), 0),
    }
}

/// Append the audit of the palette at `path`: a read failure counts as a
/// single issue rather than aborting doctor (the rc's own diagnostics are
/// still useful); otherwise its parsing errors are listed and counted.
pub fn audit_palette(out: &mut String, path: &str, probe: &PaletteProbe, style: Style) -> (n: usize)
    ensures
        final(out)@ == old(out)@ + audit_text(path@, probe@, style).0,
        n == audit_text(path@, probe@, style).1,
{
    match probe {
        PaletteProbe::Read(content) => {
            let (_palette, diags) = parse_palette_str_with_diagnostics(content.as_str());
            write_diagnostics(out, diags.as_slice(), "      ", style);
            diags.len()
        },
        PaletteProbe::Unreadable(e) => {
            let mut msg = chars_of("Could not read palette ");
            push_str(&mut msg, path);
            push_str(&mut msg, ": ");
            push_str(&mut msg, e.as_str());
            let msg = string_of(&msg);
            let mut v = chars_of("      ");
            let painted = style.red(msg.as_str()).to_string();
            push_str(&mut v, painted.as_str());
            v.push('\n');
            append(out, &v);
            1
        },
        PaletteProbe::Missing => {
            assert(old(out)@ + Seq::<char>::empty() =~= old(out)@);
            0
        },
    }
}

/// One mode's row of the palette report: the text, the number of issues,
/// and the palettes audited so far.
pub open spec fn mode_text(
    rc: RcView,
    mode: Mode,
    label: Seq<char>,
    base_dir: Seq<char>,
    probe: ProbeView,
    audited: Seq<Seq<char>>,
    style: Style,
) -> (Seq<char>, nat, Seq<Seq<char>>) {
    match parent_name(rc, mode) {
        None => ("    "@ + label + ": no parent palette (rc's own keys only)\n"@, 0, audited),
        Some(name) => {
            let path = join_path(base_dir, palette_file_name(name));
            let head = "    "@ + label + ": extends "@ + name + " -> "@ + path;
            match probe {
                ProbeView::Missing => (
                    head + " "@ + painted_text("(NOT FOUND)"@, RED@, style.color) + seq!['\n'],
                    1,
                    audited,
                ),
                _ => if audited.contains(path) {
                    (
                        head + seq!['\n'] + "      (same palette as above; not re-audited)\n"@,
                        0,
                        audited,
                    )
                } else {
                    (
                        head + seq!['\n'] + audit_text(path, probe, style).0,
                        audit_text(path, probe, style).1,
                        audited.push(path),
                    )
                },
            }
        },
    }
}

fn already_audited(audited: &Vec<String>, path: &str) -> (r: bool)
    ensures
        r == crate::walk::string_views(audited@).contains(path@),
{
    let p = chars_of(path);
    let ghost seen = crate::walk::string_views(audited@);
    let mut i: usize = 0;
    while i < audited.len()
        invariant
            i <= audited@.len(),
            p@ == path@,
            seen == crate::walk::string_views(audited@),
            forall|j: int| 0 <= j < i ==> seen[j] != path@,
        decreases audited@.len() - i,
    {
        let a = chars_of(audited[i].as_str());
        if crate::text::eq_chars(&a, &p) {
            assert(seen[i as int] == path@);
            return true;
        }
        i = i + 1;
    }
    false
}

/// Append one mode's row: the palette it extends and whether that file
/// exists, then the palette's own audit. A missing palette is one issue;
/// "no parent palette" is none (an rc may set only its own keys). A
/// palette already audited through the other mode is not audited again.
/// `probe` is what the binary found at `resolver.parent_path(rc, mode)`.
pub fn report_mode(
    out: &mut String,
    rc: &ParsedRc,
    mode: Mode,
    label: &str,
    resolver: &Resolver,
    probe: &PaletteProbe,
    audited: &mut Vec<String>,
    style: Style,
) -> (n: usize)
    ensures
        ({
            let t = mode_text(
                rc@,
                mode,
                label@,
                resolver.base_theme_dir@,
                probe@,
                crate::walk::string_views(old(audited)@),
                style,
            );
            &&& final(out)@ == old(out)@ + t.0
            &&& n == t.1
            &&& crate::walk::string_views(final(audited)@) == t.2
        }),
{
    let name = match rc.parent_for(mode) {
        None => {
            let mut v = chars_of("    ");
            push_str(&mut v, label);
            push_str(&mut v, ": no parent palette (rc's own keys only)\n");
            append(out, &v);
            return 0;
        },
        Some(n) => n,
    };
    let path = resolver.palette_path(name);
    let mut v = chars_of("    ");
    push_str(&mut v, label);
    push_str(&mut v, ": extends ");
    push_str(&mut v, name.as_str());
    push_str(&mut v, " -> ");
    push_str(&mut v, path.as_str());
    if let PaletteProbe::Missing = probe {
        proof {
            reveal_strlit(" ");
        }
        v.push(' ');
        let nf = style.red("(NOT FOUND)").to_string();
        push_str(&mut v, nf.as_str());
        v.push('\n');
        append(out, &v);
        return 1;
    }
    v.push('\n');
    if already_audited(audited, path.as_str()) {
        push_str(&mut v, "      (same palette as above; not re-audited)\n");
        append(out, &v);
        return 0;
    }
    append(out, &v);
    let ghost before = audited@;
    let p2 = string_of(&chars_of(path.as_str()));
    audited.push(p2);
    assert(crate::walk::string_views(audited@) =~= crate::walk::string_views(before).push(path@));
    audit_palette(out, path.as_str(), probe, style)
}

/// The closing line: clean, or how many issues.
pub open spec fn summary_text(issues: nat, style: Style) -> Seq<char> {
    if issues == 0 {
        "  "@ + painted_text("No issues found."@, GREEN@, style.color) + seq!['\n']
    } else {
        "  "@ + painted_text(
            "Found "@ + decimal(issues) + " issue"@ + (if issues == 1 {
                Seq::empty()
            } else {
                seq!['s']
            }) + "."@,
            RED@,
            style.color,
        ) + seq!['\n']
    }
}

/// The whole report for an rc: its own diagnostics, then the palette each
/// mode extends (only dark and light; `Unknown` only arises when the OS
/// can't be asked), then the summary. Returns the text and the issues.
pub open spec fn check_text(
    path: Seq<char>,
    content: Seq<char>,
    base_dir: Seq<char>,
    dark: ProbeView,
    light: ProbeView,
    style: Style,
) -> (Seq<char>, nat) {
    let (rc, diags) = rc_parse(content);
    let d = mode_text(rc, Mode::Dark, "dark "@, base_dir, dark, Seq::empty(), style);
    let l = mode_text(rc, Mode::Light, "light"@, base_dir, light, d.2, style);
    let issues = diags.len() + d.1 + l.1;
    (
        "Checking "@ + path + "\n\n"@ + diagnostics_text(diags, "  "@, style) + "\n  Palette(s):\n"@
            + d.0 + l.0 + "\n"@ + summary_text(issues, style),
        issues,
    )
}

/// Append the report for the rc at `path` (its text is `content`) and
/// return the number of issues (as a wide count: three files' worth of
/// diagnostics). `dark` and `light` are what the binary
/// found at `resolver.parent_path(rc, Mode::Dark)` / `Mode::Light`
/// (`Missing` when the rc names no parent for that mode).
#[verifier::rlimit(40)]
#[verifier::spinoff_prover]
pub fn check(
    out: &mut String,
    path: &str,
    content: &str,
    resolver: &Resolver,
    dark: &PaletteProbe,
    light: &PaletteProbe,
    style: Style,
) -> (n: u128)
    ensures
        final(out)@ == old(out)@ + check_text(
            path@,
            content@,
            resolver.base_theme_dir@,
            dark@,
            light@,
            style,
        ).0,
        n == check_text(path@, content@, resolver.base_theme_dir@, dark@, light@, style).1,
{
    let (rc, diags) = parse_rc_str_with_diagnostics(content);
    let mut v = chars_of("Checking ");
    push_str(&mut v, path);
    push_str(&mut v, "\n\n");
    append(out, &v);
    write_diagnostics(out, diags.as_slice(), "  ", style);
    append(out, &chars_of("\n  Palette(s):\n"));
    let mut audited: Vec<String> = Vec::new();
    assert(crate::walk::string_views(audited@) =~= Seq::<Seq<char>>::empty());
    let nd = report_mode(out, &rc, Mode::Dark, "dark ", resolver, dark, &mut audited, style);
    let nl = report_mode(out, &rc, Mode::Light, "light", resolver, light, &mut audited, style);
    let issues = diags.len() as u128 + nd as u128 + nl as u128;
    append(out, &chars_of("\n"));
    let mut s: Vec<char> = Vec::new();
    push_str(&mut s, "  ");
    if issues == 0 {
        let ok = style.green("No issues found.").to_string();
        push_str(&mut s, ok.as_str());
    } else {
        let mut msg = chars_of("Found ");
        crate::text::push_decimal_wide(&mut msg, issues);
        push_str(&mut msg, " issue");
        if issues != 1 {
            msg.push('s');
        }
        push_str(&mut msg, ".");
        let msg = string_of(&msg);
        let bad = style.red(msg.as_str()).to_string();
        push_str(&mut s, bad.as_str());
    }
    s.push('\n');
    append(out, &s);
    issues
}

/// What `doctor` reports, as its one issue, when no rc is given and none
/// is found walking up from `cwd`.
pub fn missing_rc_line(cwd: &str) -> (r: String)
    ensures
        r@ == "No "@ + crate::config::THEME_FILE_NAME@ + " found while walking up from "@ + cwd@,
{
    let mut out = chars_of("No ");
    push_str(&mut out, crate::config::THEME_FILE_NAME);
    push_str(&mut out, " found while walking up from ");
    push_str(&mut out, cwd);
    string_of(&out)
}

/// The palette a mode inherits from, as a path under `base_dir`.
pub open spec fn parent_file(rc: RcView, mode: Mode, base_dir: Seq<char>) -> Option<Seq<char>> {
    match parent_name(rc, mode) {
        Some(n) => Some(join_path(base_dir, palette_file_name(n))),
        None => None,
    }
}

/// The issues one palette contributes when it is audited: none without a
/// parent, one when the file is missing or unreadable, else its dropped
/// lines.
pub open spec fn palette_issues(file: Option<Seq<char>>, probe: ProbeView) -> nat {
    match file {
        None => 0,
        Some(_) => match probe {
            ProbeView::Missing => 1,
            ProbeView::Unreadable(_) => 1,
            ProbeView::Read(c) => palette_parse(c).1.len(),
        },
    }
}

/// Doctor counts the rc's own dropped lines plus each distinct palette's
/// issues: the light palette is skipped as "not re-audited" exactly when
/// it is the very file the dark row already audited, and is counted in
/// full otherwise.
pub proof fn lemma_doctor_counts_each_palette_once(
    path: Seq<char>,
    content: Seq<char>,
    base_dir: Seq<char>,
    dark: ProbeView,
    light: ProbeView,
    style: Style,
)
    ensures
        ({
            let rc = rc_parse(content).0;
            let pd = parent_file(rc, Mode::Dark, base_dir);
            let pl = parent_file(rc, Mode::Light, base_dir);
            let same = pl is Some && pl == pd && !(dark is Missing) && !(light is Missing);
            let l = mode_text(rc, Mode::Light, "light"@, base_dir, light, mode_text(rc, Mode::Dark, "dark "@, base_dir, dark, Seq::empty(), style).2, style);
            &&& check_text(path, content, base_dir, dark, light, style).1 == rc_parse(content).1.len()
                + palette_issues(pd, dark) + if same {
                0
            } else {
                palette_issues(pl, light)
            }
            &&& same ==> l.0 == "    "@ + "light"@ + ": extends "@ + parent_name(rc, Mode::Light)->0
                + " -> "@ + pl->0 + seq!['\n'] + "      (same palette as above; not re-audited)\n"@
            &&& !same && pl is Some && !(light is Missing) ==> l.1 == palette_issues(pl, light)
        }),
{
    let rc = rc_parse(content).0;
    let pd = parent_file(rc, Mode::Dark, base_dir);
    let pl = parent_file(rc, Mode::Light, base_dir);
    let d = mode_text(rc, Mode::Dark, "dark "@, base_dir, dark, Seq::empty(), style);
    let empty_paths = Seq::<Seq<char>>::empty();
    assert(!empty_paths.contains(pl.unwrap_or(Seq::empty())));
    if pd is Some && !(dark is Missing) {
        assert(d.2 == empty_paths.push(pd->0));
        assert(d.2.contains(pd->0)) by {
            assert(d.2[0] == pd->0);
        }
        if pl is Some && pl != pd {
            assert(!d.2.contains(pl->0)) by {
                if d.2.contains(pl->0) {
                    let j = choose|j: int| 0 <= j < d.2.len() && d.2[j] == pl->0;
                    assert(d.2[j] == pd->0);
                }
            }
        }
    } else {
        assert(d.2 == empty_paths);
        if pl is Some {
            assert(!d.2.contains(pl->0));
        }
    }
}

} // verus!
