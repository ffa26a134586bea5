use colorant::commands::apply::{apply_output, emit_themed};
use colorant::commands::doctor::{check, format_reason, write_diagnostics, PaletteProbe};
use colorant::commands::show::{color_name, format_slot, hex_to_rgb, mode_label, print_layer, resolve_layer};
use colorant::commands::themes::{
    apply_summary, dest_path, install_all, install_for_apply, install_one, listing_line,
    matches_query, no_match_line, render_palette, resolve_sources, run_apply, run_install,
    run_sync, write_palette, ApplyInstall, InstallStep, InstallTarget, ThemesError,
};
use colorant::terminal::style::Style;
use colorant::terminal::utils::Terminal;
use colorant::theme::model::{HexColor, Mode, ParsedPalette, ThemeLayer};
use colorant::theme::parse::DropReason;
use colorant::theme::resolve::Resolver;
use colorant::theme::source::Source;

#[test]
fn hex_to_rgb_parses_canonical_form() {
    assert_eq!(hex_to_rgb("#000000"), (0, 0, 0));
    assert_eq!(hex_to_rgb("#abcdef"), (0xab, 0xcd, 0xef));
    assert_eq!(hex_to_rgb("#ffffff"), (0xff, 0xff, 0xff));
}

#[test]
fn set_hex_to_rgb_round_trip() {
    assert_eq!(hex_to_rgb("#abcdef"), (0xab, 0xcd, 0xef));
    assert_eq!(hex_to_rgb("#000000"), (0, 0, 0));
    assert_eq!(hex_to_rgb("#ffffff"), (0xff, 0xff, 0xff));
}

#[test]
fn color_name_pads_for_alignment() {
    assert_eq!(color_name(0), "color0 ");
    assert_eq!(color_name(9), "color9 ");
    assert_eq!(color_name(10), "color10");
    assert_eq!(color_name(15), "color15");
}

#[test]
fn mode_label_covers_every_variant() {
    assert_eq!(mode_label(Mode::Dark), "dark");
    assert_eq!(mode_label(Mode::Light), "light");
    assert_eq!(mode_label(Mode::Unknown), "unknown");
}

#[test]
fn render_palette_emits_set_keys_only() {
    let mut palette = ParsedPalette::default();
    palette.layer.fg = HexColor::parse("#abcdef");
    palette.layer.palette[0] = HexColor::parse("#001122");
    let out = render_palette(&palette);
    assert_eq!(out, "fg = #abcdef\ncolor0 = #001122\n");
}

// ---- further cases -------------------------------------------------

#[test]
fn hex_to_rgb_is_lenient() {
    assert_eq!(hex_to_rgb("#ABCDEF"), (0xab, 0xcd, 0xef));
    assert_eq!(hex_to_rgb("#+fzz"), (0x0f, 0, 0));
    assert_eq!(hex_to_rgb("#1"), (0, 0, 0));
    assert_eq!(hex_to_rgb("#éé"), (0, 0, 0));
}

#[test]
fn format_slot_set_and_unset() {
    let off = Style::for_env(false, false);
    let c = HexColor::parse("#0a0b0c").unwrap();
    assert_eq!(format_slot("fg", Some(&c), off), "fg       #0a0b0c  ████");
    assert_eq!(format_slot("cursor", None, off), "cursor   (unset)      ");
    let on = Style::for_env(true, false);
    assert_eq!(
        format_slot("fg", Some(&c), on),
        "fg       #0a0b0c  \x1b[38;2;10;11;12m████\x1b[0m"
    );
}

#[test]
fn print_layer_lists_all_slots() {
    let mut layer = ThemeLayer::default();
    layer.bg = HexColor::parse("#101010");
    let mut out = String::new();
    print_layer(&mut out, &layer, Style::for_env(false, false), "  ");
    let lines: Vec<&str> = out.lines().collect();
    assert_eq!(lines.len(), 12);
    assert_eq!(lines[1], "  bg       #101010  ████");
    assert_eq!(lines[3], "");
    assert!(lines[4].starts_with("  color0   (unset)"));
    assert!(lines[4].contains("   color8   (unset)"));
}

#[test]
fn resolve_layer_prefers_rc_then_default() {
    let r = Resolver::new("/t".to_string());
    let layer = resolve_layer(&r, Some("fg = #111111\n"), Some("bg = #222222\n"), None, Mode::Dark);
    assert_eq!(layer.fg.unwrap().as_str(), "#111111");
    assert_eq!(layer.bg.unwrap().as_str(), "#222222");
    let d = resolve_layer(&r, None, None, Some("cursor = #333333\n"), Mode::Light);
    assert_eq!(d.cursor.unwrap().as_str(), "#333333");
    assert_eq!(resolve_layer(&r, None, None, None, Mode::Light), ThemeLayer::default());
}

#[test]
fn format_reason_messages() {
    assert_eq!(
        format_reason(&DropReason::MalformedLine),
        "malformed line (expected 'key = value')"
    );
    assert_eq!(
        format_reason(&DropReason::UnknownSection("x".into())),
        "unknown section [x]"
    );
    assert_eq!(format_reason(&DropReason::UnknownKey("k".into())), "unknown key 'k'");
    assert_eq!(
        format_reason(&DropReason::InvalidColor { key: "fg".into(), value: "red".into() }),
        "invalid color 'red' for key 'fg' (expected #rrggbb)"
    );
}

#[test]
fn write_diagnostics_clean_and_dirty() {
    let off = Style::for_env(false, false);
    let mut out = String::new();
    write_diagnostics(&mut out, &[], "  ", off);
    assert_eq!(out, "  No parsing errors.\n");
    let mut out = String::new();
    write_diagnostics(&mut out, &[(3, DropReason::UnknownKey("x".into()))], "  ", off);
    assert_eq!(out, "  Parsing errors:\n    line 3: unknown key 'x'\n");
}

#[test]
fn check_reports_issues_and_palettes() {
    let off = Style::for_env(false, false);
    let r = Resolver::new("/t".to_string());
    let mut out = String::new();
    let n = check(
        &mut out,
        "/p/.colorantrc",
        "extends = nord\nbogus = 1\n",
        &r,
        &PaletteProbe::Read("fg = #000000\nnope = 2\n".to_string()),
        &PaletteProbe::Read("fg = #000000\nnope = 2\n".to_string()),
        off,
    );
    assert_eq!(n, 2);
    assert_eq!(
        out,
        "Checking /p/.colorantrc\n\n  Parsing errors:\n    line 2: unknown key 'bogus'\n\n  Palette(s):\n    dark : extends nord -> /t/nord.colorant\n      Parsing errors:\n        line 2: unknown key 'nope'\n    light: extends nord -> /t/nord.colorant\n      (same palette as above; not re-audited)\n\n  Found 2 issues.\n"
    );
    let mut out = String::new();
    let n = check(&mut out, "rc", "", &r, &PaletteProbe::Missing, &PaletteProbe::Missing, off);
    assert_eq!(n, 0);
    assert!(out.contains("dark : no parent palette (rc's own keys only)"));
    assert!(out.ends_with("  No issues found.\n"));
    let mut out = String::new();
    let n = check(
        &mut out,
        "rc",
        "extends.dark = gone\n",
        &r,
        &PaletteProbe::Missing,
        &PaletteProbe::Missing,
        off,
    );
    assert_eq!(n, 1);
    assert!(out.contains("dark : extends gone -> /t/gone.colorant (NOT FOUND)\n"));
    assert!(out.ends_with("  Found 1 issue.\n"));
}

#[test]
fn apply_output_emits_theme_or_reset() {
    let r = Resolver::new("/t".to_string());
    let out = apply_output(Terminal::ITerm2, &r, Some(("bg = #010203\n", None)), None, Mode::Dark, true, false);
    assert_eq!(out, "\x1b]11;#010203\x07\x1b]1337;SetColors=tab=010203\x07");
    let empty = apply_output(Terminal::Ghostty, &r, Some(("", None)), None, Mode::Dark, true, false);
    assert!(empty.starts_with("\x1b]110\x07"));
    let dflt = apply_output(Terminal::Ghostty, &r, None, Some("fg = #0a0a0a\n"), Mode::Dark, true, false);
    assert_eq!(dflt, "\x1b]10;#0a0a0a\x07");
    let reset = apply_output(Terminal::Ghostty, &r, None, Some("# nothing\n"), Mode::Dark, true, false);
    assert!(reset.starts_with("\x1b]110\x07"));
}

#[test]
fn emit_themed_resets_tab_without_background() {
    let mut layer = ThemeLayer::default();
    layer.fg = HexColor::parse("#111111");
    let mut out = String::new();
    emit_themed(&mut out, Terminal::ITerm2, &layer, true, false);
    assert_eq!(out, "\x1b]10;#111111\x07\x1b]1337;SetColors=tab=default\x07");
    let mut out = String::new();
    emit_themed(&mut out, Terminal::ITerm2, &layer, false, false);
    assert_eq!(out, "\x1b]10;#111111\x07");
}

#[test]
fn themes_paths_and_sources() {
    assert_eq!(dest_path("/t", "nord"), "/t/nord.colorant");
    assert_eq!(resolve_sources(None).unwrap(), vec![Source::Bundled, Source::Gogh]);
    assert_eq!(resolve_sources(Some("gogh")).unwrap(), vec![Source::Gogh]);
    let err = resolve_sources(Some("x")).unwrap_err();
    assert_eq!(err.message(), "unknown source \"x\"; known sources: bundled, gogh");
}

#[test]
fn install_decisions() {
    assert_eq!(run_install(None, false), Err(ThemesError::NoInstallTarget));
    assert_eq!(run_install(Some("nord"), false), Ok(InstallTarget::One("nord".into())));
    assert_eq!(run_install(None, true), Ok(InstallTarget::All));
    assert_eq!(run_install(Some("nord"), true), Err(ThemesError::InstallConflict));
    let (dest, content) = install_one("/t", "nord", false, false).unwrap();
    assert_eq!(dest, "/t/nord.colorant");
    assert!(content.contains("#2e3440"));
    assert_eq!(
        install_one("/t", "nord", false, true).unwrap_err().message(),
        "/t/nord.colorant already exists; pass --force to overwrite"
    );
    assert!(install_one("/t", "nord", true, true).is_ok());
    assert_eq!(
        install_one("/t", "nope", true, false).unwrap_err().message(),
        "no bundled palette named \"nope\""
    );
    assert!(write_palette("/x", true, false).is_err());
    assert!(write_palette("/x", false, false).is_ok());
}

#[test]
fn install_all_skips_or_overwrites() {
    let mut exists = vec![false; 15];
    exists[0] = true;
    let plan = install_all("/t", false, &exists);
    assert_eq!((plan.installed, plan.overwritten, plan.skipped), (14, 0, 1));
    assert_eq!(plan.steps[0], InstallStep::Skip("/t/ayu-dark.colorant".into()));
    let plan = install_all("/t", true, &exists);
    assert_eq!((plan.installed, plan.overwritten, plan.skipped), (15, 1, 0));
    assert_eq!(
        colorant::commands::themes::install_all_summary(&plan),
        "installed 15 themes (1 overwritten, 0 skipped)"
    );
}

#[test]
fn install_for_apply_lookup_order() {
    assert_eq!(install_for_apply("/t", None, "nord", true), Ok(ApplyInstall::Installed));
    match install_for_apply("/t", None, "nord", false).unwrap() {
        ApplyInstall::WriteBundled { dest, .. } => assert_eq!(dest, "/t/nord.colorant"),
        _ => panic!("expected bundled install"),
    }
    assert_eq!(
        install_for_apply("/t", Some(Source::Gogh), "X", true),
        Ok(ApplyInstall::Fetch { source: Source::Gogh, dest: "/t/X.colorant".into(), overwrites: true })
    );
    let err = install_for_apply("/t", None, "zz", false).unwrap_err();
    assert!(err.message().starts_with("no theme named \"zz\" installed or bundled"));
    assert!(err.message().contains("`gogh:zz`"));
}

#[test]
fn apply_arguments_and_summary() {
    assert_eq!(run_apply(None, None, None), Err(ThemesError::NothingToApply));
    assert!(run_apply(None, Some("a"), None).is_ok());
    assert_eq!(
        apply_summary("/p/.colorantrc", Some("a"), None, Some("b")),
        "Updated /p/.colorantrc\n  extends = a\n  extends.light = b\n"
    );
}

#[test]
fn list_search_sync_texts() {
    assert_eq!(listing_line(Source::Gogh, "Nord", true), "[gogh] Nord (installed)");
    assert_eq!(listing_line(Source::Bundled, "nord", false), "[bundled] nord");
    assert!(matches_query("Catppuccin-Mocha", "MOCHA"));
    assert!(!matches_query("nord", "x"));
    assert_eq!(no_match_line("x"), "no themes matched \"x\"");
    assert!(run_sync(0).is_ok());
    assert_eq!(
        run_sync(2).unwrap_err().message(),
        "2 source(s) failed to sync — see warnings above"
    );
}
