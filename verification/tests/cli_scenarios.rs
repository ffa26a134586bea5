use colorant::commands::apply::apply_output;
use colorant::commands::picks::Picks;
use colorant::commands::themes::tui::{
    no_origin_message, plan_apply, App, ApplyStep, PaletteState, SourceFilter, ThemeEntry,
};
use colorant::commands::themes::{
    dest_path, install_all, install_all_summary, install_for_apply, install_one, list_lines,
    listing_line, matches_query, no_match_line, run_apply, run_install, search_lines, sync_sources,
    InstallStep,
};
use colorant::config::{config_dir_for, Config};
use colorant::commands::doctor::missing_rc_line;
use colorant::commands::show::heading;
use colorant::shell::zsh::hook;
use colorant::terminal::style::Style;
use colorant::terminal::utils::detect_from;
use colorant::theme::resolve::Resolver;
use colorant::theme::bundled::bundled_names;
use colorant::theme::model::{Mode, ThemeLayer, ThemeName};
use colorant::theme::source::Source;

fn picker(themes: Vec<ThemeEntry>, picks: Picks) -> App {
    let mut app = App {
        themes,
        visible: Vec::new(),
        selected: None,
        picks,
        source_filter: SourceFilter::All,
        filter: String::new(),
        editing_filter: false,
        rc_path: "/work/.colorantrc".to_string(),
        themes_dir: "/work/themes".to_string(),
        applied: None,
    };
    app.recompute_visible();
    app
}

fn installed_theme(name: &str) -> ThemeEntry {
    ThemeEntry {
        name: ThemeName::parse(name).unwrap(),
        origin: Some(Source::Bundled),
        palette: PaletteState::Loaded(ThemeLayer::default()),
        installed: true,
    }
}

#[test]
fn init_zsh_emits_hook() {
    let out = hook("colorant");
    assert!(out.contains("add-zsh-hook chpwd"));
    assert!(out.contains("add-zsh-hook precmd"));
    assert!(out.contains("# >>> colorant init >>>"));
}

#[test]
fn themes_list_enumerates_bundled_palettes() {
    let lines: Vec<String> = Source::Bundled
        .list(None)
        .unwrap()
        .iter()
        .map(|n| listing_line(Source::Bundled, n, false))
        .collect();
    for expected in ["catppuccin-mocha", "tokyo-night", "nord"] {
        assert!(
            lines
                .iter()
                .any(|l| l.starts_with("[bundled] ") && l.contains(expected)),
            "expected {expected:?} in list output: {lines:?}"
        );
    }
}

#[test]
fn themes_path_prints_resolved_themes_dir() {
    let dir = config_dir_for(Some("/ws/xdg"), None);
    assert_eq!(dir.as_deref(), Some("/ws/xdg/colorant"));
    let config = Config::with_defaults(dir.as_deref());
    assert_eq!(config.base_theme_dir, "/ws/xdg/colorant/themes");
}

#[test]
fn themes_install_unknown_name_errors() {
    let err = install_one("/ws/themes", "definitely-not-a-real-theme", false, false).unwrap_err();
    assert!(
        err.message().contains("no bundled palette"),
        "expected 'no bundled palette': {:?}",
        err.message()
    );
}

#[test]
fn themes_install_all_populates_themes_dir() {
    let names = bundled_names();
    let exists = vec![false; names.len()];
    let plan = install_all("/ws/themes", false, &exists);
    assert!(install_all_summary(&plan).contains("installed"));
    for name in ["catppuccin-mocha", "tokyo-night", "nord"] {
        let path = dest_path("/ws/themes", name);
        assert!(
            plan.steps
                .iter()
                .any(|s| matches!(s, InstallStep::Write(p, _) if *p == path)),
            "expected {path:?} to be written by --all"
        );
    }
}

#[test]
fn themes_search_filters_bundled_substring_case_insensitively() {
    let hits: Vec<String> = bundled_names()
        .into_iter()
        .filter(|n| matches_query(n, "Mocha"))
        .collect();
    assert!(hits.iter().any(|l| l.contains("catppuccin-mocha")), "{hits:?}");
    assert!(!hits.iter().any(|l| l.contains("ayu-")), "{hits:?}");
}

#[test]
fn themes_search_reports_no_hits_for_unknown_query() {
    let query = "zzzzz-no-such-theme";
    assert!(!bundled_names().iter().any(|n| matches_query(n, query)));
    assert!(no_match_line(query).contains("no themes matched"));
}

#[test]
fn themes_apply_errors_on_unknown_theme() {
    let err = install_for_apply("/ws/themes", None, "definitely-not-a-real-theme", false)
        .unwrap_err();
    let msg = err.message();
    assert!(
        msg.contains("not") && msg.contains("installed") && msg.contains("bundled"),
        "expected guidance about lookup failure: {msg:?}"
    );
}

#[test]
fn themes_apply_requires_at_least_one_target() {
    let msg = run_apply(None, None, None).unwrap_err().message();
    assert!(msg.contains("--dark") || msg.contains("theme name"), "{msg:?}");
}

#[test]
fn themes_install_without_name_or_all_errors() {
    let msg = run_install(None, false).unwrap_err().message();
    assert!(msg.contains("--all") || msg.contains("palette name"), "{msg:?}");
}

#[test]
fn set_apply_is_noop_when_no_picks() {
    let app = picker(vec![installed_theme("ayu-dark")], Picks::default());
    assert!(plan_apply(&app).is_none());
    assert_eq!(app.applied, None);
}

#[test]
fn tui_apply_is_noop_when_no_picks() {
    let app = picker(
        vec![installed_theme("ayu-dark"), installed_theme("nord")],
        Picks::default(),
    );
    assert!(plan_apply(&app).is_none());
    assert_eq!(app.applied, None);
}

#[test]
fn apply_errors_when_theme_missing_and_origin_unknown() {
    let mut picks = Picks::default();
    picks.toggle_both(0);
    let mut app = picker(vec![installed_theme("ayu-dark")], picks);
    app.themes[0].installed = false;
    app.themes[0].origin = None;
    let steps = plan_apply(&app).unwrap();
    assert_eq!(steps.len(), 1);
    match &steps[0] {
        ApplyStep::NoOrigin(name) => {
            assert!(no_origin_message(name).contains("no known origin"));
        }
        _ => panic!("expected the apply to stop on a theme with no origin"),
    }
}

#[test]
fn show_heading_names_the_rc_default_or_nothing() {
    let resolver = Resolver::new("/cfg/themes".to_string());
    let plain = Style::for_env(false, false);
    let nord = ThemeName::parse("nord").unwrap();
    assert_eq!(
        heading(Some("/w/.colorantrc"), Some(&nord), &resolver, false, plain),
        ("Active theme for /w/.colorantrc\n".to_string(), true)
    );
    assert_eq!(
        heading(None, Some(&nord), &resolver, true, plain),
        ("Default theme: nord\n".to_string(), true)
    );
    assert_eq!(
        heading(None, Some(&nord), &resolver, false, plain),
        (
            "Default theme: nord\n  (palette file not found at /cfg/themes/nord.colorant)\n"
                .to_string(),
            true
        )
    );
    assert_eq!(
        heading(None, None, &resolver, false, plain),
        ("No theme applies in this directory.\n".to_string(), false)
    );
}

#[test]
fn doctor_names_the_walk_start_when_no_rc_is_found() {
    assert_eq!(
        missing_rc_line("/w/a/b"),
        "No .colorantrc found while walking up from /w/a/b"
    );
}

#[test]
fn themes_list_lines_mark_and_filter_installed() {
    let names = vec!["nord".to_string(), "catppuccin-mocha".to_string()];
    let installed = vec![true, false];
    assert_eq!(
        list_lines(Source::Bundled, &names, &installed, false),
        vec![
            "[bundled] nord (installed)".to_string(),
            "[bundled] catppuccin-mocha".to_string()
        ]
    );
    assert_eq!(
        list_lines(Source::Bundled, &names, &installed, true),
        vec!["[bundled] nord (installed)".to_string()]
    );
}

#[test]
fn themes_search_lines_match_case_insensitively() {
    let names = vec![
        "Dracula".to_string(),
        "catppuccin-mocha".to_string(),
        "ayu-dark".to_string(),
    ];
    let installed = vec![false, true, false];
    assert_eq!(
        search_lines(Source::Gogh, &names, &installed, "MOCHA"),
        vec!["[gogh] catppuccin-mocha (installed)".to_string()]
    );
    assert_eq!(
        search_lines(Source::Gogh, &names, &installed, "dRaC"),
        vec!["[gogh] Dracula".to_string()]
    );
    assert!(search_lines(Source::Gogh, &names, &installed, "zzz").is_empty());
}

#[test]
fn themes_sync_skips_the_bundled_source() {
    assert_eq!(
        sync_sources(&[Source::Bundled, Source::Gogh]),
        vec![Source::Gogh]
    );
    assert!(sync_sources(&[Source::Bundled]).is_empty());
}

#[test]
fn unknown_mode_skips_per_mode_layers_and_extends() {
    let resolver = Resolver::new("/cfg/themes".to_string());
    let rc = "extends = base\nextends.dark = dark\nfg = #cccccc\n[dark]\nfg = #111111\n[light]\nfg = #eeeeee\n";
    let parsed = colorant::theme::parse::parse_rc_str(rc);
    assert_eq!(
        resolver.parent_path(&parsed, Mode::Unknown).as_deref(),
        Some("/cfg/themes/base.colorant")
    );
    let resolved = resolver.resolve(rc, Mode::Unknown, Some("fg = #aaaaaa\nbg = #bbbbbb\n"));
    assert_eq!(resolved.fg.as_ref().unwrap().as_str(), "#cccccc");
    assert_eq!(resolved.bg.as_ref().unwrap().as_str(), "#bbbbbb");
}

fn ghostty_apply(
    rc: Option<(&str, Option<&str>)>,
    default: Option<&str>,
    mode: Mode,
    tmux: bool,
) -> String {
    let terminal = detect_from(Some("ghostty"), None, None).unwrap();
    let resolver = Resolver::new("/cfg/themes".to_string());
    apply_output(terminal, &resolver, rc, default, mode, true, tmux)
}

#[test]
fn apply_no_op_on_unsupported_terminal() {
    assert_eq!(detect_from(Some("Apple_Terminal"), None, None), None);
}

#[test]
fn apply_emits_osc_in_ghostty() {
    let out = ghostty_apply(Some(("fg = #abcdef\nbg = #112233\n", None)), None, Mode::Dark, false);
    assert!(out.contains("\x1b]10;#abcdef\x07"), "missing fg OSC, got: {out:?}");
    assert!(out.contains("\x1b]11;#112233\x07"), "missing bg OSC, got: {out:?}");
}

#[test]
fn apply_wraps_osc_in_tmux_dcs_when_tmux_is_set() {
    let out = ghostty_apply(Some(("fg = #abcdef\n", None)), None, Mode::Dark, true);
    assert!(
        out.contains("\x1bPtmux;\x1b\x1b]10;#abcdef\x07\x1b\\"),
        "expected DCS-wrapped fg OSC, got: {out:?}"
    );
}

#[test]
fn apply_respects_dark_section_override() {
    let rc = "fg = #aaaaaa\n[dark]\nfg = #111111\n[light]\nfg = #eeeeee\n";
    let dark = ghostty_apply(Some((rc, None)), None, Mode::Dark, false);
    assert!(dark.contains("\x1b]10;#111111\x07"), "expected dark fg override, got: {dark:?}");
    let light = ghostty_apply(Some((rc, None)), None, Mode::Light, false);
    assert!(light.contains("\x1b]10;#eeeeee\x07"), "expected light fg override, got: {light:?}");
}

#[test]
fn child_top_level_beats_extended_palette() {
    let out = ghostty_apply(
        Some(("extends = parent\nbg = #00ff00\n", Some("fg = #ff0000\nbg = #ff0000\n"))),
        None,
        Mode::Dark,
        false,
    );
    assert!(out.contains("\x1b]10;#ff0000\x07"), "expected inherited fg, got: {out:?}");
    assert!(out.contains("\x1b]11;#00ff00\x07"), "expected child bg to win, got: {out:?}");
}

#[test]
fn dark_only_palette_in_light_mode_emits_reset() {
    let rc = "extends.dark = nightly\n";
    let parsed = colorant::theme::parse::parse_rc_str(rc);
    let resolver = Resolver::new("/cfg/themes".to_string());
    assert_eq!(resolver.parent_path(&parsed, Mode::Light), None);
    let out = ghostty_apply(Some((rc, None)), None, Mode::Light, false);
    assert!(
        out.contains("\x1b]110\x07") && out.contains("\x1b]111\x07") && out.contains("\x1b]112\x07"),
        "expected reset OSCs, got: {out:?}"
    );
    assert!(!out.contains("\x1b]10;#"), "should not have emitted any fg setter: {out:?}");
}

#[test]
fn default_theme_applies_when_no_rc_found() {
    let out = ghostty_apply(None, Some("fg = #abcdef\nbg = #123456\n"), Mode::Dark, false);
    assert!(
        out.contains("\x1b]10;#abcdef\x07") && out.contains("\x1b]11;#123456\x07"),
        "expected fallback palette OSCs: {out:?}"
    );
}

#[test]
fn config_file_fields_override_defaults() {
    let nord = ThemeName::parse("nord").unwrap();
    let c = Config::from_file(Some("/cfg/colorant"), None, Some(nord), None);
    assert_eq!(c.base_theme_dir, "/cfg/colorant/themes");
    assert_eq!(c.default_theme.as_ref().map(|n| n.as_str()), Some("nord"));
    assert!(c.tab_follows_window);
    let c = Config::from_file(None, Some("/elsewhere".to_string()), None, Some(false));
    assert_eq!(c.base_theme_dir, "/elsewhere");
    assert!(c.default_theme.is_none());
    assert!(!c.tab_follows_window);
    let c = Config::from_file(None, None, None, None);
    assert_eq!(c.base_theme_dir, ".colorant/themes");
}
