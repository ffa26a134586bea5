use colorant::commands::picks::Picks;
use colorant::commands::themes::render_palette_layer;
use colorant::commands::themes::tui::{
    apply_fetch_result, apply_names, apply_needs_feedback, ensure_loaded_selected,
    handle_filter_key, handle_key, hex_to_rgb, load_themes, no_origin_message, plan_apply, App,
    ApplyStep, FetchResult, KeyCode, KeyOutcome, KeyPress, PaletteState, SourceFilter, ThemeEntry,
};
use colorant::theme::model::{HexColor, ThemeLayer, ThemeName};
use colorant::theme::source::Source;

fn new_app(themes: Vec<ThemeEntry>, picks: Picks) -> App {
    App {
        themes,
        visible: Vec::new(),
        selected: None,
        picks,
        source_filter: SourceFilter::All,
        filter: String::new(),
        editing_filter: false,
        rc_path: "/tmp/.colorantrc".to_string(),
        themes_dir: "/tmp/themes".to_string(),
        applied: None,
    }
}

fn entry(name: &str, origin: Option<Source>) -> ThemeEntry {
    ThemeEntry {
        name: ThemeName::parse(name).unwrap(),
        origin,
        palette: PaletteState::Loaded(ThemeLayer::default()),
        installed: false,
    }
}

fn app_with_themes(themes: Vec<ThemeEntry>) -> App {
    let mut app = new_app(themes, Picks::default());
    if !app.themes.is_empty() {
        app.selected = Some(0);
    }
    app.recompute_visible();
    app
}

fn app_with_picks_and_one_theme(theme: ThemeEntry, pick_idx: usize) -> App {
    let mut picks = Picks::default();
    picks.toggle_both(pick_idx);
    let mut app = new_app(vec![theme], picks);
    app.visible = vec![0];
    app.selected = Some(0);
    app
}

fn theme_for_feedback(origin: Option<Source>, palette: PaletteState, installed: bool) -> ThemeEntry {
    ThemeEntry {
        name: ThemeName::parse("alpha").unwrap(),
        origin,
        palette,
        installed,
    }
}

fn state_name(s: &PaletteState) -> &'static str {
    match s {
        PaletteState::Loaded(_) => "Loaded",
        PaletteState::Pending => "Pending",
        PaletteState::Fetching => "Fetching",
        PaletteState::Failed(_) => "Failed",
    }
}

#[test]
fn tui_hex_to_rgb_round_trip() {
    assert_eq!(
        hex_to_rgb(&HexColor::parse("#abcdef").unwrap()),
        (0xab, 0xcd, 0xef)
    );
    assert_eq!(hex_to_rgb(&HexColor::parse("#000000").unwrap()), (0, 0, 0));
    assert_eq!(
        hex_to_rgb(&HexColor::parse("#ffffff").unwrap()),
        (0xff, 0xff, 0xff)
    );
}

#[test]
fn apply_needs_feedback_false_for_no_picks() {
    let mut app = new_app(vec![entry("alpha", Some(Source::Gogh))], Picks::default());
    app.visible = vec![0];
    assert!(!apply_needs_feedback(&app));
}

#[test]
fn apply_needs_feedback_false_when_picked_theme_installed() {
    let app = app_with_picks_and_one_theme(
        theme_for_feedback(
            Some(Source::Gogh),
            PaletteState::Loaded(ThemeLayer::default()),
            true,
        ),
        0,
    );
    assert!(!apply_needs_feedback(&app));
}

#[test]
fn apply_needs_feedback_false_for_bundled_pick_regardless_of_state() {
    let app = app_with_picks_and_one_theme(
        theme_for_feedback(
            Some(Source::Bundled),
            PaletteState::Loaded(ThemeLayer::default()),
            false,
        ),
        0,
    );
    assert!(!apply_needs_feedback(&app));
}

#[test]
fn apply_needs_feedback_false_when_gogh_pick_already_loaded() {
    let app = app_with_picks_and_one_theme(
        theme_for_feedback(
            Some(Source::Gogh),
            PaletteState::Loaded(ThemeLayer::default()),
            false,
        ),
        0,
    );
    assert!(!apply_needs_feedback(&app));
}

#[test]
fn apply_needs_feedback_true_when_gogh_pick_unfetched() {
    let app = app_with_picks_and_one_theme(
        theme_for_feedback(Some(Source::Gogh), PaletteState::Pending, false),
        0,
    );
    assert!(apply_needs_feedback(&app));
}

#[test]
fn apply_needs_feedback_true_when_any_slot_needs_fetch() {
    let themes = vec![
        theme_for_feedback(
            Some(Source::Bundled),
            PaletteState::Loaded(ThemeLayer::default()),
            true,
        ),
        theme_for_feedback(Some(Source::Gogh), PaletteState::Pending, false),
    ];
    let mut picks = Picks::default();
    picks.toggle_dark(0);
    picks.toggle_light(1);
    let mut app = new_app(themes, picks);
    app.visible = vec![0, 1];
    app.selected = Some(0);
    assert!(apply_needs_feedback(&app));
}

#[test]
fn apply_fetch_result_ok_transitions_to_loaded() {
    let mut app = app_with_themes(vec![entry("alpha", Some(Source::Gogh))]);
    app.themes[0].palette = PaletteState::Fetching;
    let mut layer = ThemeLayer::default();
    layer.fg = HexColor::parse("#abcdef");
    apply_fetch_result(
        &mut app,
        FetchResult {
            name: ThemeName::parse("alpha").unwrap(),
            outcome: Ok(layer),
        },
    );
    let PaletteState::Loaded(l) = &app.themes[0].palette else {
        panic!(
            "expected Loaded, got {:?}",
            state_name(&app.themes[0].palette)
        );
    };
    assert_eq!(l.fg, HexColor::parse("#abcdef"));
}

#[test]
fn apply_fetch_result_err_transitions_to_failed_with_message() {
    let mut app = app_with_themes(vec![entry("alpha", Some(Source::Gogh))]);
    app.themes[0].palette = PaletteState::Fetching;
    apply_fetch_result(
        &mut app,
        FetchResult {
            name: ThemeName::parse("alpha").unwrap(),
            outcome: Err("HTTP 404".to_string()),
        },
    );
    match &app.themes[0].palette {
        PaletteState::Failed(msg) => assert_eq!(msg, "HTTP 404"),
        other => panic!("expected Failed, got {:?}", state_name(other)),
    }
}

#[test]
fn cycle_source_filter_rotates_all_bundled_gogh() {
    let mut app = app_with_themes(vec![
        entry("alpha", Some(Source::Bundled)),
        entry("beta", Some(Source::Gogh)),
        entry("gamma", None),
    ]);
    assert_eq!(app.source_filter, SourceFilter::All);
    app.cycle_source_filter();
    assert_eq!(app.source_filter, SourceFilter::Source(Source::Bundled));
    assert_eq!(app.visible.len(), 1);
    assert_eq!(app.themes[app.visible[0]].name.as_str(), "alpha");
    app.cycle_source_filter();
    assert_eq!(app.source_filter, SourceFilter::Source(Source::Gogh));
    assert_eq!(app.themes[app.visible[0]].name.as_str(), "beta");
    app.cycle_source_filter();
    assert_eq!(app.source_filter, SourceFilter::All);
    assert_eq!(app.visible.len(), 3);
}

#[test]
fn text_filter_narrows_visible_case_insensitively() {
    let mut app = app_with_themes(vec![
        entry("Catppuccin-Mocha", Some(Source::Bundled)),
        entry("catppuccin-latte", Some(Source::Bundled)),
        entry("tokyo-night", Some(Source::Bundled)),
    ]);
    app.filter = "MOCHA".to_string();
    app.recompute_visible();
    assert_eq!(app.visible.len(), 1);
    assert_eq!(app.themes[app.visible[0]].name.as_str(), "Catppuccin-Mocha");
}

#[test]
fn text_filter_and_source_filter_combine() {
    let mut app = app_with_themes(vec![
        entry("catppuccin-mocha", Some(Source::Bundled)),
        entry("catppuccin-mocha-2", Some(Source::Gogh)),
        entry("tokyo-night", Some(Source::Bundled)),
    ]);
    app.source_filter = SourceFilter::Source(Source::Bundled);
    app.filter = "catppuccin".to_string();
    app.recompute_visible();
    assert_eq!(app.visible.len(), 1);
    assert_eq!(app.themes[app.visible[0]].name.as_str(), "catppuccin-mocha");
}

#[test]
fn recompute_visible_preserves_cursor_when_possible() {
    let mut app = app_with_themes(vec![
        entry("alpha", Some(Source::Bundled)),
        entry("beta", Some(Source::Bundled)),
        entry("gamma", Some(Source::Bundled)),
    ]);
    app.selected = Some(1);
    app.filter = "bet".to_string();
    app.recompute_visible();
    assert_eq!(app.selected, Some(0));
    assert_eq!(app.themes[app.visible[0]].name.as_str(), "beta");
}

#[test]
fn recompute_visible_clamps_when_cursor_filtered_out() {
    let mut app = app_with_themes(vec![
        entry("alpha", Some(Source::Bundled)),
        entry("beta", Some(Source::Bundled)),
    ]);
    app.selected = Some(1);
    app.filter = "alph".to_string();
    app.recompute_visible();
    assert_eq!(app.selected, Some(0));
    assert_eq!(app.themes[app.visible[0]].name.as_str(), "alpha");
}

#[test]
fn recompute_visible_with_no_matches_clears_cursor() {
    let mut app = app_with_themes(vec![entry("alpha", Some(Source::Bundled))]);
    app.filter = "definitely-no-match".to_string();
    app.recompute_visible();
    assert!(app.visible.is_empty());
    assert_eq!(app.selected, None);
}

fn editing_app() -> App {
    let mut app = app_with_themes(vec![
        entry("alpha", Some(Source::Bundled)),
        entry("beta", Some(Source::Bundled)),
    ]);
    app.editing_filter = true;
    app
}

#[test]
fn filter_esc_keeps_filter_and_exits_editing() {
    let mut app = editing_app();
    app.filter = "alp".to_string();
    app.recompute_visible();
    handle_filter_key(&mut app, KeyCode::Esc, false);
    assert!(!app.editing_filter, "Esc should exit input mode");
    assert_eq!(app.filter, "alp", "Esc must preserve the filter (vim/fzf)");
}

#[test]
fn filter_enter_commits_filter_and_exits_editing() {
    let mut app = editing_app();
    app.filter = "alp".to_string();
    app.recompute_visible();
    handle_filter_key(&mut app, KeyCode::Enter, false);
    assert!(!app.editing_filter);
    assert_eq!(app.filter, "alp");
}

#[test]
fn filter_backspace_pops_one_char_and_recomputes() {
    let mut app = editing_app();
    app.filter = "alph".to_string();
    app.recompute_visible();
    handle_filter_key(&mut app, KeyCode::Backspace, false);
    assert_eq!(app.filter, "alp");
    assert!(app.editing_filter, "Backspace stays in input mode");
}

#[test]
fn filter_ctrl_u_clears_filter_entirely() {
    let mut app = editing_app();
    app.filter = "alpha".to_string();
    app.recompute_visible();
    handle_filter_key(&mut app, KeyCode::Char('u'), true);
    assert_eq!(app.filter, "");
    assert!(app.editing_filter, "Ctrl-U keeps the user typing");
}

#[test]
fn filter_char_appends_to_filter() {
    let mut app = editing_app();
    handle_filter_key(&mut app, KeyCode::Char('a'), false);
    handle_filter_key(&mut app, KeyCode::Char('l'), false);
    assert_eq!(app.filter, "al");
}

#[test]
fn filter_ctrl_other_char_is_treated_as_input() {
    let mut app = editing_app();
    handle_filter_key(&mut app, KeyCode::Char('a'), true);
    assert_eq!(app.filter, "a");
}

// ---- further cases -------------------------------------------------

fn key(code: KeyCode) -> KeyPress {
    KeyPress { code, ctrl: false }
}

#[test]
fn keys_move_wrap_and_assign() {
    let mut app = app_with_themes(vec![
        entry("alpha", Some(Source::Bundled)),
        entry("beta", Some(Source::Bundled)),
        entry("gamma", Some(Source::Bundled)),
    ]);
    assert!(matches!(handle_key(&mut app, key(KeyCode::Up)), KeyOutcome::Continue(None)));
    assert_eq!(app.selected, Some(2));
    handle_key(&mut app, key(KeyCode::Char('j')));
    assert_eq!(app.selected, Some(0));
    handle_key(&mut app, key(KeyCode::End));
    assert_eq!(app.selected, Some(2));
    handle_key(&mut app, key(KeyCode::Char('g')));
    assert_eq!(app.selected, Some(0));
    handle_key(&mut app, key(KeyCode::Char('b')));
    assert_eq!(app.picks.both, Some(0));
    handle_key(&mut app, key(KeyCode::Char('c')));
    assert_eq!(app.picks, Picks::default());
    handle_key(&mut app, key(KeyCode::Char('/')));
    assert!(app.editing_filter);
    handle_key(&mut app, key(KeyCode::Char('q')));
    assert_eq!(app.filter, "q", "in filter mode q is typed, not quit");
    handle_key(&mut app, key(KeyCode::Esc));
    assert!(matches!(handle_key(&mut app, key(KeyCode::Enter)), KeyOutcome::Apply));
    assert!(matches!(handle_key(&mut app, key(KeyCode::Char('q'))), KeyOutcome::Quit));
}

#[test]
fn moving_onto_pending_gogh_entry_requests_fetch_once() {
    let mut themes = vec![entry("alpha", Some(Source::Bundled)), entry("beta", Some(Source::Gogh))];
    themes[1].palette = PaletteState::Pending;
    let mut app = app_with_themes(themes);
    match handle_key(&mut app, key(KeyCode::Down)) {
        KeyOutcome::Continue(Some(n)) => assert_eq!(n.as_str(), "beta"),
        _ => panic!("expected a fetch request"),
    }
    assert_eq!(state_name(&app.themes[1].palette), "Fetching");
    assert!(ensure_loaded_selected(&mut app).is_none());
}

#[test]
fn plan_apply_orders_steps_and_reports_origin() {
    let mut themes = vec![
        entry("ayu", Some(Source::Bundled)),
        entry("dracula", Some(Source::Gogh)),
        entry("mine", None),
    ];
    themes[1].palette = PaletteState::Pending;
    let mut picks = Picks::default();
    picks.toggle_dark(0);
    picks.toggle_light(1);
    let app = new_app(themes, picks);
    let steps = plan_apply(&app).unwrap();
    assert_eq!(steps.len(), 2);
    assert!(matches!(&steps[0], ApplyStep::Bundled(n) if n.as_str() == "ayu"));
    assert!(matches!(&steps[1], ApplyStep::FetchGogh(n) if n.as_str() == "dracula"));
    let (b, d, l) = apply_names(&app);
    assert_eq!((b, d.as_deref(), l.as_deref()), (None, Some("ayu"), Some("dracula")));

    let mut picks = Picks::default();
    picks.toggle_both(2);
    let app = new_app(vec![entry("a", None), entry("b", None), entry("mine", None)], picks);
    let steps = plan_apply(&app).unwrap();
    match &steps[0] {
        ApplyStep::NoOrigin(n) => assert!(no_origin_message(n).contains("no known origin")),
        _ => panic!("expected NoOrigin"),
    }
    let app = new_app(vec![entry("a", None)], Picks::default());
    assert!(plan_apply(&app).is_none());
}

#[test]
fn pending_block_and_summary() {
    let mut picks = Picks::default();
    picks.toggle_dark(0);
    picks.toggle_light(1);
    let app = new_app(
        vec![entry("alpha", None), entry("beta", None)],
        picks,
    );
    assert_eq!(
        app.pending_rc_block(),
        vec!["extends.dark = alpha".to_string(), "extends.light = beta".to_string()]
    );
    assert_eq!(
        app.picks_summary(),
        vec![
            "both = –".to_string(),
            "dark = alpha".to_string(),
            "light = beta".to_string()
        ]
    );
}

#[test]
fn load_themes_merges_sources_sorted() {
    let gogh = Ok(Some(vec![
        "Zeta".to_string(),
        "dracula".to_string(),
        "bad/name".to_string(),
    ]));
    let installed = vec![
        ("nord".to_string(), "fg = #000000\n".to_string()),
        ("local".to_string(), "bg = #111111\n".to_string()),
    ];
    let (themes, warnings) = load_themes(gogh, &installed);
    let names: Vec<&str> = themes.iter().map(|t| t.name.as_str()).collect();
    let mut sorted = names.clone();
    sorted.sort();
    assert_eq!(names, sorted);
    let nord = themes.iter().find(|t| t.name.as_str() == "nord").unwrap();
    assert!(nord.installed);
    assert_eq!(nord.origin, Some(Source::Bundled));
    let dracula = themes.iter().find(|t| t.name.as_str() == "dracula").unwrap();
    assert_eq!(dracula.origin, Some(Source::Bundled), "bundled keeps its entry");
    let zeta = themes.iter().find(|t| t.name.as_str() == "Zeta").unwrap();
    assert_eq!(zeta.origin, Some(Source::Gogh));
    assert_eq!(state_name(&zeta.palette), "Pending");
    let local = themes.iter().find(|t| t.name.as_str() == "local").unwrap();
    assert_eq!(local.origin, None);
    assert_eq!(warnings.len(), 1);
    assert!(warnings[0].starts_with("note: 1 gogh theme(s) skipped"));
    assert!(warnings[0].ends_with(": bad/name"));
}

#[test]
fn load_themes_warns_about_catalog_state() {
    let (themes, warnings) = load_themes(Ok(None), &[]);
    assert_eq!(themes.len(), 15);
    assert_eq!(
        warnings,
        vec!["note: gogh catalog not synced — run `colorant themes sync` to browse Gogh themes here".to_string()]
    );
    let (_, warnings) = load_themes(Err("boom".to_string()), &[]);
    assert_eq!(warnings, vec!["warning: gogh catalog unavailable: boom".to_string()]);
}

#[test]
fn render_palette_layer_round_trips() {
    let mut layer = ThemeLayer::default();
    layer.cursor = HexColor::parse("#ABCDEF");
    layer.palette[15] = HexColor::parse("#010203");
    let text = render_palette_layer(&layer);
    assert_eq!(text, "cursor = #abcdef\ncolor15 = #010203\n");
    assert_eq!(colorant::theme::parse::parse_palette_str(&text).layer, layer);
}
