use colorant::commands::picks::{picks_from_rc_content, toggle, Picks};
use colorant::theme::model::{Mode, ThemeName};
use colorant::theme::parse::parse_rc_str;
use colorant::theme::rc::rewrite_extends;

fn make_theme(name: &str) -> ThemeName {
    ThemeName::parse(name).unwrap()
}

#[test]
fn set_picks_slot_tag_renders_practical_effect() {
    let mut p = Picks::default();
    p.toggle_both(0);
    assert_eq!(p.slot_tag(0), " [d/l]");
    assert_eq!(p.slot_tag(1), "");

    let mut p = Picks::default();
    p.toggle_dark(0);
    assert_eq!(p.slot_tag(0), " [d]");
    p.toggle_light(1);
    assert_eq!(p.slot_tag(0), " [d]");
    assert_eq!(p.slot_tag(1), " [l]");

    let mut p = Picks::default();
    p.toggle_dark(0);
    p.toggle_light(0);
    assert_eq!(p.slot_tag(0), " [d/l]");
}

#[test]
fn set_picks_both_then_per_mode_clears_both() {
    let mut p = Picks::default();
    p.toggle_dark(1);
    p.toggle_light(2);
    p.toggle_both(0);
    assert_eq!(p.both, Some(0));
    assert_eq!(p.dark, None);
    assert_eq!(p.light, None);
}

#[test]
fn set_dark_after_both_on_different_theme_decomposes_into_dark_and_light() {
    let mut p = Picks::default();
    p.toggle_both(0);
    p.toggle_dark(1);
    assert_eq!(p.both, None);
    assert_eq!(p.dark, Some(1));
    assert_eq!(p.light, Some(0));
}

#[test]
fn set_light_after_both_on_different_theme_decomposes_into_dark_and_light() {
    let mut p = Picks::default();
    p.toggle_both(0);
    p.toggle_light(1);
    assert_eq!(p.both, None);
    assert_eq!(p.dark, Some(0));
    assert_eq!(p.light, Some(1));
}

#[test]
fn set_dark_after_both_on_same_theme_disambiguates_to_dark_only() {
    let mut p = Picks::default();
    p.toggle_both(0);
    p.toggle_dark(0);
    assert_eq!(p.both, None);
    assert_eq!(p.dark, Some(0));
    assert_eq!(p.light, None);
}

#[test]
fn set_light_after_both_on_same_theme_disambiguates_to_light_only() {
    let mut p = Picks::default();
    p.toggle_both(0);
    p.toggle_light(0);
    assert_eq!(p.both, None);
    assert_eq!(p.dark, None);
    assert_eq!(p.light, Some(0));
}

#[test]
fn set_toggling_a_slot_off_does_not_clear_the_other_mode() {
    let mut p = Picks::default();
    p.toggle_both(0);
    p.toggle_both(0);
    assert_eq!(p.both, None);
    assert_eq!(p.dark, None);
    assert_eq!(p.light, None);
}

#[test]
fn set_toggle_clears_when_slot_matches_current_index() {
    let mut slot = Some(3);
    toggle(&mut slot, 3);
    assert_eq!(slot, None);
    toggle(&mut slot, 3);
    assert_eq!(slot, Some(3));
    toggle(&mut slot, 7);
    assert_eq!(slot, Some(7));
}

#[test]
fn set_effective_collapses_equal_dark_and_light_into_both() {
    let mut p = Picks::default();
    p.toggle_dark(0);
    p.toggle_light(0);
    assert_eq!(p.effective(), (Some(0), None, None));
}

#[test]
fn set_effective_keeps_separate_dark_and_light_when_different() {
    let mut p = Picks::default();
    p.toggle_dark(0);
    p.toggle_light(1);
    assert_eq!(p.effective(), (None, Some(0), Some(1)));
}

#[test]
fn set_effective_passes_through_partial_picks() {
    let mut p = Picks::default();
    p.toggle_dark(2);
    assert_eq!(p.effective(), (None, Some(2), None));
}

#[test]
fn set_picks_from_rc_global_extends() {
    let themes = [make_theme("alpha"), make_theme("beta")];
    let (picks, missing) = picks_from_rc_content("extends = beta\n", &themes);
    assert_eq!(picks.both, Some(1));
    assert_eq!(picks.dark, None);
    assert_eq!(picks.light, None);
    assert!(missing.is_empty());
}

#[test]
fn set_picks_from_rc_per_mode_extends() {
    let themes = [make_theme("alpha"), make_theme("beta")];
    let (picks, missing) =
        picks_from_rc_content("extends.dark = alpha\nextends.light = beta\n", &themes);
    assert_eq!(picks.both, None);
    assert_eq!(picks.dark, Some(0));
    assert_eq!(picks.light, Some(1));
    assert!(missing.is_empty());
}

#[test]
fn set_picks_from_rc_same_per_mode_consolidates_into_both() {
    let themes = [make_theme("alpha")];
    let (picks, _) =
        picks_from_rc_content("extends.dark = alpha\nextends.light = alpha\n", &themes);
    assert_eq!(picks.both, Some(0));
}

#[test]
fn set_picks_from_rc_global_with_one_per_mode_override() {
    let themes = [make_theme("alpha"), make_theme("beta")];
    let (picks, _) = picks_from_rc_content("extends = alpha\nextends.dark = beta\n", &themes);
    assert_eq!(picks.both, None);
    assert_eq!(picks.dark, Some(1));
    assert_eq!(picks.light, Some(0));
}

#[test]
fn set_picks_from_rc_unknown_theme_yields_none_and_reports_missing() {
    let themes = [make_theme("alpha")];
    let (picks, missing) = picks_from_rc_content("extends = missing-theme\n", &themes);
    assert_eq!(picks.both, None);
    assert_eq!(picks.dark, None);
    assert_eq!(picks.light, None);
    assert_eq!(missing, vec!["missing-theme".to_string()]);
}

#[test]
fn set_picks_from_rc_missing_per_mode_extends_dedupes() {
    let themes = [make_theme("alpha")];
    let (_picks, missing) =
        picks_from_rc_content("extends.dark = gone\nextends.light = gone\n", &themes);
    assert_eq!(missing, vec!["gone".to_string()]);
}

#[test]
fn tui_picks_slot_tag_renders_practical_effect() {
    let mut p = Picks::default();
    p.toggle_both(0);
    assert_eq!(p.slot_tag(0), " [d/l]");
    assert_eq!(p.slot_tag(1), "");

    let mut p = Picks::default();
    p.toggle_dark(0);
    assert_eq!(p.slot_tag(0), " [d]");
    p.toggle_light(1);
    assert_eq!(p.slot_tag(0), " [d]");
    assert_eq!(p.slot_tag(1), " [l]");

    let mut p = Picks::default();
    p.toggle_dark(0);
    p.toggle_light(0);
    assert_eq!(p.slot_tag(0), " [d/l]");
}

#[test]
fn tui_picks_both_then_per_mode_clears_both() {
    let mut p = Picks::default();
    p.toggle_dark(1);
    p.toggle_light(2);
    p.toggle_both(0);
    assert_eq!(p.both, Some(0));
    assert_eq!(p.dark, None);
    assert_eq!(p.light, None);
}

#[test]
fn tui_dark_after_both_on_different_theme_decomposes_into_dark_and_light() {
    let mut p = Picks::default();
    p.toggle_both(0);
    p.toggle_dark(1);
    assert_eq!(p.both, None);
    assert_eq!(p.dark, Some(1));
    assert_eq!(p.light, Some(0));
}

#[test]
fn tui_light_after_both_on_different_theme_decomposes_into_dark_and_light() {
    let mut p = Picks::default();
    p.toggle_both(0);
    p.toggle_light(1);
    assert_eq!(p.both, None);
    assert_eq!(p.dark, Some(0));
    assert_eq!(p.light, Some(1));
}

#[test]
fn tui_dark_after_both_on_same_theme_disambiguates_to_dark_only() {
    let mut p = Picks::default();
    p.toggle_both(0);
    p.toggle_dark(0);
    assert_eq!(p.both, None);
    assert_eq!(p.dark, Some(0));
    assert_eq!(p.light, None);
}

#[test]
fn tui_light_after_both_on_same_theme_disambiguates_to_light_only() {
    let mut p = Picks::default();
    p.toggle_both(0);
    p.toggle_light(0);
    assert_eq!(p.both, None);
    assert_eq!(p.dark, None);
    assert_eq!(p.light, Some(0));
}

#[test]
fn tui_toggling_a_slot_off_does_not_clear_the_other_mode() {
    let mut p = Picks::default();
    p.toggle_both(0);
    p.toggle_both(0);
    assert_eq!(p.both, None);
    assert_eq!(p.dark, None);
    assert_eq!(p.light, None);
}

#[test]
fn tui_toggle_clears_when_slot_matches_current_index() {
    let mut slot = Some(3);
    toggle(&mut slot, 3);
    assert_eq!(slot, None);
    toggle(&mut slot, 3);
    assert_eq!(slot, Some(3));
    toggle(&mut slot, 7);
    assert_eq!(slot, Some(7));
}

#[test]
fn tui_effective_collapses_equal_dark_and_light_into_both() {
    let mut p = Picks::default();
    p.toggle_dark(0);
    p.toggle_light(0);
    assert_eq!(p.effective(), (Some(0), None, None));
}

#[test]
fn tui_effective_keeps_separate_dark_and_light_when_different() {
    let mut p = Picks::default();
    p.toggle_dark(0);
    p.toggle_light(1);
    assert_eq!(p.effective(), (None, Some(0), Some(1)));
}

#[test]
fn tui_effective_passes_through_partial_picks() {
    let mut p = Picks::default();
    p.toggle_dark(2);
    assert_eq!(p.effective(), (None, Some(2), None));
}

#[test]
fn tui_picks_from_rc_global_extends() {
    let themes = [make_theme("alpha"), make_theme("beta")];
    let (picks, missing) = picks_from_rc_content("extends = beta\n", &themes);
    assert_eq!(picks.both, Some(1));
    assert_eq!(picks.dark, None);
    assert_eq!(picks.light, None);
    assert!(missing.is_empty());
}

#[test]
fn tui_picks_from_rc_per_mode_extends() {
    let themes = [make_theme("alpha"), make_theme("beta")];
    let (picks, missing) =
        picks_from_rc_content("extends.dark = alpha\nextends.light = beta\n", &themes);
    assert_eq!(picks.both, None);
    assert_eq!(picks.dark, Some(0));
    assert_eq!(picks.light, Some(1));
    assert!(missing.is_empty());
}

#[test]
fn tui_picks_from_rc_same_per_mode_consolidates_into_both() {
    let themes = [make_theme("alpha")];
    let (picks, _) =
        picks_from_rc_content("extends.dark = alpha\nextends.light = alpha\n", &themes);
    assert_eq!(picks.both, Some(0));
}

#[test]
fn tui_picks_from_rc_global_with_one_per_mode_override() {
    let themes = [make_theme("alpha"), make_theme("beta")];
    let (picks, _) = picks_from_rc_content("extends = alpha\nextends.dark = beta\n", &themes);
    assert_eq!(picks.both, None);
    assert_eq!(picks.dark, Some(1));
    assert_eq!(picks.light, Some(0));
}

#[test]
fn tui_picks_from_rc_unknown_theme_yields_none_and_reports_missing() {
    let themes = [make_theme("alpha")];
    let (picks, missing) = picks_from_rc_content("extends = missing-theme\n", &themes);
    assert_eq!(picks.both, None);
    assert_eq!(picks.dark, None);
    assert_eq!(picks.light, None);
    assert_eq!(missing, vec!["missing-theme".to_string()]);
}

#[test]
fn tui_picks_from_rc_missing_per_mode_extends_dedupes() {
    let themes = [make_theme("alpha")];
    let (_picks, missing) =
        picks_from_rc_content("extends.dark = gone\nextends.light = gone\n", &themes);
    assert_eq!(missing, vec!["gone".to_string()]);
}

// ---- further cases -------------------------------------------------

#[test]
fn picks_clear_drops_everything() {
    let mut p = Picks::default();
    p.toggle_dark(1);
    p.toggle_light(2);
    p.clear();
    assert_eq!(p, Picks::default());
    assert_eq!(p.effective(), (None, None, None));
}

#[test]
fn picks_toggle_dark_twice_unpicks() {
    let mut p = Picks::default();
    p.toggle_dark(4);
    p.toggle_dark(4);
    assert_eq!(p, Picks::default());
}

#[test]
fn picks_from_rc_distinct_missing_names_both_reported() {
    let themes = [make_theme("alpha")];
    let (picks, missing) =
        picks_from_rc_content("extends.dark = x\nextends.light = y\n", &themes);
    assert_eq!(picks, Picks::default());
    assert_eq!(missing, vec!["x".to_string(), "y".to_string()]);
}

#[test]
fn picks_from_rc_empty_content_has_no_picks() {
    let themes = [make_theme("alpha")];
    let (picks, missing) = picks_from_rc_content("", &themes);
    assert_eq!(picks, Picks::default());
    assert!(missing.is_empty());
}

fn reopen_and_apply(content: &str, themes: &[ThemeName]) -> String {
    let (picks, missing) = picks_from_rc_content(content, themes);
    assert!(missing.is_empty());
    let (b, d, l) = picks.effective();
    let name = |i: Option<usize>| i.map(|k| themes[k].as_str().to_string());
    let (b, d, l) = (name(b), name(d), name(l));
    rewrite_extends(content, b.as_deref(), d.as_deref(), l.as_deref())
}

fn parents(content: &str) -> (Option<String>, Option<String>) {
    let rc = parse_rc_str(content);
    (
        rc.parent_for(Mode::Dark).map(|n| n.as_str().to_string()),
        rc.parent_for(Mode::Light).map(|n| n.as_str().to_string()),
    )
}

#[test]
fn picks_reopened_and_applied_keep_each_modes_parent() {
    let themes = vec![make_theme("ayu"), make_theme("nord"), make_theme("solarized")];
    for content in [
        "extends = ayu\nextends.dark = nord\nfg = #ffffff\n[dark]\nbg = #000000\n",
        "extends.dark = nord\nextends.light = nord\n",
        "extends = solarized\n",
        "fg = #123456\n",
    ] {
        let after = reopen_and_apply(content, &themes);
        assert_eq!(parents(&after), parents(content), "for {content:?} -> {after:?}");
        let (a, b) = (parse_rc_str(&after), parse_rc_str(content));
        assert_eq!(a.base, b.base);
        assert_eq!(a.dark, b.dark);
        assert_eq!(a.light, b.light);
    }
}

#[test]
fn picks_from_rc_missing_names_come_back_sorted() {
    let themes: Vec<ThemeName> = Vec::new();
    let (_picks, missing) =
        picks_from_rc_content("extends.dark = zeta\nextends.light = alpha\n", &themes);
    assert_eq!(missing, vec!["alpha".to_string(), "zeta".to_string()]);
}
