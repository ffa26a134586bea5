use colorant::theme::model::{HexColor, Mode, ThemeName};
use colorant::theme::parse::{
    parse_palette_str, parse_palette_str_with_diagnostics, parse_rc_str,
    parse_rc_str_with_diagnostics, DropReason,
};

#[test]
fn parses_simple_palette() {
    let pal = parse_palette_str("fg = #112233\nbg = #aabbcc\n");
    assert_eq!(pal.layer.fg, HexColor::parse("#112233"));
    assert_eq!(pal.layer.bg, HexColor::parse("#aabbcc"));
}

#[test]
fn palette_ignores_sections_and_extends() {
    let p = parse_palette_str(
        "extends = nope\n[dark]\nfg = #111111\nextends.dark = also-nope\nbg = #222222\n",
    );
    assert_eq!(p.layer.fg.unwrap().as_str(), "#111111");
    assert_eq!(p.layer.bg.unwrap().as_str(), "#222222");
}

#[test]
fn palette_diagnostics_report_extends_as_unknown_key() {
    let (_, diags) = parse_palette_str_with_diagnostics("extends = catppuccin-mocha\n");
    assert_eq!(diags, vec![(1, DropReason::UnknownKey("extends".into()))]);
}

#[test]
fn palette_diagnostics_do_not_report_section_headers() {
    let (_, diags) = parse_palette_str_with_diagnostics("[dark]\nfg = #111111\n");
    assert!(diags.is_empty(), "expected no diagnostics, got {diags:?}");
}

#[test]
fn diagnostics_palette_path_produces_same_palette_as_shim() {
    let input = "extends = nope\nfg = #111111\nforground = #aabbcc\nbg = bad\n";
    let plain = parse_palette_str(input);
    let (with_diag, diags) = parse_palette_str_with_diagnostics(input);
    assert_eq!(plain, with_diag);
    assert!(!diags.is_empty());
}

#[test]
fn palette_diagnostics_report_malformed_line() {
    let (_, diags) =
        parse_palette_str_with_diagnostics("no equals here\nfg = #111111\n= no key\n");
    assert_eq!(
        diags,
        vec![
            (1, DropReason::MalformedLine),
            (3, DropReason::MalformedLine),
        ]
    );
}

#[test]
fn parses_rc_with_per_mode_extends() {
    let rc = parse_rc_str(
        "extends.dark = catppuccin-mocha\nextends.light = catppuccin-latte\nfg = #ffffff\n",
    );
    assert_eq!(
        rc.extends_dark,
        Some(ThemeName::parse("catppuccin-mocha").unwrap())
    );
    assert_eq!(
        rc.extends_light,
        Some(ThemeName::parse("catppuccin-latte").unwrap())
    );
    assert_eq!(rc.base.fg, HexColor::parse("#ffffff"));
}

#[test]
fn rc_global_extends_still_works() {
    let rc = parse_rc_str("extends = ayu\n");
    assert_eq!(rc.extends, Some(ThemeName::parse("ayu").unwrap()));
}

#[test]
fn rc_drops_invalid_extends_name() {
    let rc = parse_rc_str("extends = bad/name\n");
    assert!(rc.extends.is_none());
}

#[test]
fn rc_duplicate_extends_last_wins() {
    let rc = parse_rc_str("extends = a\nextends = b\n");
    assert_eq!(rc.extends, Some(ThemeName::parse("b").unwrap()));
}

#[test]
fn rc_invalid_duplicate_does_not_clobber_prior_valid() {
    let rc = parse_rc_str("extends = good\nextends = bad/name\n");
    assert_eq!(rc.extends, Some(ThemeName::parse("good").unwrap()));
}

#[test]
fn rc_rejects_invalid_color() {
    let rc = parse_rc_str("fg = not-a-color\n");
    assert!(rc.base.fg.is_none());
}

#[test]
fn rc_unknown_keys_and_sections_dropped() {
    let rc = parse_rc_str("forground = #112233\n[lite]\nfg = #aabbcc\n");
    assert!(rc.base.fg.is_none());
    assert!(rc.dark.fg.is_none());
    assert!(rc.light.fg.is_none());
}

#[test]
fn rc_case_insensitive_sections() {
    let rc = parse_rc_str("[Dark]\nfg = #112233\n");
    assert_eq!(rc.dark.fg, HexColor::parse("#112233"));
}

#[test]
fn palette_keys_in_rc() {
    let rc = parse_rc_str("color0 = #112233\ncolor15 = #aabbcc\n");
    assert_eq!(rc.base.palette[0], HexColor::parse("#112233"));
    assert_eq!(rc.base.palette[15], HexColor::parse("#aabbcc"));
}

#[test]
fn diagnostics_empty_for_clean_rc() {
    let (_, diags) = parse_rc_str_with_diagnostics(
        "extends = catppuccin-mocha\nfg = #ffffff\n[dark]\ncursor = #ff00ff\n",
    );
    assert!(diags.is_empty(), "expected no diagnostics, got {diags:?}");
}

#[test]
fn diagnostics_report_unknown_key() {
    let (_, diags) = parse_rc_str_with_diagnostics("forground = #112233\n");
    assert_eq!(diags, vec![(1, DropReason::UnknownKey("forground".into()))]);
}

#[test]
fn diagnostics_report_invalid_color() {
    let (_, diags) = parse_rc_str_with_diagnostics("fg = nope\n");
    assert_eq!(
        diags,
        vec![(
            1,
            DropReason::InvalidColor {
                key: "fg".into(),
                value: "nope".into()
            }
        )]
    );
}

#[test]
fn diagnostics_report_invalid_extends() {
    let (_, diags) = parse_rc_str_with_diagnostics("extends.dark = bad/name\n");
    match diags.as_slice() {
        [(1, DropReason::InvalidExtendsName { key, value, .. })] => {
            assert_eq!(key, "extends.dark");
            assert_eq!(value, "bad/name");
        }
        other => panic!("unexpected diagnostics: {other:?}"),
    }
}

#[test]
fn diagnostics_report_unknown_section_once() {
    let (rc, diags) = parse_rc_str_with_diagnostics("\n[lite]\nfg = #112233\n");
    assert_eq!(diags, vec![(2, DropReason::UnknownSection("lite".into()))]);
    assert!(rc.base.fg.is_none());
    assert!(rc.dark.fg.is_none());
    assert!(rc.light.fg.is_none());
}

#[test]
fn diagnostics_path_produces_same_rc_as_shim() {
    let input = "extends = good\n\
                 extends.dark = bad/name\n\
                 fg = #112233\n\
                 forground = #aabbcc\n\
                 [dark]\n\
                 cursor = #ff00ff\n\
                 bg = nope\n\
                 [lite]\n\
                 fg = #000000\n";
    let plain = parse_rc_str(input);
    let (with_diag, diags) = parse_rc_str_with_diagnostics(input);
    assert_eq!(plain, with_diag);
    assert!(!diags.is_empty());
}

#[test]
fn diagnostics_preserve_original_section_casing() {
    let (_, diags) = parse_rc_str_with_diagnostics("[Lite]\n");
    assert_eq!(diags, vec![(1, DropReason::UnknownSection("Lite".into()))]);
}

#[test]
fn diagnostics_report_malformed_line() {
    let (_, diags) = parse_rc_str_with_diagnostics("no equals sign here\n= no key\n");
    assert_eq!(
        diags,
        vec![
            (1, DropReason::MalformedLine),
            (2, DropReason::MalformedLine)
        ]
    );
}

#[test]
fn diagnostics_color_out_of_range_is_unknown_key() {
    let (_, diags) = parse_rc_str_with_diagnostics("color99 = #112233\n");
    assert_eq!(diags, vec![(1, DropReason::UnknownKey("color99".into()))]);
}

#[test]
fn diagnostics_preserve_file_order() {
    let (_, diags) =
        parse_rc_str_with_diagnostics("fg = #ffffff\nforground = #112233\nbg = bad\n[lite]\n");
    let kinds: Vec<_> = diags.iter().map(|(line, r)| (*line, r.clone())).collect();
    assert_eq!(
        kinds,
        vec![
            (2, DropReason::UnknownKey("forground".into())),
            (
                3,
                DropReason::InvalidColor {
                    key: "bg".into(),
                    value: "bad".into()
                }
            ),
            (4, DropReason::UnknownSection("lite".into())),
        ]
    );
}

#[test]
fn parent_for_picks_specific_then_global() {
    let rc = parse_rc_str("extends = global\nextends.dark = darkonly\n");
    assert_eq!(
        rc.parent_for(Mode::Dark),
        Some(&ThemeName::parse("darkonly").unwrap())
    );
    assert_eq!(
        rc.parent_for(Mode::Light),
        Some(&ThemeName::parse("global").unwrap())
    );
}

#[test]
fn parent_for_falls_back_to_global() {
    let rc = parse_rc_str("extends = global\n");
    assert_eq!(
        rc.parent_for(Mode::Dark),
        Some(&ThemeName::parse("global").unwrap())
    );
}

#[test]
fn parent_for_unknown_mode_uses_only_global() {
    let rc = parse_rc_str("extends.dark = d\nextends.light = l\n");
    assert_eq!(rc.parent_for(Mode::Unknown), None);
}

#[test]
fn palette_index_accepts_plus_sign_and_leading_zero() {
    let p = parse_palette_str("color+3 = #010203\ncolor07 = #040506\n");
    assert_eq!(p.layer.palette[3], HexColor::parse("#010203"));
    assert_eq!(p.layer.palette[7], HexColor::parse("#040506"));
}

#[test]
fn crlf_lines_and_whitespace_are_handled() {
    let p = parse_palette_str("  fg\t=  #ABCDEF  \r\n\r\n# comment\r\ncursor=#000000");
    assert_eq!(p.layer.fg.as_ref().unwrap().as_str(), "#abcdef");
    assert_eq!(p.layer.cursor.as_ref().unwrap().as_str(), "#000000");
}

#[test]
fn later_duplicate_color_key_wins() {
    let p = parse_palette_str("fg = #111111\nfg = #222222\nfg = broken\n");
    assert_eq!(p.layer.fg, HexColor::parse("#222222"));
}

#[test]
fn light_section_applies_to_light_layer_only() {
    let rc = parse_rc_str("[light]\nbg = #eeeeee\n[dark]\nbg = #111111\n");
    assert_eq!(rc.light.bg, HexColor::parse("#eeeeee"));
    assert_eq!(rc.dark.bg, HexColor::parse("#111111"));
    assert!(rc.base.bg.is_none());
}
