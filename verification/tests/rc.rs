use colorant::theme::parse::parse_rc_str;
use colorant::theme::rc::rewrite_extends;

#[test]
fn rc_rewrite_extends_into_empty_writes_just_the_block() {
    let out = rewrite_extends("", Some("ayu"), None, None);
    assert_eq!(out, "extends = ayu\n");
}

#[test]
fn rc_rewrite_extends_writes_all_three_slots() {
    let out = rewrite_extends("", Some("ayu"), Some("nord"), Some("solarized"));
    assert_eq!(
        out,
        "extends = ayu\nextends.dark = nord\nextends.light = solarized\n"
    );
}

#[test]
fn rc_rewrite_extends_replaces_existing_extends_lines() {
    let input = "extends = old\nextends.dark = old-dark\nfg = #ffffff\n";
    let out = rewrite_extends(input, Some("new"), None, None);
    assert_eq!(out, "extends = new\n\nfg = #ffffff\n");
}

#[test]
fn rc_rewrite_extends_preserves_base_keys_and_sections() {
    let input = "extends = old\nfg = #ffffff\n[dark]\ncursor = #ff00ff\n";
    let out = rewrite_extends(input, None, Some("nord"), None);
    assert_eq!(
        out,
        "extends.dark = nord\n\nfg = #ffffff\n\n[dark]\ncursor = #ff00ff\n"
    );
}

#[test]
fn rc_rewrite_extends_with_all_nones_strips_existing_extends() {
    let input = "extends = old\nfg = #ffffff\n";
    let out = rewrite_extends(input, None, None, None);
    assert_eq!(out, "fg = #ffffff\n");
}

#[test]
fn rc_rewrite_extends_no_trailing_blank_lines() {
    let mut current = String::new();
    for _ in 0..3 {
        current = rewrite_extends(&current, Some("ayu"), None, None);
    }
    assert_eq!(current, "extends = ayu\n");
}

#[test]
fn rc_rewrite_extends_normalizes_crlf_to_lf() {
    let input = "extends = old\r\nfg = #ffffff\r\n";
    let out = rewrite_extends(input, Some("new"), None, None);
    assert_eq!(out, "extends = new\n\nfg = #ffffff\n");
}

#[test]
fn rc_rewrite_extends_handles_missing_trailing_newline() {
    let input = "fg = #ffffff";
    let out = rewrite_extends(input, Some("ayu"), None, None);
    assert_eq!(out, "extends = ayu\n\nfg = #ffffff\n");
}

#[test]
fn rc_rewrite_extends_preserves_unclosed_section_header_as_base() {
    let input = "[dark\nextends.dark = something\nfg = #ffffff\n";
    let out = rewrite_extends(input, None, Some("nord"), None);
    assert_eq!(out, "extends.dark = nord\n\n[dark\nfg = #ffffff\n");
}

#[test]
fn rc_rewrite_extends_keeps_section_lines_that_look_like_extends() {
    let input = "[dark]\nextends = inside\n";
    let out = rewrite_extends(input, Some("top"), None, None);
    assert_eq!(out, "extends = top\n\n[dark]\nextends = inside\n");
}

#[test]
fn rc_rewrite_extends_of_empty_with_nothing_is_empty() {
    assert_eq!(rewrite_extends("", None, None, None), "");
    assert_eq!(rewrite_extends("extends = x\n", None, None, None), "");
}

#[test]
fn rc_rewrite_then_parse_reads_requested_extends_and_same_layers() {
    let input = "extends = old\n# note\nfg = #ffffff\r\nextends.light = x\n[dark]\ncursor = #ff00ff\n[light]\nbg = #000000\n";
    let out = rewrite_extends(input, None, Some("nord"), Some("solarized light"));
    let before = parse_rc_str(input);
    let after = parse_rc_str(&out);
    assert_eq!(after.extends, None);
    assert_eq!(after.extends_dark.as_ref().map(|n| n.as_str()), Some("nord"));
    assert_eq!(
        after.extends_light.as_ref().map(|n| n.as_str()),
        Some("solarized light")
    );
    assert_eq!(after.base, before.base);
    assert_eq!(after.dark, before.dark);
    assert_eq!(after.light, before.light);
}

#[test]
fn rc_rewrite_twice_reads_same_as_once() {
    let input = "fg = #ffffff\n[dark]\nbg = #101010\n";
    let once = rewrite_extends(input, Some("ayu"), None, None);
    let twice = rewrite_extends(&once, Some("ayu"), None, None);
    assert_eq!(parse_rc_str(&once), parse_rc_str(&twice));
}

#[test]
fn rc_rewrite_twice_keeps_text_when_no_base_keys_are_kept() {
    let input = "extends = old\n\n[dark]\ncursor = #ff00ff\n\n";
    let once = rewrite_extends(input, Some("ayu"), None, Some("nord"));
    let twice = rewrite_extends(&once, Some("ayu"), None, Some("nord"));
    assert_eq!(once, "extends = ayu\nextends.light = nord\n\n[dark]\ncursor = #ff00ff\n");
    assert_eq!(twice, once);
}

#[test]
fn rc_rewrite_twice_with_kept_base_keys_keeps_one_blank_line() {
    let once = rewrite_extends("fg = #ffffff\n", Some("ayu"), None, None);
    let twice = rewrite_extends(&once, Some("ayu"), None, None);
    assert_eq!(once, "extends = ayu\n\nfg = #ffffff\n");
    assert_eq!(twice, once);
    let thrice = rewrite_extends(&twice, Some("nord"), Some("ayu"), None);
    assert_eq!(thrice, "extends = nord\nextends.dark = ayu\n\nfg = #ffffff\n");
}

#[test]
fn rc_rewrite_drops_blank_lines_between_block_and_base_keys() {
    let out = rewrite_extends("extends = old\n\n\nfg = #ffffff\n", Some("ayu"), None, None);
    assert_eq!(out, "extends = ayu\n\nfg = #ffffff\n");
    let a = "a\n";
    let once = rewrite_extends(a, Some("b"), None, None);
    assert_eq!(once, "extends = b\n\na\n");
    assert_eq!(rewrite_extends(&once, Some("b"), None, None), once);
}
