use colorant::theme::rc::rewrite_extends;

#[test]
fn set_rewrite_extends_into_empty_writes_just_the_block() {
    let out = rewrite_extends("", Some("ayu"), None, None);
    assert_eq!(out, "extends = ayu\n");
}

#[test]
fn set_rewrite_extends_writes_all_three_slots() {
    let out = rewrite_extends("", Some("ayu"), Some("nord"), Some("solarized"));
    assert_eq!(
        out,
        "extends = ayu\nextends.dark = nord\nextends.light = solarized\n"
    );
}

#[test]
fn set_rewrite_extends_replaces_existing_extends_lines() {
    let input = "extends = old\nextends.dark = old-dark\nfg = #ffffff\n";
    let out = rewrite_extends(input, Some("new"), None, None);
    assert_eq!(out, "extends = new\n\nfg = #ffffff\n");
}

#[test]
fn set_rewrite_extends_preserves_base_keys_and_sections() {
    let input = "extends = old\nfg = #ffffff\n[dark]\ncursor = #ff00ff\n";
    let out = rewrite_extends(input, None, Some("nord"), None);
    assert_eq!(
        out,
        "extends.dark = nord\n\nfg = #ffffff\n\n[dark]\ncursor = #ff00ff\n"
    );
}

#[test]
fn set_rewrite_extends_with_all_nones_strips_existing_extends() {
    let input = "extends = old\nfg = #ffffff\n";
    let out = rewrite_extends(input, None, None, None);
    assert_eq!(out, "fg = #ffffff\n");
}

#[test]
fn set_rewrite_extends_no_trailing_blank_lines() {
    let mut current = String::new();
    for _ in 0..3 {
        current = rewrite_extends(&current, Some("ayu"), None, None);
    }
    assert_eq!(current, "extends = ayu\n");
}

#[test]
fn set_rewrite_extends_normalizes_crlf_to_lf() {
    let input = "extends = old\r\nfg = #ffffff\r\n";
    let out = rewrite_extends(input, Some("new"), None, None);
    assert_eq!(out, "extends = new\n\nfg = #ffffff\n");
}

#[test]
fn set_rewrite_extends_handles_missing_trailing_newline() {
    let input = "fg = #ffffff";
    let out = rewrite_extends(input, Some("ayu"), None, None);
    assert_eq!(out, "extends = ayu\n\nfg = #ffffff\n");
}

#[test]
fn set_rewrite_extends_preserves_unclosed_section_header_as_base() {
    let input = "[dark\nextends.dark = something\nfg = #ffffff\n";
    let out = rewrite_extends(input, None, Some("nord"), None);
    assert_eq!(out, "extends.dark = nord\n\n[dark\nfg = #ffffff\n");
}
