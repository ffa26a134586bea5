use colorant::terminal::osc::{
    emit, emit_reset, emit_tab_reset, tab_payload, tab_reset_payload, write_osc,
};
use colorant::terminal::style::Style;
use colorant::terminal::utils::{detect_from, Terminal};
use colorant::theme::model::{HexColor, ThemeLayer};

fn capture(theme: &ThemeLayer) -> String {
    let mut buf = String::new();
    if let Some(c) = &theme.fg {
        write_osc(&mut buf, false, &format!("10;{}", c.as_str()));
    }
    if let Some(c) = &theme.bg {
        write_osc(&mut buf, false, &format!("11;{}", c.as_str()));
    }
    buf
}

#[test]
fn emits_fg_and_bg() {
    let mut t = ThemeLayer::default();
    t.fg = Some(HexColor::parse("#cdd6f4").unwrap());
    t.bg = Some(HexColor::parse("#1e1e2e").unwrap());
    let s = capture(&t);
    assert!(s.contains("\x1b]10;#cdd6f4\x07"));
    assert!(s.contains("\x1b]11;#1e1e2e\x07"));
}

#[test]
fn tmux_wraps_with_dcs() {
    let mut buf = String::new();
    write_osc(&mut buf, true, "10;#abcdef");
    assert!(buf.starts_with("\x1bPtmux;\x1b\x1b]"));
    assert!(buf.ends_with("\x07\x1b\\"));
}

#[test]
fn tab_payload_strips_hash_for_iterm2() {
    assert_eq!(
        tab_payload(Terminal::ITerm2, "#abcdef").as_deref(),
        Some("1337;SetColors=tab=abcdef")
    );
}

#[test]
fn tab_payload_is_none_for_ghostty() {
    assert!(tab_payload(Terminal::Ghostty, "#abcdef").is_none());
}

#[test]
fn tab_reset_payload_is_default_for_iterm2() {
    assert_eq!(
        tab_reset_payload(Terminal::ITerm2),
        Some("1337;SetColors=tab=default")
    );
}

#[test]
fn tab_reset_payload_is_none_for_ghostty() {
    assert!(tab_reset_payload(Terminal::Ghostty).is_none());
}

#[test]
fn style_color_enabled_only_on_tty_without_no_color() {
    assert!(Style::for_env(true, false).color);
    assert!(!Style::for_env(false, false).color);
    assert!(!Style::for_env(true, true).color);
    assert!(!Style::for_env(false, true).color);
}

#[test]
fn painted_emits_sgr_only_when_enabled() {
    let on = Style::for_env(true, false);
    let off = Style::for_env(false, false);
    assert_eq!(on.red("err").to_string(), "\x1b[31merr\x1b[0m");
    assert_eq!(on.green("ok").to_string(), "\x1b[32mok\x1b[0m");
    assert_eq!(off.red("err").to_string(), "err");
    assert_eq!(off.green("ok").to_string(), "ok");
}

#[test]
fn rgb_painted_emits_24bit_only_when_enabled() {
    let on = Style::for_env(true, false);
    let off = Style::for_env(false, false);
    assert_eq!(
        on.fg_rgb("█", 0xab, 0xcd, 0xef).to_string(),
        "\x1b[38;2;171;205;239m█\x1b[0m"
    );
    assert_eq!(off.fg_rgb("█", 0xab, 0xcd, 0xef).to_string(), "█");
}

#[test]
fn doctor_color_enabled_only_on_tty_without_no_color() {
    assert!(Style::for_env(true, false).color);
    assert!(!Style::for_env(false, false).color);
    assert!(!Style::for_env(true, true).color);
    assert!(!Style::for_env(false, true).color);
}

#[test]
fn painted_emits_escapes_only_when_enabled() {
    let on = Style::for_env(true, false);
    let off = Style::for_env(false, false);
    assert_eq!(on.red("err").to_string(), "\x1b[31merr\x1b[0m");
    assert_eq!(on.green("ok").to_string(), "\x1b[32mok\x1b[0m");
    assert_eq!(off.red("err").to_string(), "err");
    assert_eq!(off.green("ok").to_string(), "ok");
}

// ---- further cases -------------------------------------------------

#[test]
fn emit_writes_set_slots_in_order_with_tab() {
    let mut t = ThemeLayer::default();
    t.bg = HexColor::parse("#010203");
    t.palette[3] = HexColor::parse("#0a0b0c");
    t.palette[12] = HexColor::parse("#0d0e0f");
    let bg = HexColor::parse("#010203").unwrap();
    let mut out = String::new();
    emit(&mut out, Terminal::ITerm2, &t, Some(&bg), false);
    assert_eq!(
        out,
        "\x1b]11;#010203\x07\x1b]4;3;#0a0b0c\x07\x1b]4;12;#0d0e0f\x07\x1b]1337;SetColors=tab=010203\x07"
    );
    let mut ghost = String::new();
    emit(&mut ghost, Terminal::Ghostty, &t, Some(&bg), false);
    assert!(!ghost.contains("1337"));
}

#[test]
fn emit_reset_covers_every_slot() {
    let mut out = String::new();
    emit_reset(&mut out, Terminal::Ghostty, false);
    assert!(out.starts_with("\x1b]110\x07\x1b]111\x07\x1b]112\x07\x1b]104;0\x07"));
    assert!(out.ends_with("\x1b]104;15\x07"));
    assert_eq!(out.matches("\x1b]104;").count(), 16);
    let mut it = String::new();
    emit_reset(&mut it, Terminal::ITerm2, true);
    assert!(it.ends_with("\x1bPtmux;\x1b\x1b]1337;SetColors=tab=default\x07\x1b\\"));
}

#[test]
fn emit_tab_reset_only_where_supported() {
    let mut a = String::new();
    emit_tab_reset(&mut a, Terminal::Ghostty, false);
    assert_eq!(a, "");
    emit_tab_reset(&mut a, Terminal::ITerm2, false);
    assert_eq!(a, "\x1b]1337;SetColors=tab=default\x07");
}

#[test]
fn tab_payload_strips_every_leading_hash() {
    assert_eq!(
        tab_payload(Terminal::ITerm2, "##ab").as_deref(),
        Some("1337;SetColors=tab=ab")
    );
}

#[test]
fn detect_from_env_priority() {
    assert_eq!(detect_from(Some("ghostty"), None, None), Some(Terminal::Ghostty));
    assert_eq!(detect_from(Some("iTerm.app"), None, None), Some(Terminal::ITerm2));
    assert_eq!(detect_from(Some("other"), Some("iTerm2"), None), Some(Terminal::ITerm2));
    assert_eq!(detect_from(None, None, Some("xterm-ghostty")), Some(Terminal::Ghostty));
    assert_eq!(detect_from(None, None, Some("ghostty")), Some(Terminal::Ghostty));
    assert_eq!(detect_from(None, None, Some("xterm-ghosttyx")), None);
    assert_eq!(detect_from(None, None, Some("xterm-256color")), None);
    assert_eq!(detect_from(None, None, None), None);
}
