use colorant::config::{cache_dir_for, config_dir_for, Config, THEME_FILE_NAME};
use colorant::mode::{forced_mode, mode_from_defaults};
use colorant::shell::zsh::hook;
use colorant::theme::model::Mode;
use colorant::walk::{candidates, find_nearest};

#[test]
fn cache_dir_uses_xdg_when_set() {
    assert_eq!(
        cache_dir_for(Some("/tmp/xdg"), Some("/home/me")),
        Some("/tmp/xdg/colorant".to_string())
    );
}

#[test]
fn cache_dir_falls_back_when_xdg_empty() {
    assert_eq!(
        cache_dir_for(Some(""), Some("/home/me")),
        Some("/home/me/.cache/colorant".to_string())
    );
}

#[test]
fn cache_dir_falls_back_when_xdg_unset() {
    assert_eq!(
        cache_dir_for(None, Some("/home/me")),
        Some("/home/me/.cache/colorant".to_string())
    );
}

#[test]
fn cache_dir_returns_none_when_no_home_and_no_xdg() {
    assert_eq!(cache_dir_for(None, None), None);
    assert_eq!(cache_dir_for(Some(""), None), None);
}

#[test]
fn tab_follows_window_defaults_to_true() {
    assert!(Config::with_defaults(None).tab_follows_window);
    assert!(Config::with_defaults(Some("/home/me/.config/colorant")).tab_follows_window);
}

#[test]
fn embeds_binary_path() {
    let s = hook("/usr/local/bin/colorant");
    assert!(s.contains("/usr/local/bin/colorant"));
    assert!(s.contains("add-zsh-hook chpwd"));
    assert!(s.contains("add-zsh-hook precmd"));
}

#[test]
fn has_begin_end_markers() {
    let s = hook("colorant");
    assert!(s.contains("# >>> colorant init >>>"));
    assert!(s.contains("# <<< colorant init <<<"));
}

// ---- further cases -------------------------------------------------

#[test]
fn hook_quotes_binary_and_calls_apply() {
    let s = hook("/bin/c");
    assert!(s.contains("  \"/bin/c\" apply >/dev/tty 2>/dev/null || true\n"));
    assert!(s.ends_with("# <<< colorant init <<<\n"));
}

#[test]
fn config_defaults() {
    let c = Config::with_defaults(Some("/h/.config/colorant"));
    assert_eq!(c.base_theme_dir, "/h/.config/colorant/themes");
    assert!(c.default_theme.is_none());
    assert_eq!(Config::with_defaults(None).base_theme_dir, ".colorant/themes");
    assert_eq!(THEME_FILE_NAME, ".colorantrc");
}

#[test]
fn config_dir_prefers_xdg() {
    assert_eq!(
        config_dir_for(Some("/x"), Some("/h")),
        Some("/x/colorant".to_string())
    );
    assert_eq!(
        config_dir_for(None, Some("/h")),
        Some("/h/.config/colorant".to_string())
    );
    assert_eq!(config_dir_for(Some(""), None), None);
}

#[test]
fn forced_mode_is_case_insensitive() {
    assert_eq!(forced_mode(Some("DARK")), Some(Mode::Dark));
    assert_eq!(forced_mode(Some("Light")), Some(Mode::Light));
    assert_eq!(forced_mode(Some("auto")), None);
    assert_eq!(forced_mode(None), None);
}

#[test]
fn defaults_output_decides_mode() {
    assert_eq!(mode_from_defaults(true, "Dark\n", ""), Mode::Dark);
    assert_eq!(mode_from_defaults(true, "  dark ", ""), Mode::Dark);
    assert_eq!(mode_from_defaults(true, "Light", ""), Mode::Light);
    assert_eq!(
        mode_from_defaults(false, "", "The domain/default pair does not exist"),
        Mode::Light
    );
    assert_eq!(mode_from_defaults(false, "", "boom"), Mode::Unknown);
}

#[test]
fn candidates_walk_to_the_root_nearest_first() {
    assert_eq!(
        candidates("/a/b", ".colorantrc"),
        vec![
            "/a/b/.colorantrc".to_string(),
            "/a/.colorantrc".to_string(),
            "/.colorantrc".to_string()
        ]
    );
}

#[test]
fn find_nearest_takes_first_existing() {
    let c = candidates("/a/b", ".colorantrc");
    assert_eq!(
        find_nearest(&c, &[false, true, true]),
        Some("/a/.colorantrc".to_string())
    );
    assert_eq!(find_nearest(&c, &[false, false, false]), None);
}
