use colorant::theme::model::{HexColor, ThemeName, ThemeNameError};

#[test]
fn normalizes_to_lowercase() {
    let a = HexColor::parse("#AABBCC").unwrap();
    let b = HexColor::parse("#aabbcc").unwrap();
    assert_eq!(a.as_str(), "#aabbcc");
    assert_eq!(a, b);
}

#[test]
fn accepts_mixed_case() {
    let c = HexColor::parse("#AbCdEf").unwrap();
    assert_eq!(c.as_str(), "#abcdef");
}

#[test]
fn hex_color_rejects_wrong_shapes() {
    assert!(HexColor::parse("").is_none());
    assert!(HexColor::parse("#abcde").is_none());
    assert!(HexColor::parse("#abcdeff").is_none());
    assert!(HexColor::parse("abcdef0").is_none());
    assert!(HexColor::parse("#abcdeg").is_none());
    assert!(HexColor::parse("#ábcdef").is_none());
}

#[test]
fn accepts_alnum_dot_dash_underscore() {
    assert_eq!(
        ThemeName::parse("catppuccin-mocha").unwrap().as_str(),
        "catppuccin-mocha"
    );
    assert!(ThemeName::parse("one_dark").is_ok());
    assert!(ThemeName::parse("solarized.v2").is_ok());
    assert!(ThemeName::parse("ayu123").is_ok());
}

#[test]
fn rejects_empty() {
    assert_eq!(ThemeName::parse(""), Err(ThemeNameError::Empty));
}

#[test]
fn rejects_path_traversal_chars() {
    assert!(matches!(
        ThemeName::parse("../etc"),
        Err(ThemeNameError::InvalidChar(_, '/'))
    ));
    assert!(matches!(
        ThemeName::parse("foo/bar"),
        Err(ThemeNameError::InvalidChar(_, '/'))
    ));
    assert!(matches!(
        ThemeName::parse("~/themes"),
        Err(ThemeNameError::InvalidChar(_, '~'))
    ));
}

#[test]
fn accepts_gogh_style_names() {
    assert_eq!(ThemeName::parse("3024 Day").unwrap().as_str(), "3024 Day");
    assert_eq!(
        ThemeName::parse("Flatland (Palenight)").unwrap().as_str(),
        "Flatland (Palenight)"
    );
    assert!(ThemeName::parse("Vs Code Dark+").is_ok());
    assert!(ThemeName::parse("Catppuccin Frappé").is_ok());
    assert!(ThemeName::parse("테마").is_ok());
}

#[test]
fn rejects_leading_or_trailing_whitespace() {
    assert!(matches!(
        ThemeName::parse(" leading"),
        Err(ThemeNameError::InvalidChar(_, ' '))
    ));
    assert!(matches!(
        ThemeName::parse("trailing "),
        Err(ThemeNameError::InvalidChar(_, ' '))
    ));
    assert!(matches!(
        ThemeName::parse("\tlead-tab"),
        Err(ThemeNameError::InvalidChar(_, '\t'))
    ));
}

#[test]
fn rejects_interior_tab_and_quotes() {
    assert!(matches!(
        ThemeName::parse("name\tx"),
        Err(ThemeNameError::InvalidChar(_, '\t'))
    ));
    assert!(matches!(
        ThemeName::parse("\"quoted\""),
        Err(ThemeNameError::InvalidChar(_, '"'))
    ));
}

#[test]
fn invalid_char_error_carries_the_whole_input() {
    assert_eq!(
        ThemeName::parse("a/b"),
        Err(ThemeNameError::InvalidChar("a/b".to_string(), '/'))
    );
}

#[test]
fn theme_name_rejects_c1_control_characters() {
    assert!(ThemeName::parse("dark\u{85}theme").is_err());
    assert!(ThemeName::parse("x\u{9f}").is_err());
    assert!(ThemeName::parse("café").is_ok());
}
