use colorant::theme::gogh::{
    cached_names, extract_json_string_value, gogh_cache_dir, index_path, json_escape,
    parse_gogh_yaml, parse_names, parse_tree_response, percent_encode_path, serialize_names,
    split_kv, sync, theme_file_url, GoghError,
};
use colorant::theme::model::HexColor;

const SAMPLE: &str = "name: Dracula\n\
    foreground: '#f8f8f2'\n\
    background: '#282a36'\n\
    cursor: '#bbbbbb'\n\
    color_01: '#000000'\n\
    color_02: '#ff5555'\n\
    color_03: '#50fa7b'\n\
    color_04: '#f1fa8c'\n\
    color_05: '#bd93f9'\n\
    color_06: '#ff79c6'\n\
    color_07: '#8be9fd'\n\
    color_08: '#bbbbbb'\n\
    color_09: '#555555'\n\
    color_10: '#ff5555'\n\
    color_11: '#50fa7b'\n\
    color_12: '#f1fa8c'\n\
    color_13: '#bd93f9'\n\
    color_14: '#ff79c6'\n\
    color_15: '#8be9fd'\n\
    color_16: '#ffffff'\n";

#[test]
fn parse_gogh_yaml_extracts_all_color_slots() {
    let palette = parse_gogh_yaml(SAMPLE).unwrap();
    let layer = &palette.layer;
    assert_eq!(layer.fg, HexColor::parse("#f8f8f2"));
    assert_eq!(layer.bg, HexColor::parse("#282a36"));
    assert_eq!(layer.cursor, HexColor::parse("#bbbbbb"));
    assert_eq!(layer.palette[0], HexColor::parse("#000000"));
    assert_eq!(layer.palette[15], HexColor::parse("#ffffff"));
}

#[test]
fn parse_gogh_yaml_handles_double_and_single_quoted_values() {
    let content = "foreground: \"#abcdef\"\nbackground: '#001122'\n";
    let palette = parse_gogh_yaml(content).unwrap();
    assert_eq!(palette.layer.fg, HexColor::parse("#abcdef"));
    assert_eq!(palette.layer.bg, HexColor::parse("#001122"));
}

#[test]
fn parse_gogh_yaml_strips_trailing_yaml_comments() {
    let content = "\
        foreground: '#abcdef'    # Foreground (Text)\n\
        background: '#001122'    # Background\n\
        cursor: \"#bbbbbb\"     # Cursor\n\
        color_01: '#363636'    # Black (Host)\n\
    ";
    let palette = parse_gogh_yaml(content).unwrap();
    assert_eq!(palette.layer.fg, HexColor::parse("#abcdef"));
    assert_eq!(palette.layer.bg, HexColor::parse("#001122"));
    assert_eq!(palette.layer.cursor, HexColor::parse("#bbbbbb"));
    assert_eq!(palette.layer.palette[0], HexColor::parse("#363636"));
}

#[test]
fn parse_gogh_yaml_ignores_unknown_top_level_keys() {
    let content = "name: Whatever\nlicense: MIT\nfg: nonstandard\nforeground: '#abcdef'\n";
    let palette = parse_gogh_yaml(content).unwrap();
    assert_eq!(palette.layer.fg, HexColor::parse("#abcdef"));
}

#[test]
fn parse_gogh_yaml_skips_blank_and_comment_lines() {
    let content = "# comment\n\nforeground: '#abcdef'\n";
    let palette = parse_gogh_yaml(content).unwrap();
    assert_eq!(palette.layer.fg, HexColor::parse("#abcdef"));
}

#[test]
fn parse_gogh_yaml_skips_out_of_range_color_indices() {
    let content = "color_00: '#000000'\ncolor_17: '#000000'\ncolor_01: '#abcdef'\n";
    let palette = parse_gogh_yaml(content).unwrap();
    assert_eq!(palette.layer.palette[0], HexColor::parse("#abcdef"));
}

#[test]
fn parse_tree_response_filters_to_themes_yaml() {
    let body = r#"{"tree":[
        {"path":"README.md","type":"blob"},
        {"path":"themes/Dracula.yml","type":"blob"},
        {"path":"themes/Nord.yml","type":"blob"},
        {"path":"themes/subdir/Foo.yml","type":"blob"},
        {"path":"themes/Foo.json","type":"blob"},
        {"path":"themes","type":"tree"}
    ]}"#;
    let names = parse_tree_response(body).unwrap();
    assert_eq!(names, vec!["Dracula".to_string(), "Nord".to_string()]);
}

#[test]
fn parse_tree_response_errors_when_empty() {
    let body = r#"{"tree":[{"path":"README.md","type":"blob"}]}"#;
    assert!(parse_tree_response(body).is_err());
}

#[test]
fn names_round_trip_through_serialize_and_parse() {
    let names = vec![
        "Dracula".to_string(),
        "Nord".to_string(),
        "Tokyo Night".to_string(),
    ];
    let json = serialize_names(&names);
    let back = parse_names(&json).unwrap();
    assert_eq!(back, names);
}

#[test]
fn names_round_trip_escapes_quotes() {
    let names = vec!["weird\"name".to_string()];
    let json = serialize_names(&names);
    let back = parse_names(&json).unwrap();
    assert_eq!(back, names);
}

#[test]
fn parse_names_rejects_truncated_input() {
    let body = "[\"a\",\"b";
    assert!(parse_names(body).is_err());
}

#[test]
fn parse_tree_response_recognizes_github_message_error() {
    let body = r#"{"message":"API rate limit exceeded for ...","documentation_url":"..."}"#;
    let err = parse_tree_response(body).unwrap_err();
    let msg = err.message();
    assert!(msg.contains("GitHub API error"), "{msg}");
    assert!(msg.contains("rate limit"), "{msg}");
}

#[test]
fn parse_tree_response_ignores_path_substring_in_values() {
    let body =
        r#"{"description":"see path docs","tree":[{"path":"themes/Foo.yml","type":"blob"}]}"#;
    let names = parse_tree_response(body).unwrap();
    assert_eq!(names, vec!["Foo".to_string()]);
}

#[test]
fn parse_gogh_yaml_errors_when_no_color_keys() {
    let body = "name: Whatever\nlicense: MIT\nauthor: Someone\n";
    assert!(parse_gogh_yaml(body).is_err());
}

#[test]
fn percent_encode_path_handles_spaces_and_parens() {
    assert_eq!(percent_encode_path("3024 Day"), "3024%20Day");
    assert_eq!(
        percent_encode_path("Flatland (Palenight)"),
        "Flatland%20%28Palenight%29"
    );
    assert_eq!(percent_encode_path("Dracula"), "Dracula");
    assert_eq!(percent_encode_path("tokyo-night-day"), "tokyo-night-day");
}

#[test]
fn split_kv_unquoted_hash_starts_comment() {
    assert_eq!(
        split_kv("foreground: #abcdef"),
        Some(("foreground".to_string(), "".to_string()))
    );
}

#[test]
fn split_kv_returns_none_for_lines_without_colon() {
    assert_eq!(split_kv("just-a-bare-line"), None);
    assert_eq!(split_kv(""), None);
}

// ---- further cases -------------------------------------------------

#[test]
fn parse_gogh_yaml_error_is_no_color_keys() {
    assert_eq!(
        parse_gogh_yaml("name: x\n").unwrap_err(),
        GoghError::NoColorKeys
    );
}

#[test]
fn parse_gogh_yaml_maps_color_16_to_last_slot_and_lowercases_keys() {
    let palette = parse_gogh_yaml("COLOR_16: '#ABCDEF'\nColor_02: \"#010203\"\n").unwrap();
    assert_eq!(palette.layer.palette[15].as_ref().unwrap().as_str(), "#abcdef");
    assert_eq!(palette.layer.palette[1].as_ref().unwrap().as_str(), "#010203");
}

#[test]
fn parse_gogh_yaml_later_key_wins() {
    let palette = parse_gogh_yaml("foreground: '#111111'\nforeground: '#222222'\n").unwrap();
    assert_eq!(palette.layer.fg.unwrap().as_str(), "#222222");
}

#[test]
fn split_kv_quoted_value_keeps_hash_and_drops_comment() {
    assert_eq!(
        split_kv("  Key : '#abc' # note"),
        Some(("key".to_string(), "#abc".to_string()))
    );
    assert_eq!(
        split_kv("k: \"unterminated"),
        Some(("k".to_string(), "unterminated".to_string()))
    );
    assert_eq!(split_kv(": value"), None);
}

#[test]
fn percent_encode_path_encodes_reserved_and_multibyte() {
    assert_eq!(percent_encode_path("a/b?c#d"), "a%2Fb%3Fc%23d");
    assert_eq!(percent_encode_path("é"), "%C3%A9");
    assert_eq!(percent_encode_path(""), "");
}

#[test]
fn theme_file_url_appends_encoded_name() {
    assert_eq!(
        theme_file_url("3024 Day"),
        "https://raw.githubusercontent.com/Gogh-Co/Gogh/master/themes/3024%20Day.yml"
    );
}

#[test]
fn parse_tree_response_sorts_and_dedups() {
    let body = r#"[{"path":"themes/b.yml"},{"path" : "themes/a.yml"},{"path":"themes/b.yml"}]"#;
    assert_eq!(
        parse_tree_response(body).unwrap(),
        vec!["a".to_string(), "b".to_string()]
    );
}

#[test]
fn parse_tree_response_without_message_is_no_themes() {
    assert_eq!(
        parse_tree_response("{}").unwrap_err(),
        GoghError::NoThemesInTree
    );
}

#[test]
fn parse_tree_response_stops_at_unterminated_value() {
    let body = r#"{"path":"themes/a.yml"},{"path":"themes/b.y"#;
    assert_eq!(parse_tree_response(body).unwrap(), vec!["a".to_string()]);
}

#[test]
fn extract_json_string_value_reads_first_key_with_colon() {
    assert_eq!(
        extract_json_string_value(r#"{"message" : "hi there"}"#, "message"),
        Some("hi there".to_string())
    );
    assert_eq!(extract_json_string_value(r#"{"message"}"#, "message"), None);
    assert_eq!(extract_json_string_value(r#"{"other":"x"}"#, "message"), None);
}

#[test]
fn serialize_names_exact_format() {
    let names = vec!["a".to_string(), "b\\c".to_string()];
    assert_eq!(serialize_names(&names), "[\"a\",\"b\\\\c\"]\n");
    assert_eq!(serialize_names(&[]), "[]\n");
}

#[test]
fn json_escape_escapes_backslash_and_quote() {
    assert_eq!(json_escape("a\"b\\c"), "a\\\"b\\\\c");
}

#[test]
fn parse_names_errors() {
    assert_eq!(parse_names("nope").unwrap_err(), GoghError::MalformedIndex);
    assert_eq!(parse_names("[").unwrap_err(), GoghError::MalformedIndex);
    assert_eq!(parse_names("[\"x]").unwrap_err(), GoghError::UnterminatedIndex);
    assert_eq!(parse_names("  []  ").unwrap(), Vec::<String>::new());
}

#[test]
fn names_round_trip_with_backslashes_and_commas() {
    let names = vec!["a\\".to_string(), "x,y".to_string(), "".to_string()];
    let back = parse_names(&serialize_names(&names)).unwrap();
    assert_eq!(back, names);
}

#[test]
fn cached_names_none_and_some() {
    assert_eq!(cached_names(None), Ok(None));
    assert_eq!(
        cached_names(Some("[\"a\"]")),
        Ok(Some(vec!["a".to_string()]))
    );
    assert_eq!(cached_names(Some("x")), Err(GoghError::MalformedIndex));
}

#[test]
fn sync_returns_names_and_index() {
    let (names, idx) = sync(r#"{"path":"themes/Nord.yml"}"#).unwrap();
    assert_eq!(names, vec!["Nord".to_string()]);
    assert_eq!(idx, "[\"Nord\"]\n");
}

#[test]
fn cache_paths() {
    assert_eq!(gogh_cache_dir(Some("/c")).unwrap(), "/c/remotes/gogh");
    assert_eq!(index_path(Some("/c")).unwrap(), "/c/remotes/gogh/index.json");
    assert_eq!(gogh_cache_dir(None), Err(GoghError::NoCacheDir));
    assert_eq!(
        GoghError::NoCacheDir.message(),
        "could not resolve cache dir"
    );
}
