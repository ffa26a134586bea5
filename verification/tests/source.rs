use colorant::theme::source::{parse_ref, Source, SourceError};

#[test]
fn source_names_round_trip() {
    for source in Source::all() {
        assert_eq!(Source::parse(source.name()), Some(source));
    }
}

#[test]
fn source_parse_unknown_returns_none() {
    assert!(Source::parse("definitely-not-a-source").is_none());
}

#[test]
fn parse_ref_recognizes_source_prefix() {
    assert_eq!(parse_ref("gogh:Dracula"), (Some(Source::Gogh), "Dracula"));
    assert_eq!(
        parse_ref("bundled:catppuccin-mocha"),
        (Some(Source::Bundled), "catppuccin-mocha")
    );
}

#[test]
fn parse_ref_unqualified_returns_none_source() {
    assert_eq!(parse_ref("dracula"), (None, "dracula"));
}

#[test]
fn parse_ref_unknown_prefix_treats_whole_string_as_name() {
    assert_eq!(parse_ref("wezterm:Foo"), (None, "wezterm:Foo"));
}

#[test]
fn bundled_list_returns_known_themes() {
    let names = Source::Bundled.list(None).unwrap();
    assert!(names.contains(&"catppuccin-mocha".to_string()));
}

// ---- further cases -------------------------------------------------

#[test]
fn parse_ref_splits_at_first_colon_only() {
    assert_eq!(parse_ref("gogh:a:b"), (Some(Source::Gogh), "a:b"));
    assert_eq!(parse_ref("gogh:"), (Some(Source::Gogh), ""));
}

#[test]
fn gogh_list_needs_a_synced_index() {
    assert_eq!(Source::Gogh.list(None), Err(SourceError::NotSynced));
    assert_eq!(
        Source::Gogh.list(Some("[\"Nord\"]")).unwrap(),
        vec!["Nord".to_string()]
    );
    assert_eq!(
        SourceError::NotSynced.message(),
        "gogh catalog not synced yet — run `colorant themes sync` first"
    );
}

#[test]
fn fetch_bundled_and_missing() {
    let p = Source::Bundled.fetch("dracula", None).unwrap();
    assert_eq!(p.layer.bg.unwrap().as_str(), "#282a36");
    let err = Source::Bundled.fetch("nope", None).unwrap_err();
    assert_eq!(err, SourceError::NoBundledTheme("nope".to_string()));
    assert_eq!(err.message(), "no bundled theme named nope");
}

#[test]
fn fetch_gogh_parses_download() {
    let p = Source::Gogh
        .fetch("X", Some("background: '#010203'\n"))
        .unwrap();
    assert_eq!(p.layer.bg.unwrap().as_str(), "#010203");
}

#[test]
fn sync_bundled_is_noop_and_gogh_builds_index() {
    assert_eq!(Source::Bundled.sync(None), Ok(None));
    assert_eq!(
        Source::Gogh.sync(Some(r#"{"path":"themes/A.yml"}"#)),
        Ok(Some("[\"A\"]\n".to_string()))
    );
}
