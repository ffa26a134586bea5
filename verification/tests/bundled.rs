use colorant::theme::bundled::{bundled_content, bundled_names, bundled_themes};

#[test]
fn includes_known_palettes() {
    let names: Vec<&str> = bundled_themes().iter().map(|(n, _)| *n).collect();
    assert!(names.contains(&"catppuccin-mocha"));
    assert!(names.contains(&"tokyo-night"));
    assert!(names.contains(&"nord"));
}

#[test]
fn entries_are_sorted_by_name() {
    let names: Vec<&str> = bundled_themes().iter().map(|(n, _)| *n).collect();
    let mut sorted = names.clone();
    sorted.sort_unstable();
    assert_eq!(names, sorted);
}

#[test]
fn contents_are_non_empty() {
    for (name, content) in bundled_themes() {
        assert!(!content.is_empty(), "palette {} has empty contents", name);
    }
}

// ---- further cases -------------------------------------------------

#[test]
fn bundled_lookup_and_names() {
    assert!(bundled_content("dracula").unwrap().contains("bg     = #282a36"));
    assert!(bundled_content("missing").is_none());
    assert_eq!(bundled_names().len(), 15);
    assert_eq!(bundled_names()[0], "ayu-dark");
}
