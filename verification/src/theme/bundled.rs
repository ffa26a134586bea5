//! Palettes that ship with colorant.
//!
//! Each entry is a `(name, contents)` pair in the `.colorant` format, kept
//! sorted by name. `colorant themes install` copies them into the user's
//! themes directory; the picker and `themes list` show them as the
//! `bundled` source.

use vstd::prelude::*;

verus! {
/// The `ayu-dark` palette.
pub const AYU_DARK: &'static str = "# Ayu Dark\nfg     = #bfbdb6\nbg     = #0b0e14\ncursor = #e6b450\ncolor0 = #11151c\ncolor1 = #ea6c73\ncolor2 = #7fd962\ncolor3 = #f9af4f\ncolor4 = #53bdfa\ncolor5 = #cda1fa\ncolor6 = #90e1c6\ncolor7 = #c7c7c7\ncolor8 = #686868\ncolor9 = #f07178\ncolor10 = #aad94c\ncolor11 = #ffb454\ncolor12 = #59c2ff\ncolor13 = #d2a6ff\ncolor14 = #95e6cb\ncolor15 = #ffffff\n";
/// The `ayu-light` palette.
pub const AYU_LIGHT: &'static str = "# Ayu Light\nfg     = #5c6166\nbg     = #f8f9fa\ncursor = #ffaa33\ncolor0 = #000000\ncolor1 = #ea6c6d\ncolor2 = #6cbf43\ncolor3 = #eca944\ncolor4 = #3199e1\ncolor5 = #9e75c7\ncolor6 = #46ba94\ncolor7 = #bababa\ncolor8 = #686868\ncolor9 = #f07171\ncolor10 = #86b300\ncolor11 = #f2ae49\ncolor12 = #399ee6\ncolor13 = #a37acc\ncolor14 = #4cbf99\ncolor15 = #d1d1d1\n";
/// The `catppuccin-frappe` palette.
pub const CATPPUCCIN_FRAPPE: &'static str = "# Catppuccin Frappé\nfg     = #c6d0f5\nbg     = #303446\ncursor = #f2d5cf\ncolor0 = #51576d\ncolor1 = #e78284\ncolor2 = #a6d189\ncolor3 = #e5c890\ncolor4 = #8caaee\ncolor5 = #f4b8e4\ncolor6 = #81c8be\ncolor7 = #b5bfe2\ncolor8 = #626880\ncolor9 = #e78284\ncolor10 = #a6d189\ncolor11 = #e5c890\ncolor12 = #8caaee\ncolor13 = #f4b8e4\ncolor14 = #81c8be\ncolor15 = #a5adce\n";
/// The `catppuccin-latte` palette.
pub const CATPPUCCIN_LATTE: &'static str = "# Catppuccin Latte\nfg     = #4c4f69\nbg     = #eff1f5\ncursor = #dc8a78\ncolor0 = #5c5f77\ncolor1 = #d20f39\ncolor2 = #40a02b\ncolor3 = #df8e1d\ncolor4 = #1e66f5\ncolor5 = #ea76cb\ncolor6 = #179299\ncolor7 = #acb0be\ncolor8 = #6c6f85\ncolor9 = #d20f39\ncolor10 = #40a02b\ncolor11 = #df8e1d\ncolor12 = #1e66f5\ncolor13 = #ea76cb\ncolor14 = #179299\ncolor15 = #bcc0cc\n";
/// The `catppuccin-macchiato` palette.
pub const CATPPUCCIN_MACCHIATO: &'static str = "# Catppuccin Macchiato\nfg     = #cad3f5\nbg     = #24273a\ncursor = #f4dbd6\ncolor0 = #494d64\ncolor1 = #ed8796\ncolor2 = #a6da95\ncolor3 = #eed49f\ncolor4 = #8aadf4\ncolor5 = #f5bde6\ncolor6 = #8bd5ca\ncolor7 = #b8c0e0\ncolor8 = #5b6078\ncolor9 = #ed8796\ncolor10 = #a6da95\ncolor11 = #eed49f\ncolor12 = #8aadf4\ncolor13 = #f5bde6\ncolor14 = #8bd5ca\ncolor15 = #a5adcb\n";
/// The `catppuccin-mocha` palette.
pub const CATPPUCCIN_MOCHA: &'static str = "# Catppuccin Mocha\nfg     = #cdd6f4\nbg     = #1e1e2e\ncursor = #f5e0dc\ncolor0 = #45475a\ncolor1 = #f38ba8\ncolor2 = #a6e3a1\ncolor3 = #f9e2af\ncolor4 = #89b4fa\ncolor5 = #f5c2e7\ncolor6 = #94e2d5\ncolor7 = #bac2de\ncolor8 = #585b70\ncolor9 = #f38ba8\ncolor10 = #a6e3a1\ncolor11 = #f9e2af\ncolor12 = #89b4fa\ncolor13 = #f5c2e7\ncolor14 = #94e2d5\ncolor15 = #a6adc8\n";
/// The `dracula` palette.
pub const DRACULA: &'static str = "# Dracula\nfg     = #f8f8f2\nbg     = #282a36\ncursor = #f8f8f2\ncolor0 = #21222c\ncolor1 = #ff5555\ncolor2 = #50fa7b\ncolor3 = #f1fa8c\ncolor4 = #bd93f9\ncolor5 = #ff79c6\ncolor6 = #8be9fd\ncolor7 = #f8f8f2\ncolor8 = #6272a4\ncolor9 = #ff6e6e\ncolor10 = #69ff94\ncolor11 = #ffffa5\ncolor12 = #d6acff\ncolor13 = #ff92df\ncolor14 = #a4ffff\ncolor15 = #ffffff\n";
/// The `gruvbox-dark` palette.
pub const GRUVBOX_DARK: &'static str = "# Gruvbox Dark\nfg     = #ebdbb2\nbg     = #282828\ncursor = #ebdbb2\ncolor0 = #282828\ncolor1 = #cc241d\ncolor2 = #98971a\ncolor3 = #d79921\ncolor4 = #458588\ncolor5 = #b16286\ncolor6 = #689d6a\ncolor7 = #a89984\ncolor8 = #928374\ncolor9 = #fb4934\ncolor10 = #b8bb26\ncolor11 = #fabd2f\ncolor12 = #83a598\ncolor13 = #d3869b\ncolor14 = #8ec07c\ncolor15 = #ebdbb2\n";
/// The `gruvbox-light` palette.
pub const GRUVBOX_LIGHT: &'static str = "# Gruvbox Light\nfg     = #3c3836\nbg     = #fbf1c7\ncursor = #3c3836\ncolor0 = #fbf1c7\ncolor1 = #cc241d\ncolor2 = #98971a\ncolor3 = #d79921\ncolor4 = #458588\ncolor5 = #b16286\ncolor6 = #689d6a\ncolor7 = #7c6f64\ncolor8 = #928374\ncolor9 = #9d0006\ncolor10 = #79740e\ncolor11 = #b57614\ncolor12 = #076678\ncolor13 = #8f3f71\ncolor14 = #427b58\ncolor15 = #3c3836\n";
/// The `nord` palette.
pub const NORD: &'static str = "# Nord\nfg     = #d8dee9\nbg     = #2e3440\ncursor = #d8dee9\ncolor0 = #3b4252\ncolor1 = #bf616a\ncolor2 = #a3be8c\ncolor3 = #ebcb8b\ncolor4 = #81a1c1\ncolor5 = #b48ead\ncolor6 = #88c0d0\ncolor7 = #e5e9f0\ncolor8 = #4c566a\ncolor9 = #bf616a\ncolor10 = #a3be8c\ncolor11 = #ebcb8b\ncolor12 = #81a1c1\ncolor13 = #b48ead\ncolor14 = #8fbcbb\ncolor15 = #eceff4\n";
/// The `one-dark` palette.
pub const ONE_DARK: &'static str = "# One Dark\nfg     = #abb2bf\nbg     = #282c34\ncursor = #528bff\ncolor0 = #282c34\ncolor1 = #e06c75\ncolor2 = #98c379\ncolor3 = #e5c07b\ncolor4 = #61afef\ncolor5 = #c678dd\ncolor6 = #56b6c2\ncolor7 = #abb2bf\ncolor8 = #5c6370\ncolor9 = #e06c75\ncolor10 = #98c379\ncolor11 = #e5c07b\ncolor12 = #61afef\ncolor13 = #c678dd\ncolor14 = #56b6c2\ncolor15 = #ffffff\n";
/// The `solarized-dark` palette.
pub const SOLARIZED_DARK: &'static str = "# Solarized Dark\nfg     = #839496\nbg     = #002b36\ncursor = #93a1a1\ncolor0 = #073642\ncolor1 = #dc322f\ncolor2 = #859900\ncolor3 = #b58900\ncolor4 = #268bd2\ncolor5 = #d33682\ncolor6 = #2aa198\ncolor7 = #eee8d5\ncolor8 = #002b36\ncolor9 = #cb4b16\ncolor10 = #586e75\ncolor11 = #657b83\ncolor12 = #839496\ncolor13 = #6c71c4\ncolor14 = #93a1a1\ncolor15 = #fdf6e3\n";
/// The `solarized-light` palette.
pub const SOLARIZED_LIGHT: &'static str = "# Solarized Light\nfg     = #657b83\nbg     = #fdf6e3\ncursor = #586e75\ncolor0 = #073642\ncolor1 = #dc322f\ncolor2 = #859900\ncolor3 = #b58900\ncolor4 = #268bd2\ncolor5 = #d33682\ncolor6 = #2aa198\ncolor7 = #eee8d5\ncolor8 = #002b36\ncolor9 = #cb4b16\ncolor10 = #586e75\ncolor11 = #657b83\ncolor12 = #839496\ncolor13 = #6c71c4\ncolor14 = #93a1a1\ncolor15 = #fdf6e3\n";
/// The `tokyo-night` palette.
pub const TOKYO_NIGHT: &'static str = "# Tokyo Night\nfg     = #c0caf5\nbg     = #1a1b26\ncursor = #c0caf5\ncolor0 = #15161e\ncolor1 = #f7768e\ncolor2 = #9ece6a\ncolor3 = #e0af68\ncolor4 = #7aa2f7\ncolor5 = #bb9af7\ncolor6 = #7dcfff\ncolor7 = #a9b1d6\ncolor8 = #414868\ncolor9 = #f7768e\ncolor10 = #9ece6a\ncolor11 = #e0af68\ncolor12 = #7aa2f7\ncolor13 = #bb9af7\ncolor14 = #7dcfff\ncolor15 = #c0caf5\n";
/// The `tokyo-night-day` palette.
pub const TOKYO_NIGHT_DAY: &'static str = "# Tokyo Night Day\nfg     = #3760bf\nbg     = #e1e2e7\ncursor = #3760bf\ncolor0 = #e9e9ed\ncolor1 = #f52a65\ncolor2 = #587539\ncolor3 = #8c6c3e\ncolor4 = #2e7de9\ncolor5 = #9854f1\ncolor6 = #007197\ncolor7 = #6172b0\ncolor8 = #a1a6c5\ncolor9 = #f52a65\ncolor10 = #587539\ncolor11 = #8c6c3e\ncolor12 = #2e7de9\ncolor13 = #9854f1\ncolor14 = #007197\ncolor15 = #3760bf\n";
/// Name and contents of every bundled palette, sorted by name.
pub open spec fn catalog() -> Seq<(Seq<char>, Seq<char>)> {
    seq![
        ("ayu-dark"@, AYU_DARK@),
        ("ayu-light"@, AYU_LIGHT@),
        ("catppuccin-frappe"@, CATPPUCCIN_FRAPPE@),
        ("catppuccin-latte"@, CATPPUCCIN_LATTE@),
        ("catppuccin-macchiato"@, CATPPUCCIN_MACCHIATO@),
        ("catppuccin-mocha"@, CATPPUCCIN_MOCHA@),
        ("dracula"@, DRACULA@),
        ("gruvbox-dark"@, GRUVBOX_DARK@),
        ("gruvbox-light"@, GRUVBOX_LIGHT@),
        ("nord"@, NORD@),
        ("one-dark"@, ONE_DARK@),
        ("solarized-dark"@, SOLARIZED_DARK@),
        ("solarized-light"@, SOLARIZED_LIGHT@),
        ("tokyo-night"@, TOKYO_NIGHT@),
        ("tokyo-night-day"@, TOKYO_NIGHT_DAY@),
    ]
}

pub open spec fn pairs_view(v: Seq<(&'static str, &'static str)>) -> Seq<(Seq<char>, Seq<char>)> {
    Seq::new(v.len(), |i: int| (v[i].0@, v[i].1@))
}

/// Contents of the first catalog entry named `name`.
pub open spec fn lookup(cat: Seq<(Seq<char>, Seq<char>)>, name: Seq<char>) -> Option<Seq<char>>
    decreases cat.len(),
{
    if cat.len() == 0 {
        None
    } else if cat[0].0 == name {
        Some(cat[0].1)
    } else {
        lookup(cat.drop_first(), name)
    }
}

/// Every bundled palette as `(name, contents)`, sorted by name.
pub fn bundled_themes() -> (r: Vec<(&'static str, &'static str)>)
    ensures
        pairs_view(r@) == catalog(),
{
    let mut r: Vec<(&'static str, &'static str)> = Vec::new();
    r.push(("ayu-dark", AYU_DARK));
    r.push(("ayu-light", AYU_LIGHT));
    r.push(("catppuccin-frappe", CATPPUCCIN_FRAPPE));
    r.push(("catppuccin-latte", CATPPUCCIN_LATTE));
    r.push(("catppuccin-macchiato", CATPPUCCIN_MACCHIATO));
    r.push(("catppuccin-mocha", CATPPUCCIN_MOCHA));
    r.push(("dracula", DRACULA));
    r.push(("gruvbox-dark", GRUVBOX_DARK));
    r.push(("gruvbox-light", GRUVBOX_LIGHT));
    r.push(("nord", NORD));
    r.push(("one-dark", ONE_DARK));
    r.push(("solarized-dark", SOLARIZED_DARK));
    r.push(("solarized-light", SOLARIZED_LIGHT));
    r.push(("tokyo-night", TOKYO_NIGHT));
    r.push(("tokyo-night-day", TOKYO_NIGHT_DAY));
    assert(pairs_view(r@) =~= catalog());
    r
}

/// Contents of the bundled palette called `name`.
pub fn bundled_content(name: &str) -> (r: Option<&'static str>)
    ensures
        match lookup(catalog(), name@) {
            Some(c) => r matches Some(s) && s@ == c,
            None => r is None,
        },
{
    let all = bundled_themes();
    let want = crate::text::chars_of(name);
    let mut i: usize = 0;
    assert(catalog().skip(0) =~= catalog());
    while i < all.len()
        invariant
            i <= all.len(),
            want@ == name@,
            pairs_view(all@) == catalog(),
            lookup(catalog(), name@) == lookup(catalog().skip(i as int), name@),
        decreases all.len() - i,
    {
        let (n, c) = all[i];
        let here = crate::text::chars_of(n);
        assert(catalog().skip(i as int).drop_first() =~= catalog().skip(i + 1));
        assert(catalog().skip(i as int)[0] == catalog()[i as int]);
        if crate::text::eq_chars(&here, &want) {
            return Some(c);
        }
        i = i + 1;
    }
    None
}

/// Names of every bundled palette, in catalog order.
pub fn bundled_names() -> (r: Vec<String>)
    ensures
        r@.len() == catalog().len(),
        forall|i: int| 0 <= i < r@.len() ==> #[trigger] r@[i]@ == catalog()[i].0,
{
    let all = bundled_themes();
    let mut r: Vec<String> = Vec::new();
    let mut i: usize = 0;
    while i < all.len()
        invariant
            i <= all.len(),
            pairs_view(all@) == catalog(),
            r@.len() == i,
            forall|j: int| 0 <= j < i ==> #[trigger] r@[j]@ == catalog()[j].0,
        decreases all.len() - i,
    {
        let (n, _c) = all[i];
        assert(catalog()[i as int].0 == n@);
        let chars = crate::text::chars_of(n);
        r.push(crate::text::string_of(&chars));
        i = i + 1;
    }
    r
}

} // verus!
