//! Global configuration, as loaded from `~/.config/colorant/config.toml`.
//!
//! All fields are optional in the file; missing values fall back to the
//! defaults here. Reading the file and the environment is the binary's
//! part: this module holds the settings and the path decisions.

use crate::theme::model::ThemeName;
use crate::theme::resolve::{join, join_path};
use vstd::prelude::*;

verus! {

/// Name of the per-directory config file looked for during walk-up.
pub const THEME_FILE_NAME: &'static str = ".colorantrc";

/// colorant's settings.
pub struct Config {
    /// Directory where palette files referenced via `extends` (in
    /// `.colorantrc` files) and `default_theme` are looked up. Defaults to
    /// `<config dir>/themes`.
    pub base_theme_dir: String,
    /// Palette applied when no `.colorantrc` is found while walking up from
    /// the working directory (`<base_theme_dir>/<name>.colorant`). When
    /// unset, `colorant apply` resets the terminal instead.
    pub default_theme: Option<ThemeName>,
    /// When true, `apply` gives the tab the resolved background color so
    /// the tab matches the terminal. Only affects terminals with a
    /// tab-color escape (today: iTerm2).
    pub tab_follows_window: bool,
}

/// The themes directory when none is configured.
pub open spec fn default_theme_dir(config_dir: Option<Seq<char>>) -> Seq<char> {
    match config_dir {
        Some(d) => join_path(d, "themes"@),
        None => ".colorant/themes"@,
    }
}

impl Config {
    /// The settings used when the config file is absent or leaves a field
    /// out, given the resolved config directory (`None` when neither
    /// `$XDG_CONFIG_HOME` nor `$HOME` resolves).
    pub fn with_defaults(config_dir: Option<&str>) -> (r: Config)
        ensures
            r.base_theme_dir@ == default_theme_dir(
                match config_dir {
                    Some(d) => Some(d@),
                    None => None,
                },
            ),
            r.default_theme is None,
            r.tab_follows_window,
    {
        let base_theme_dir = match config_dir {
            Some(d) => join(d, "themes"),
            None => {
                let v = crate::text::chars_of(".colorant/themes");
                crate::text::string_of(&v)
            },
        };
        Config { base_theme_dir, default_theme: None, tab_follows_window: true }
    }

    /// The settings from a config file: each field the file sets, and the
    /// default (see `with_defaults`) for each one it leaves out.
    pub fn from_file(
        config_dir: Option<&str>,
        base_theme_dir: Option<String>,
        default_theme: Option<ThemeName>,
        tab_follows_window: Option<bool>,
    ) -> (r: Config)
        ensures
            r.base_theme_dir@ == match base_theme_dir {
                Some(d) => d@,
                None => default_theme_dir(opt_view(config_dir)),
            },
            r.default_theme == default_theme,
            r.tab_follows_window == match tab_follows_window {
                Some(t) => t,
                None => true,
            },
    {
        let defaults = Config::with_defaults(config_dir);
        Config {
            base_theme_dir: match base_theme_dir {
                Some(d) => d,
                None => defaults.base_theme_dir,
            },
            default_theme,
            tab_follows_window: match tab_follows_window {
                Some(t) => t,
                None => defaults.tab_follows_window,
            },
        }
    }
}

/// `<base>/colorant` under an XDG variable when it is set and non-empty,
/// else `<home>/<fallback>/colorant`.
pub open spec fn xdg_dir(xdg: Option<Seq<char>>, home: Option<Seq<char>>, fallback: Seq<char>) -> Option<
    Seq<char>,
> {
    if xdg matches Some(x) && x.len() > 0 {
        Some(join_path(xdg.unwrap(), "colorant"@))
    } else {
        match home {
            Some(h) => Some(join_path(join_path(h, fallback), "colorant"@)),
            None => None,
        }
    }
}

pub open spec fn opt_view(o: Option<&str>) -> Option<Seq<char>> {
    match o {
        Some(s) => Some(s@),
        None => None,
    }
}

pub open spec fn opt_string(o: Option<String>) -> Option<Seq<char>> {
    match o {
        Some(s) => Some(s@),
        None => None,
    }
}

fn xdg_dir_for(xdg: Option<&str>, home: Option<&str>, fallback: &str) -> (r: Option<String>)
    ensures
        opt_string(r) == xdg_dir(opt_view(xdg), opt_view(home), fallback@),
{
    if let Some(x) = xdg {
        let v = crate::text::chars_of(x);
        if v.len() > 0 {
            return Some(join(x, "colorant"));
        }
    }
    match home {
        Some(h) => {
            let mid = join(h, fallback);
            Some(join(mid.as_str(), "colorant"))
        },
        None => None,
    }
}

/// The directory holding colorant's config and themes, from the values of
/// `$XDG_CONFIG_HOME` and the home directory: `$XDG_CONFIG_HOME/colorant`
/// when that is set and non-empty, otherwise `$HOME/.config/colorant` (the
/// convention of tools like starship and zoxide, rather than the
/// platform's application-support directory).
pub fn config_dir_for(xdg_config: Option<&str>, home: Option<&str>) -> (r: Option<String>)
    ensures
        opt_string(r) == xdg_dir(opt_view(xdg_config), opt_view(home), ".config"@),
{
    xdg_dir_for(xdg_config, home, ".config")
}

/// The directory holding colorant's cached state (remote catalogs,
/// fetched palettes: anything derived and safe to wipe):
/// `$XDG_CACHE_HOME/colorant` when set and non-empty, otherwise
/// `$HOME/.cache/colorant`. `None` only when neither resolves; callers
/// treat that as an error rather than fabricate a path. An empty
/// `XDG_CACHE_HOME` counts as unset, so a stray `XDG_CACHE_HOME=` never
/// puts the cache in the working directory.
pub fn cache_dir_for(xdg_cache: Option<&str>, home: Option<&str>) -> (r: Option<String>)
    ensures
        opt_string(r) == xdg_dir(opt_view(xdg_cache), opt_view(home), ".cache"@),
{
    xdg_dir_for(xdg_cache, home, ".cache")
}

} // verus!
