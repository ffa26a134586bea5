//! Source dispatch — where a theme can come from.
//!
//! There are two sources: `Bundled` (the palettes that ship with colorant)
//! and `Gogh` (<https://github.com/Gogh-Co/Gogh>, downloaded on demand).
//! The enum centralizes the source-specific decisions so the CLI and the
//! picker treat them uniformly: list names, turn a download into a
//! palette, and turn a catalog listing into the index to cache.
//!
//! Downloads and cache reads are the caller's: the Gogh arms take the
//! text that was fetched or read.

use crate::text::{chars_of, find_char, push_str, string_of, views};
use crate::theme::bundled::{bundled_content, bundled_names, catalog, lookup};
use crate::theme::gogh::{self, json_string_value, parsed_index, serialized, tree_names, GoghError};
use crate::theme::model::{LayerView, ParsedPalette};
use crate::theme::parse::{palette_parse, parse_palette_str};
use crate::text::index_of;
use crate::text::strictly_sorted;
use vstd::prelude::*;
use vstd::string::StrSliceExecFns;

verus! {

/// One known source of themes.
#[derive(Debug, Clone, Copy, PartialEq, Eq, Structural)]
pub enum Source {
    /// Themes that ship with colorant. Always available, no network.
    Bundled,
    /// Themes fetched from the Gogh repository. The catalog is cached
    /// locally after `colorant themes sync`.
    Gogh,
}

/// Why a source could not deliver.
#[derive(Debug, Clone, PartialEq, Eq)]
pub enum SourceError {
    /// The Gogh catalog has never been synced.
    NotSynced,
    /// No bundled palette has this name.
    NoBundledTheme(String),
    /// The Gogh data could not be read.
    Gogh(GoghError),
}

/// The user-facing text of each error.
pub open spec fn source_error_text(e: SourceError) -> Seq<char> {
    match e {
        SourceError::NotSynced => "gogh catalog not synced yet — run `colorant themes sync` first"@,
        SourceError::NoBundledTheme(name) => "no bundled theme named "@ + name@,
        SourceError::Gogh(g) => gogh::gogh_error_text(g),
    }
}

impl SourceError {
    /// The user-facing message.
    pub fn message(&self) -> (r: String)
        ensures
            r@ == source_error_text(*self),
    {
        match self {
            SourceError::NotSynced => {
                let mut out: Vec<char> = Vec::new();
                push_str(&mut out, "gogh catalog not synced yet — run `colorant themes sync` first");
                string_of(&out)
            },
            SourceError::NoBundledTheme(name) => {
                let mut out: Vec<char> = Vec::new();
                push_str(&mut out, "no bundled theme named ");
                push_str(&mut out, name.as_str());
                string_of(&out)
            },
            SourceError::Gogh(e) => e.message(),
        }
    }
}

/// The identifier a source is known by at the CLI.
pub open spec fn source_name(s: Source) -> Seq<char> {
    match s {
        Source::Bundled => "bundled"@,
        Source::Gogh => "gogh"@,
    }
}

/// The source a CLI identifier names.
pub open spec fn source_of(name: Seq<char>) -> Option<Source> {
    if name == "bundled"@ {
        Some(Source::Bundled)
    } else if name == "gogh"@ {
        Some(Source::Gogh)
    } else {
        None
    }
}

/// Every source, in listing order.
pub open spec fn all_sources() -> Seq<Source> {
    seq![Source::Bundled, Source::Gogh]
}

impl Source {
    /// Identifier used at the CLI surface (`--source <name>`, `gogh:foo`).
    pub fn name(self) -> (r: &'static str)
        ensures
            r@ == source_name(self),
    {
        match self {
            Source::Bundled => "bundled",
            Source::Gogh => gogh::NAME,
        }
    }

    /// Every source colorant knows about, in a stable order so listings
    /// are deterministic.
    pub fn all() -> (r: Vec<Source>)
        ensures
            r@ == all_sources(),
    {
        let r = vec![Source::Bundled, Source::Gogh];
        assert(r@ =~= all_sources());
        r
    }

    /// Parse a CLI identifier into a `Source`; `None` for unknown names.
    pub fn parse(name: &str) -> (r: Option<Source>)
        ensures
            r == source_of(name@),
    {
        let v = chars_of(name);
        if crate::text::eq_str(&v, "bundled") {
            Some(Source::Bundled)
        } else if crate::text::eq_str(&v, gogh::NAME) {
            Some(Source::Gogh)
        } else {
            None
        }
    }

    /// The theme names this source offers. `Bundled` lists the shipped
    /// palettes; `Gogh` lists what the last sync cached, given the index
    /// file's contents (`None` when there is no index yet).
    pub fn list(self, cached_index: Option<&str>) -> (r: Result<Vec<String>, SourceError>)
        ensures
            self == Source::Bundled ==> (r matches Ok(v) && v@.len() == catalog().len() && forall|
                i: int,
            |
                0 <= i < v@.len() ==> #[trigger] v@[i]@ == catalog()[i].0),
            self == Source::Gogh ==> match cached_index {
                None => r == Err::<Vec<String>, SourceError>(SourceError::NotSynced),
                Some(b) => match parsed_index(b@) {
                    Ok(ns) => r matches Ok(v) && views(v@) == ns,
                    Err(e) => r == Err::<Vec<String>, SourceError>(SourceError::Gogh(e)),
                },
            },
    {
        match self {
            Source::Bundled => Ok(bundled_names()),
            Source::Gogh => match gogh::cached_names(cached_index) {
                Ok(Some(names)) => Ok(names),
                Ok(None) => Err(SourceError::NotSynced),
                Err(e) => Err(SourceError::Gogh(e)),
            },
        }
    }

    /// Refresh cached state. `Bundled` has none (`Ok(None)`); `Gogh` turns
    /// the GitHub tree listing into the index file to cache.
    pub fn sync(self, tree_body: Option<&str>) -> (r: Result<Option<String>, SourceError>)
        requires
            self == Source::Gogh ==> tree_body is Some,
        ensures
            self == Source::Bundled ==> r matches Ok(None),
            self == Source::Gogh ==> {
                let body = tree_body.unwrap()@;
                &&& tree_names(body).len() == 0 ==> match json_string_value(body, "message"@) {
                    Some(m) => r matches Err(SourceError::Gogh(GoghError::ApiError(msg))) && msg@
                        == m,
                    None => r == Err::<Option<String>, SourceError>(
                        SourceError::Gogh(GoghError::NoThemesInTree),
                    ),
                }
                &&& tree_names(body).len() > 0 ==> (r matches Ok(Some(idx)) && exists|
                    ns: Seq<Seq<char>>,
                |
                    #![auto]
                    strictly_sorted(ns) && ns.to_set() == tree_names(body).to_set() && idx@
                        == serialized(ns))
            },
    {
        match self {
            Source::Bundled => Ok(None),
            Source::Gogh => {
                let body = match tree_body {
                    Some(b) => b,
                    None => "",
                };
                match gogh::sync(body) {
                    Ok((names, idx)) => {
                        assert(strictly_sorted(views(names@)) && views(names@).to_set()
                            == tree_names(body@).to_set() && idx@ == serialized(views(names@)));
                        Ok(Some(idx))
                    },
                    Err(e) => Err(SourceError::Gogh(e)),
                }
            },
        }
    }

    /// Fetch one theme by name. `Bundled` reads the shipped palette; `Gogh`
    /// parses the YAML downloaded from `gogh::theme_file_url(name)`.
    pub fn fetch(self, name: &str, downloaded: Option<&str>) -> (r: Result<ParsedPalette, SourceError>)
        requires
            self == Source::Gogh ==> downloaded is Some,
        ensures
            self == Source::Bundled ==> match lookup(catalog(), name@) {
                Some(c) => r matches Ok(p) && p.layer@ == palette_parse(c).0,
                None => r matches Err(SourceError::NoBundledTheme(n)) && n@ == name@,
            },
            self == Source::Gogh ==> {
                let body = downloaded.unwrap()@;
                &&& gogh::gogh_fold(crate::text::lines(body)) == crate::theme::model::empty_layer()
                    ==> r == Err::<ParsedPalette, SourceError>(
                    SourceError::Gogh(GoghError::NoColorKeys),
                )
                &&& gogh::gogh_fold(crate::text::lines(body))
                    != crate::theme::model::empty_layer() ==> (r matches Ok(p) && p.layer@
                    == gogh::gogh_fold(crate::text::lines(body)))
            },
    {
        match self {
            Source::Bundled => match bundled_content(name) {
                Some(c) => Ok(parse_palette_str(c)),
                None => Err(SourceError::NoBundledTheme(string_of(&chars_of(name)))),
            },
            Source::Gogh => {
                let body = match downloaded {
                    Some(b) => b,
                    None => "",
                };
                match gogh::parse_gogh_yaml(body) {
                    Ok(p) => Ok(p),
                    Err(e) => Err(SourceError::Gogh(e)),
                }
            },
        }
    }
}

/// The `(source, name)` a theme reference denotes: `gogh:Dracula` names a
/// source; anything else, including an unknown prefix, is a bare name.
pub open spec fn ref_parts(s: Seq<char>) -> (Option<Source>, Seq<char>) {
    let i = index_of(s, ':');
    if i < s.len() && source_of(s.take(i as int)) is Some {
        (source_of(s.take(i as int)), s.skip(i as int + 1))
    } else {
        (None, s)
    }
}

/// Split a theme reference like `gogh:Dracula` or `dracula` into
/// `(Option<Source>, name)`. An unqualified name returns `None` for the
/// source; the caller decides the lookup order (typically: installed →
/// bundled → error-and-suggest-source-prefix).
pub fn parse_ref(s: &str) -> (r: (Option<Source>, &str))
    ensures
        r.0 == ref_parts(s@).0,
        r.1@ == ref_parts(s@).1,
{
    let v = chars_of(s);
    proof {
        crate::text::lemma_index_of(s@, ':');
    }
    match find_char(&v, ':') {
        Some(i) => {
            let prefix = s.substring_char(0, i);
            assert(prefix@ =~= s@.take(i as int));
            match Source::parse(prefix) {
                Some(source) => {
                    let name = s.substring_char(i + 1, v.len());
                    assert(name@ =~= s@.skip(i + 1));
                    (Some(source), name)
                },
                None => (None, s),
            }
        },
        None => (None, s),
    }
}

/// Every source's name parses back to that source.
pub proof fn lemma_source_name_round_trip(s: Source)
    ensures
        source_of(source_name(s)) == Some(s),
{
    reveal_strlit("bundled");
    reveal_strlit("gogh");
    assert("bundled"@.len() != "gogh"@.len());
}

/// A reference written as `<source name>:<name>` splits back into that
/// source and that name, whatever the name holds (colons included).
pub proof fn lemma_ref_round_trip(s: Source, name: Seq<char>)
    ensures
        ref_parts(source_name(s) + seq![':'] + name) == (Some(s), name),
{
    reveal_strlit("bundled");
    reveal_strlit("gogh");
    let full = source_name(s) + seq![':'] + name;
    let k = source_name(s).len();
    assert(full[k as int] == ':');
    assert forall|j: int| 0 <= j < k implies full[j] != ':' by {
        assert(full[j] == source_name(s)[j]);
    }
    crate::text::lemma_index_of_is(full, ':', k as int);
    assert(full.take(k as int) =~= source_name(s));
    assert(full.skip(k as int + 1) =~= name);
    lemma_source_name_round_trip(s);
}

} // verus!
