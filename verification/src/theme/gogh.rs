//! Gogh remote source — palettes from <https://github.com/Gogh-Co/Gogh>,
//! converted from their YAML files into `ParsedPalette`s.
//!
//! The catalog (list of available theme names) comes from the GitHub Git
//! Trees API and is cached on disk as a small JSON array; individual themes
//! come from raw.githubusercontent.com. This module holds everything that
//! computes: URLs, the YAML and JSON readers, and the cache format. The
//! downloads and file writes are the caller's.

use crate::text::{
    chars_of, eq_str, find_char, find_char_from, find_seq, find_seq_from, index_of,
    lemma_find_seq, lemma_index_of, lines, lines_of, lower_seq, lower_vec, push_all, push_decimal,
    push_str, slice, small_unsigned, starts_with_str, string_of, trim, trim_bounds, trim_slice,
    trim_start, trim_start_from, trim_vec, unsigned_value, ends_with_str, deep, strictly_sorted,
    insert_sorted, lemma_trim_start_suffix, views, trim_end,
};
use crate::theme::model::{
    color_of, empty_layer, set_slot, HexColor, LayerView, ParsedPalette, ThemeLayer,
};
use crate::theme::resolve::join_path;
use vstd::prelude::*;

verus! {

/// Where Gogh's individual theme YAMLs live on the raw CDN. Each file is
/// fetched as `<RAW_BASE>/<name>.yml`.
pub const RAW_BASE: &'static str = "https://raw.githubusercontent.com/Gogh-Co/Gogh/master/themes";

/// GitHub Git Trees endpoint for listing the contents of `themes/` on the
/// `master` branch. Recursive so we get every blob in one round trip.
pub const TREE_URL: &'static str =
    "https://api.github.com/repos/Gogh-Co/Gogh/git/trees/master?recursive=1";

/// Identifier this source is known by from the CLI, e.g. `themes apply --source gogh`.
pub const NAME: &'static str = "gogh";

/// What went wrong reading Gogh data.
#[derive(Debug, Clone, PartialEq, Eq)]
pub enum GoghError {
    /// Neither `$XDG_CACHE_HOME` nor `$HOME` resolved.
    NoCacheDir,
    /// A theme file had no color key we recognize.
    NoColorKeys,
    /// The tree listing was a GitHub error object; carries its `message`.
    ApiError(String),
    /// The tree listing had no `themes/*.yml` entries.
    NoThemesInTree,
    /// The cached index is not a JSON array.
    MalformedIndex,
    /// The cached index ends inside a string.
    UnterminatedIndex,
}

/// The user-facing text of each error.
pub open spec fn gogh_error_text(e: GoghError) -> Seq<char> {
    match e {
        GoghError::NoCacheDir => "could not resolve cache dir"@,
        GoghError::NoColorKeys => "no recognized color keys in Gogh YAML — is the upstream format intact?"@,
        GoghError::ApiError(msg) => "GitHub API error: "@ + msg@,
        GoghError::NoThemesInTree => "no themes/*.yml entries found in Gogh tree response"@,
        GoghError::MalformedIndex => "malformed gogh index: expected JSON array"@,
        GoghError::UnterminatedIndex => "malformed gogh index: unterminated string — re-run `colorant themes sync`"@,
    }
}

impl GoghError {
    /// The user-facing message.
    pub fn message(&self) -> (r: String)
        ensures
            r@ == gogh_error_text(*self),
    {
        let mut out: Vec<char> = Vec::new();
        match self {
            GoghError::NoCacheDir => push_str(&mut out, "could not resolve cache dir"),
            GoghError::NoColorKeys => push_str(
                &mut out,
                "no recognized color keys in Gogh YAML — is the upstream format intact?",
            ),
            GoghError::ApiError(msg) => {
                push_str(&mut out, "GitHub API error: ");
                push_str(&mut out, msg.as_str());
            },
            GoghError::NoThemesInTree => push_str(
                &mut out,
                "no themes/*.yml entries found in Gogh tree response",
            ),
            GoghError::MalformedIndex => push_str(
                &mut out,
                "malformed gogh index: expected JSON array",
            ),
            GoghError::UnterminatedIndex => push_str(
                &mut out,
                "malformed gogh index: unterminated string — re-run `colorant themes sync`",
            ),
        }
        string_of(&out)
    }
}

// ---------------------------------------------------------------------
// Cache layout and URLs
// ---------------------------------------------------------------------

/// `<cache>/remotes/gogh`.
pub open spec fn cache_subdir(base: Seq<char>) -> Seq<char> {
    join_path(join_path(base, "remotes"@), "gogh"@)
}

/// The Gogh-specific cache subdirectory under the resolved cache dir.
pub fn gogh_cache_dir(cache_base: Option<&str>) -> (r: Result<String, GoghError>)
    ensures
        match cache_base {
            Some(b) => r matches Ok(p) && p@ == cache_subdir(b@),
            None => r == Err::<String, GoghError>(GoghError::NoCacheDir),
        },
{
    match cache_base {
        Some(b) => {
            let remotes = crate::theme::resolve::join(b, "remotes");
            Ok(crate::theme::resolve::join(remotes.as_str(), "gogh"))
        },
        None => Err(GoghError::NoCacheDir),
    }
}

/// Where the cached catalog lives: `<cache>/remotes/gogh/index.json`.
pub fn index_path(cache_base: Option<&str>) -> (r: Result<String, GoghError>)
    ensures
        match cache_base {
            Some(b) => r matches Ok(p) && p@ == join_path(cache_subdir(b@), "index.json"@),
            None => r == Err::<String, GoghError>(GoghError::NoCacheDir),
        },
{
    let dir = gogh_cache_dir(cache_base)?;
    Ok(crate::theme::resolve::join(dir.as_str(), "index.json"))
}

/// Characters left alone by `percent_encode_path`.
pub open spec fn unreserved(c: char) -> bool {
    ('A' <= c && c <= 'Z') || ('a' <= c && c <= 'z') || ('0' <= c && c <= '9') || c == '-' || c
        == '_' || c == '.' || c == '~'
}

pub open spec fn hex_upper(d: nat) -> char {
    if d < 10 {
        ((d + 48) as u32) as char
    } else {
        ((d + 55) as u32) as char
    }
}

/// `%XX` for each byte, uppercase hex.
pub open spec fn percent_bytes(bs: Seq<u8>) -> Seq<char>
    decreases bs.len(),
{
    if bs.len() == 0 {
        Seq::empty()
    } else {
        percent_bytes(bs.drop_last()) + seq![
            '%',
            hex_upper((bs.last() / 16) as nat),
            hex_upper((bs.last() % 16) as nat),
        ]
    }
}

pub open spec fn percent_char(c: char) -> Seq<char> {
    if unreserved(c) {
        seq![c]
    } else {
        percent_bytes(vstd::utf8::encode_utf8(seq![c]))
    }
}

/// Percent-encoding of a path segment: unreserved characters stay, every
/// other character becomes the `%XX` form of each of its UTF-8 bytes.
pub open spec fn percent_encoded(s: Seq<char>) -> Seq<char>
    decreases s.len(),
{
    if s.len() == 0 {
        Seq::empty()
    } else {
        percent_encoded(s.drop_last()) + percent_char(s.last())
    }
}

fn hex_digit_upper(d: u8) -> (c: char)
    requires
        d < 16,
    ensures
        c == hex_upper(d as nat),
{
    if d < 10 {
        (d + 48) as char
    } else {
        (d + 55) as char
    }
}

/// The UTF-8 bytes of one character.
fn utf8_of(c: char) -> (r: Vec<u8>)
    ensures
        r@ == vstd::utf8::encode_utf8(seq![c]),
{
    let mut s = String::new();
    crate::text::string_push(&mut s, c);
    let bytes = s.as_str().as_bytes();
    assert(s@ =~= seq![c]);
    let mut r: Vec<u8> = Vec::new();
    let mut i: usize = 0;
    while i < bytes.len()
        invariant
            i <= bytes@.len(),
            r@ == bytes@.take(i as int),
        decreases bytes@.len() - i,
    {
        r.push(bytes[i]);
        i = i + 1;
        assert(r@ =~= bytes@.take(i as int));
    }
    assert(bytes@.take(bytes@.len() as int) =~= bytes@);
    r
}

/// Percent-encode the characters in a path segment that need it for an
/// HTTP URL. Reserved characters like `/`, `?`, `#` are encoded too, so
/// the result is always a single path segment.
pub fn percent_encode_path(s: &str) -> (r: String)
    ensures
        r@ == percent_encoded(s@),
{
    let cs = chars_of(s);
    let mut out: Vec<char> = Vec::new();
    let mut i: usize = 0;
    while i < cs.len()
        invariant
            i <= cs.len(),
            cs@ == s@,
            out@ == percent_encoded(cs@.take(i as int)),
        decreases cs.len() - i,
    {
        let c = cs[i];
        assert(cs@.take(i + 1).drop_last() =~= cs@.take(i as int));
        if ('A' <= c && c <= 'Z') || ('a' <= c && c <= 'z') || ('0' <= c && c <= '9') || c == '-'
            || c == '_' || c == '.' || c == '~' {
            out.push(c);
        } else {
            let bytes = utf8_of(c);
            let ghost before = out@;
            let mut k: usize = 0;
            while k < bytes.len()
                invariant
                    k <= bytes@.len(),
                    out@ == before + percent_bytes(bytes@.take(k as int)),
                decreases bytes@.len() - k,
            {
                let b = bytes[k];
                assert(bytes@.take(k + 1).drop_last() =~= bytes@.take(k as int));
                out.push('%');
                out.push(hex_digit_upper(b / 16));
                out.push(hex_digit_upper(b % 16));
                k = k + 1;
                assert(out@ =~= before + percent_bytes(bytes@.take(k as int)));
            }
            assert(bytes@.take(bytes@.len() as int) =~= bytes@);
        }
        i = i + 1;
        assert(out@ =~= percent_encoded(cs@.take(i as int)));
    }
    assert(cs@.take(cs.len() as int) =~= cs@);
    string_of(&out)
}

/// `<RAW_BASE>/<percent-encoded name>.yml`.
pub open spec fn theme_url(name: Seq<char>) -> Seq<char> {
    RAW_BASE@ + seq!['/'] + percent_encoded(name) + ".yml"@
}

/// Where one Gogh theme is downloaded from.
pub fn theme_file_url(name: &str) -> (r: String)
    ensures
        r@ == theme_url(name@),
{
    let mut out = chars_of(RAW_BASE);
    out.push('/');
    let enc = percent_encode_path(name);
    push_str(&mut out, enc.as_str());
    push_str(&mut out, ".yml");
    string_of(&out)
}

// ---------------------------------------------------------------------
// Theme YAML
// ---------------------------------------------------------------------

/// The value part of `key: value` after the colon: a quoted value runs to
/// the matching quote (or the end); an unquoted one stops at the first `#`
/// and is trimmed.
pub open spec fn yaml_value(v: Seq<char>) -> Seq<char> {
    if v.len() > 0 && v[0] == '\'' {
        let rest = v.drop_first();
        rest.take(index_of(rest, '\'') as int)
    } else if v.len() > 0 && v[0] == '"' {
        let rest = v.drop_first();
        rest.take(index_of(rest, '"') as int)
    } else {
        trim(v.take(index_of(v, '#') as int))
    }
}

/// Split `key: value` (Gogh-flavored YAML): the ASCII-lowercased key and
/// the value per `yaml_value`; `None` without a `:` or with an empty key.
pub open spec fn split_kv_spec(line: Seq<char>) -> Option<(Seq<char>, Seq<char>)> {
    let colon = index_of(line, ':');
    if colon == line.len() {
        None
    } else {
        let key = lower_seq(trim(line.take(colon as int)));
        if key.len() == 0 {
            None
        } else {
            Some((key, yaml_value(trim(line.skip(colon as int + 1)))))
        }
    }
}

fn value_of(v: &Vec<char>) -> (r: Vec<char>)
    ensures
        r@ == yaml_value(v@),
{
    let n = v.len();
    if n > 0 && (v[0] == '\'' || v[0] == '"') {
        let q = v[0];
        proof {
            lemma_index_of(v@.drop_first(), q);
        }
        let end = match find_char_from(v, q, 1) {
            Some(e) => e,
            None => n,
        };
        assert(v@.skip(1) =~= v@.drop_first());
        let r = slice(v, 1, end);
        assert(r@ =~= v@.drop_first().take(index_of(v@.drop_first(), q) as int));
        r
    } else {
        proof {
            lemma_index_of(v@, '#');
        }
        let end = match find_char(v, '#') {
            Some(e) => e,
            None => n,
        };
        assert(v@.subrange(0, end as int) =~= v@.take(index_of(v@, '#') as int));
        trim_slice(v, 0, end)
    }
}

fn split_kv_chars(line: &Vec<char>) -> (r: Option<(Vec<char>, Vec<char>)>)
    ensures
        match split_kv_spec(line@) {
            Some(kv) => r matches Some(p) && p.0@ == kv.0 && p.1@ == kv.1,
            None => r is None,
        },
{
    proof {
        lemma_index_of(line@, ':');
    }
    match find_char(line, ':') {
        None => None,
        Some(colon) => {
            assert(colon < line.len());
            let raw_key = trim_slice(line, 0, colon);
            assert(line@.subrange(0, colon as int) =~= line@.take(colon as int));
            let key = lower_vec(&raw_key);
            if key.len() == 0 {
                return None;
            }
            let rest = trim_slice(line, colon + 1, line.len());
            assert(line@.subrange(colon + 1, line@.len() as int) =~= line@.skip(colon + 1));
            Some((key, value_of(&rest)))
        },
    }
}

/// Split `key: value`, stripping surrounding quotes and any trailing
/// `# comment` from the value. Returns `None` for lines without a `:` or
/// with an empty key.
pub fn split_kv(line: &str) -> (r: Option<(String, String)>)
    ensures
        match split_kv_spec(line@) {
            Some(kv) => r matches Some(p) && p.0@ == kv.0 && p.1@ == kv.1,
            None => r is None,
        },
{
    let v = chars_of(line);
    match split_kv_chars(&v) {
        Some((k, val)) => Some((string_of(&k), string_of(&val))),
        None => None,
    }
}

/// Which slot a Gogh key fills: `foreground`, `background`, `cursor`, and
/// the 1-indexed `color_01`..`color_16` (palette entries 0..15).
pub open spec fn gogh_slot(key: Seq<char>) -> Option<int> {
    if key == "foreground"@ {
        Some(0)
    } else if key == "background"@ {
        Some(1)
    } else if key == "cursor"@ {
        Some(2)
    } else if "color_"@.len() <= key.len() && key.take("color_"@.len() as int) == "color_"@ {
        match unsigned_value(key.skip("color_"@.len() as int)) {
            Some(v) => if 1 <= v <= 16 {
                Some(2 + v as int)
            } else {
                None
            },
            None => None,
        }
    } else {
        None
    }
}

/// One YAML line: only color-bearing keys with a valid color have an effect.
pub open spec fn gogh_step(layer: LayerView, raw: Seq<char>) -> LayerView {
    let line = trim(raw);
    if line.len() == 0 || line[0] == '#' {
        layer
    } else {
        match split_kv_spec(line) {
            None => layer,
            Some(kv) => match gogh_slot(kv.0) {
                None => layer,
                Some(slot) => match color_of(kv.1) {
                    Some(c) => set_slot(layer, slot, c),
                    None => layer,
                },
            },
        }
    }
}

pub open spec fn gogh_fold(ls: Seq<Seq<char>>) -> LayerView
    decreases ls.len(),
{
    if ls.len() == 0 {
        empty_layer()
    } else {
        gogh_step(gogh_fold(ls.drop_last()), ls.last())
    }
}

fn gogh_slot_of(key: &Vec<char>) -> (r: Option<usize>)
    ensures
        match gogh_slot(key@) {
            Some(s) => r == Some(s as usize),
            None => r is None,
        },
{
    if eq_str(key, "foreground") {
        return Some(0);
    }
    if eq_str(key, "background") {
        return Some(1);
    }
    if eq_str(key, "cursor") {
        return Some(2);
    }
    if starts_with_str(key, "color_") {
        proof {
            reveal_strlit("color_");
        }
        match small_unsigned(key, 6, 17) {
            Some(i) => if i >= 1 {
                Some(2 + i)
            } else {
                None
            },
            None => None,
        }
    } else {
        None
    }
}

fn store_color(layer: &mut ThemeLayer, slot: usize, c: HexColor)
    requires
        slot < 19,
    ensures
        final(layer)@ == set_slot(old(layer)@, slot as int, c@),
{
    if slot == 0 {
        layer.fg = Some(c);
    } else if slot == 1 {
        layer.bg = Some(c);
    } else if slot == 2 {
        layer.cursor = Some(c);
    } else {
        layer.palette[slot - 3] = Some(c);
        assert(final(layer)@.palette =~= old(layer)@.palette.update(slot - 3, Some(c@)));
    }
}

/// Parse a Gogh `themes/*.yml` payload into a `ParsedPalette`.
///
/// The Gogh format is flat top-level keys with single-line scalar values.
/// When no color key is recognized at all, the upstream file isn't in Gogh
/// format (an HTML error page, a renamed theme, a schema change) and the
/// result is an error rather than an empty palette.
pub fn parse_gogh_yaml(content: &str) -> (r: Result<ParsedPalette, GoghError>)
    ensures
        gogh_fold(lines(content@)) == empty_layer() ==> r == Err::<ParsedPalette, GoghError>(
            GoghError::NoColorKeys,
        ),
        gogh_fold(lines(content@)) != empty_layer() ==> (r matches Ok(p) && p.layer@
            == gogh_fold(lines(content@))),
{
    let chars = chars_of(content);
    let ls = lines_of(&chars);
    let ghost spec_lines = lines(content@);
    let mut layer = ThemeLayer::default();
    let mut i: usize = 0;
    assert(spec_lines.take(0) =~= Seq::<Seq<char>>::empty());
    while i < ls.len()
        invariant
            i <= ls.len(),
            crate::text::deep(ls@) == spec_lines,
            layer@ == gogh_fold(spec_lines.take(i as int)),
        decreases ls.len() - i,
    {
        assert(spec_lines.take(i + 1).drop_last() =~= spec_lines.take(i as int));
        assert(spec_lines.take(i + 1).last() == ls@[i as int]@);
        let line = trim_vec(&ls[i]);
        if line.len() > 0 && line[0] != '#' {
            match split_kv_chars(&line) {
                None => {},
                Some((key, value)) => match gogh_slot_of(&key) {
                    None => {},
                    Some(slot) => match HexColor::from_chars(&value) {
                        Some(c) => store_color(&mut layer, slot, c),
                        None => {},
                    },
                },
            }
        }
        i = i + 1;
    }
    assert(spec_lines.take(ls.len() as int) =~= spec_lines);
    if layer.is_empty() {
        return Err(GoghError::NoColorKeys);
    }
    Ok(ParsedPalette { layer })
}


// ---------------------------------------------------------------------
// The GitHub tree listing
// ---------------------------------------------------------------------

/// `"key"`, quotes included: how a JSON object key is written.
pub open spec fn quoted_key(k: Seq<char>) -> Seq<char> {
    seq!['"'] + k + seq!['"']
}

/// What follows a JSON key that ends at `after`: optional whitespace, a
/// colon, then the next double-quoted string. `None` when no colon
/// follows; `Some(None)` when no complete string follows the colon;
/// otherwise the bounds of the string's contents.
pub open spec fn value_after(s: Seq<char>, after: int) -> Option<Option<(int, int)>> {
    let rest = s.skip(after);
    let post = trim_start(rest);
    if !(post.len() > 0 && post[0] == ':') {
        None
    } else {
        let colon = after + (rest.len() - post.len());
        let r1 = s.skip(colon + 1);
        let open = index_of(r1, '"');
        if open == r1.len() {
            Some(None)
        } else {
            let start = colon + 1 + open + 1;
            let r2 = s.skip(start);
            let close = index_of(r2, '"');
            if close == r2.len() {
                Some(None)
            } else {
                Some(Some((start, start + close)))
            }
        }
    }
}

pub proof fn lemma_value_after(s: Seq<char>, after: int)
    requires
        0 <= after <= s.len(),
    ensures
        value_after(s, after) matches Some(Some(p)) ==> after < p.0 <= p.1 < s.len(),
{
    let rest = s.skip(after);
    lemma_trim_start_suffix(rest);
    let post = trim_start(rest);
    if post.len() > 0 && post[0] == ':' {
        let colon = after + (rest.len() - post.len());
        lemma_index_of(s.skip(colon + 1), '"');
        let open = index_of(s.skip(colon + 1), '"');
        if open < s.skip(colon + 1).len() {
            let start = colon + 1 + open + 1;
            lemma_index_of(s.skip(start), '"');
        }
    }
}

/// The values of every `"path": "<value>"` pair in a tree listing, in
/// order, scanning from `cur`. A `"path"` not followed by a colon is a
/// value that happens to hold those characters and is skipped; a colon
/// with no complete string after it ends the scan.
pub open spec fn tree_paths_from(s: Seq<char>, cur: int) -> Seq<Seq<char>>
    decreases s.len() - cur,
{
    if cur < 0 || cur > s.len() {
        Seq::empty()
    } else {
        match find_seq(s.skip(cur), quoted_key("path"@)) {
            None => Seq::empty(),
            Some(off) => {
                let after = cur + off + quoted_key("path"@).len();
                proof {
                    lemma_find_seq(s.skip(cur), quoted_key("path"@));
                    lemma_value_after(s, after);
                }
                match value_after(s, after) {
                    None => tree_paths_from(s, after),
                    Some(None) => Seq::empty(),
                    Some(Some(p)) => seq![s.subrange(p.0, p.1)] + tree_paths_from(s, p.1 + 1),
                }
            },
        }
    }
}

/// The theme a tree path names: `themes/<name>.yml` directly under
/// `themes/` (no further `/`).
pub open spec fn theme_from_path(p: Seq<char>) -> Option<Seq<char>> {
    let pre = "themes/"@;
    let suf = ".yml"@;
    if pre.len() + suf.len() <= p.len() && p.take(pre.len() as int) == pre && p.skip(
        p.len() - suf.len(),
    ) == suf {
        let n = p.subrange(pre.len() as int, p.len() - suf.len());
        if index_of(n, '/') < n.len() {
            None
        } else {
            Some(n)
        }
    } else {
        None
    }
}

pub open spec fn theme_names(ps: Seq<Seq<char>>) -> Seq<Seq<char>>
    decreases ps.len(),
{
    if ps.len() == 0 {
        Seq::empty()
    } else {
        match theme_from_path(ps[0]) {
            Some(n) => seq![n] + theme_names(ps.drop_first()),
            None => theme_names(ps.drop_first()),
        }
    }
}

/// Every theme named by a tree listing, in listing order.
pub open spec fn tree_names(body: Seq<char>) -> Seq<Seq<char>> {
    theme_names(tree_paths_from(body, 0))
}

/// The value of the first `"<key>"` in `body`, when a colon and a complete
/// string follow it.
pub open spec fn json_string_value(body: Seq<char>, key: Seq<char>) -> Option<Seq<char>> {
    match find_seq(body, quoted_key(key)) {
        None => None,
        Some(pos) => match value_after(body, (pos + quoted_key(key).len()) as int) {
            Some(Some(p)) => Some(body.subrange(p.0, p.1)),
            _ => None,
        },
    }
}

fn quoted_key_chars(key: &str) -> (r: Vec<char>)
    ensures
        r@ == quoted_key(key@),
{
    let mut r: Vec<char> = Vec::new();
    r.push('"');
    push_str(&mut r, key);
    r.push('"');
    assert(r@ =~= quoted_key(key@));
    r
}

fn value_after_exec(s: &Vec<char>, after: usize) -> (r: Option<Option<(usize, usize)>>)
    requires
        after <= s.len(),
    ensures
        match value_after(s@, after as int) {
            None => r is None,
            Some(None) => r == Some(None::<(usize, usize)>),
            Some(Some(p)) => r == Some(Some((p.0 as usize, p.1 as usize))),
        },
{
    proof {
        lemma_value_after(s@, after as int);
        lemma_trim_start_suffix(s@.skip(after as int));
    }
    let k = trim_start_from(s, after);
    if !(k < s.len() && s[k] == ':') {
        return None;
    }
    let colon = k;
    assert(colon == after + (s@.skip(after as int).len() - trim_start(s@.skip(after as int)).len()));
    proof {
        lemma_index_of(s@.skip(colon + 1), '"');
    }
    let open = match find_char_from(s, '"', colon + 1) {
        None => return Some(None),
        Some(o) => o,
    };
    let start = open + 1;
    proof {
        lemma_index_of(s@.skip(start as int), '"');
    }
    match find_char_from(s, '"', start) {
        None => Some(None),
        Some(close) => Some(Some((start, close))),
    }
}

fn theme_from_path_exec(p: &Vec<char>) -> (r: Option<Vec<char>>)
    ensures
        match theme_from_path(p@) {
            Some(n) => r matches Some(v) && v@ == n,
            None => r is None,
        },
{
    if !(starts_with_str(p, "themes/") && ends_with_str(p, ".yml")) {
        return None;
    }
    proof {
        reveal_strlit("themes/");
        reveal_strlit(".yml");
    }
    if p.len() < 11 {
        return None;
    }
    let n = slice(p, 7, p.len() - 4);
    proof {
        lemma_index_of(n@, '/');
    }
    match find_char(&n, '/') {
        Some(_) => None,
        None => Some(n),
    }
}

/// The first `"<key>": "<value>"` string field of a JSON body. Used to
/// fish out GitHub's `message` field on error responses.
pub fn extract_json_string_value(body: &str, key: &str) -> (r: Option<String>)
    ensures
        match json_string_value(body@, key@) {
            Some(v) => r matches Some(s) && s@ == v,
            None => r is None,
        },
{
    let b = chars_of(body);
    let needle = quoted_key_chars(key);
    assert(b@.skip(0) =~= b@);
    proof {
        lemma_find_seq(b@, needle@);
    }
    match find_seq_from(&b, &needle, 0) {
        None => None,
        Some(pos) => {
            proof {
                lemma_value_after(b@, (pos + needle.len()) as int);
            }
            match value_after_exec(&b, pos + needle.len()) {
            Some(Some((a, e))) => {
                let v = slice(&b, a, e);
                Some(string_of(&v))
            },
            _ => None,
        }},
    }
}

/// The theme names of a tree listing, in listing order.
fn tree_names_exec(b: &Vec<char>) -> (r: Vec<Vec<char>>)
    ensures
        deep(r@) == tree_names(b@),
{
    let key = quoted_key_chars("path");
    let mut names: Vec<Vec<char>> = Vec::new();
    let mut cursor: usize = 0;
    loop
        invariant
            cursor <= b.len(),
            key@ == quoted_key("path"@),
            tree_names(b@) == deep(names@) + theme_names(tree_paths_from(b@, cursor as int)),
        ensures
            tree_names(b@) == deep(names@),
        decreases b.len() - cursor,
    {
        let ghost rest_paths = tree_paths_from(b@, cursor as int);
        proof {
            lemma_find_seq(b@.skip(cursor as int), key@);
        }
        match find_seq_from(b, &key, cursor) {
            None => {
                assert(rest_paths.len() == 0);
                assert(deep(names@) + theme_names(rest_paths) =~= deep(names@));
                break;
            },
            Some(pos) => {
                let after = pos + key.len();
                proof {
                    lemma_value_after(b@, after as int);
                }
                match value_after_exec(b, after) {
                    None => {
                        cursor = after;
                    },
                    Some(None) => {
                        assert(rest_paths.len() == 0);
                        assert(deep(names@) + theme_names(rest_paths) =~= deep(names@));
                        break;
                    },
                    Some(Some((a, e))) => {
                        let path = slice(b, a, e);
                        let ghost tail = tree_paths_from(b@, e + 1);
                        assert(rest_paths == seq![path@] + tail);
                        assert((seq![path@] + tail).drop_first() =~= tail);
                        let ghost before = deep(names@);
                        match theme_from_path_exec(&path) {
                            Some(n) => {
                                names.push(n);
                                assert(deep(names@) =~= before.push(n@));
                                assert(before + theme_names(rest_paths) =~= deep(names@)
                                    + theme_names(tail));
                            },
                            None => {},
                        }
                        cursor = e + 1;
                    },
                }
            },
        }
    }
    names
}

/// Parse a GitHub Git Trees API response into the sorted, de-duplicated
/// list of theme names (files directly under `themes/` with the `.yml`
/// extension, without path and extension).
///
/// Only `path` strings matter, so the body is scanned for the key
/// `"path"` followed by a colon (a value that merely contains the
/// characters `"path"` is not a key). With no theme at all, a GitHub
/// error object (`{"message": ...}`, as sent on rate limiting) becomes
/// `ApiError` with its message, anything else `NoThemesInTree`.
pub fn parse_tree_response(body: &str) -> (r: Result<Vec<String>, GoghError>)
    ensures
        tree_names(body@).len() == 0 ==> match json_string_value(body@, "message"@) {
            Some(m) => r matches Err(GoghError::ApiError(msg)) && msg@ == m,
            None => r == Err::<Vec<String>, GoghError>(GoghError::NoThemesInTree),
        },
        tree_names(body@).len() > 0 ==> (r matches Ok(v) && strictly_sorted(
            views(v@),
        ) && views(v@).to_set() == tree_names(body@).to_set()),
{
    let b = chars_of(body);
    let names = tree_names_exec(&b);
    if names.len() == 0 {
        return match extract_json_string_value(body, "message") {
            Some(m) => Err(GoghError::ApiError(m)),
            None => Err(GoghError::NoThemesInTree),
        };
    }
    let mut sorted: Vec<Vec<char>> = Vec::new();
    let mut i: usize = 0;
    while i < names.len()
        invariant
            i <= names.len(),
            deep(names@) == tree_names(b@),
            strictly_sorted(deep(sorted@)),
            deep(sorted@).to_set() == deep(names@).take(i as int).to_set(),
        decreases names.len() - i,
    {
        let n = crate::text::copy_vec(&names[i]);
        insert_sorted(&mut sorted, n);
        proof {
            assert(deep(names@).take(i + 1) =~= deep(names@).take(i as int).push(names@[i as int]@));
            deep(names@).take(i as int).lemma_push_to_set_commute(names@[i as int]@);
        }
        i = i + 1;
    }
    assert(deep(names@).take(names.len() as int) =~= deep(names@));
    let mut out: Vec<String> = Vec::new();
    let mut k: usize = 0;
    while k < sorted.len()
        invariant
            k <= sorted.len(),
            views(out@) == deep(sorted@).take(k as int),
        decreases sorted.len() - k,
    {
        let sk = string_of(&sorted[k]);
        let ghost prev = out@;
        out.push(sk);
        assert(out@ =~= prev.push(sk));
        assert(deep(sorted@)[k as int] == sk@);
        assert(deep(sorted@).len() == sorted.len());
        assert(views(prev).len() == prev.len());
        assert(deep(sorted@).take(k as int).len() == k);
        assert(prev.len() == k);
        assert(out@.len() == k + 1);
        assert forall|j: int| 0 <= j < k implies views(out@)[j] == deep(sorted@)[j] by {
            assert(out@[j] == prev[j]);
            assert(views(prev)[j] == prev[j]@);
            assert(views(out@)[j] == out@[j]@);
            assert(views(prev)[j] == deep(sorted@).take(k as int)[j]);
        }
        k = k + 1;
        assert(views(out@) =~= deep(sorted@).take(k as int));
    }
    assert(deep(sorted@).take(sorted.len() as int) =~= deep(sorted@));
    Ok(out)
}


// ---------------------------------------------------------------------
// The cached index: a JSON array of strings
// ---------------------------------------------------------------------

/// How one character is written inside a JSON string here: `\` and `"`
/// get a backslash, everything else stands as it is.
pub open spec fn escape_char(c: char) -> Seq<char> {
    if c == '\\' {
        seq!['\\', '\\']
    } else if c == '"' {
        seq!['\\', '"']
    } else {
        seq![c]
    }
}

pub open spec fn json_escaped(s: Seq<char>) -> Seq<char>
    decreases s.len(),
{
    if s.len() == 0 {
        Seq::empty()
    } else {
        json_escaped(s.drop_last()) + escape_char(s.last())
    }
}

/// One name as a JSON string.
pub open spec fn quoted(n: Seq<char>) -> Seq<char> {
    seq!['"'] + json_escaped(n) + seq!['"']
}

/// The quoted names, separated by commas.
pub open spec fn joined(ns: Seq<Seq<char>>) -> Seq<char>
    decreases ns.len(),
{
    if ns.len() == 0 {
        Seq::empty()
    } else if ns.len() == 1 {
        quoted(ns[0])
    } else {
        joined(ns.drop_last()) + seq![','] + quoted(ns.last())
    }
}

/// The index file for `ns`: `["a","b"]` and a newline.
pub open spec fn serialized(ns: Seq<Seq<char>>) -> Seq<char> {
    seq!['['] + joined(ns) + seq![']', '\n']
}

/// Reader state: names so far, inside a string, the string so far, and
/// whether the previous character was a backslash.
pub type NamesState = (Seq<Seq<char>>, bool, Seq<char>, bool);

pub open spec fn names_start() -> NamesState {
    (Seq::empty(), false, Seq::empty(), false)
}

pub open spec fn names_step(st: NamesState, c: char) -> NamesState {
    if st.1 {
        if st.3 {
            (st.0, true, st.2.push(c), false)
        } else if c == '\\' {
            (st.0, true, st.2, true)
        } else if c == '"' {
            (st.0.push(st.2), false, Seq::empty(), false)
        } else {
            (st.0, true, st.2.push(c), false)
        }
    } else if c == '"' {
        (st.0, true, st.2, st.3)
    } else {
        st
    }
}

pub open spec fn names_run(st: NamesState, s: Seq<char>) -> NamesState
    decreases s.len(),
{
    if s.len() == 0 {
        st
    } else {
        names_step(names_run(st, s.drop_last()), s.last())
    }
}

/// The part between the brackets of a trimmed `[...]`.
pub open spec fn index_inner(body: Seq<char>) -> Option<Seq<char>> {
    let t = trim(body);
    if t.len() >= 2 && t[0] == '[' && t.last() == ']' {
        Some(t.subrange(1, t.len() - 1))
    } else {
        None
    }
}

/// What the cached index holds: the strings of the array, in order.
pub open spec fn parsed_index(body: Seq<char>) -> Result<Seq<Seq<char>>, GoghError> {
    match index_inner(body) {
        None => Err(GoghError::MalformedIndex),
        Some(inner) => {
            let st = names_run(names_start(), inner);
            if st.1 {
                Err(GoghError::UnterminatedIndex)
            } else {
                Ok(st.0)
            }
        },
    }
}

fn push_escaped(out: &mut Vec<char>, s: &str)
    ensures
        final(out)@ == old(out)@ + json_escaped(s@),
{
    let cs = chars_of(s);
    let ghost start = out@;
    let mut i: usize = 0;
    while i < cs.len()
        invariant
            i <= cs.len(),
            cs@ == s@,
            out@ == start + json_escaped(cs@.take(i as int)),
        decreases cs.len() - i,
    {
        let c = cs[i];
        assert(cs@.take(i + 1).drop_last() =~= cs@.take(i as int));
        if c == '\\' {
            out.push('\\');
            out.push('\\');
        } else if c == '"' {
            out.push('\\');
            out.push('"');
        } else {
            out.push(c);
        }
        i = i + 1;
        assert(out@ =~= start + json_escaped(cs@.take(i as int)));
    }
    assert(cs@.take(cs.len() as int) =~= cs@);
}

/// `s` with `\` and `"` escaped for a JSON string.
pub fn json_escape(s: &str) -> (r: String)
    ensures
        r@ == json_escaped(s@),
{
    let mut out: Vec<char> = Vec::new();
    push_escaped(&mut out, s);
    assert(out@ =~= json_escaped(s@));
    string_of(&out)
}

/// Serialize the names as a small JSON array (the index file's format).
pub fn serialize_names(names: &[String]) -> (r: String)
    ensures
        r@ == serialized(views(names@)),
{
    let mut out: Vec<char> = Vec::new();
    out.push('[');
    let mut i: usize = 0;
    while i < names.len()
        invariant
            i <= names@.len(),
            out@ == seq!['['] + joined(views(names@).take(i as int)),
        decreases names@.len() - i,
    {
        let ghost before = views(names@).take(i as int);
        let ghost after = views(names@).take(i + 1);
        assert(after.drop_last() =~= before);
        assert(after.last() == names@[i as int]@);
        if i > 0 {
            out.push(',');
        }
        out.push('"');
        push_escaped(&mut out, names[i].as_str());
        out.push('"');
        proof {
            if i == 0 {
                assert(out@ =~= seq!['['] + joined(after));
            } else {
                assert(out@ =~= seq!['['] + joined(after));
            }
        }
        i = i + 1;
    }
    assert(views(names@).take(names@.len() as int) =~= views(names@));
    out.push(']');
    out.push('\n');
    assert(out@ =~= serialized(views(names@)));
    string_of(&out)
}

/// Read the cached index back: the strings of a JSON array. A body that
/// is not a bracketed array is `MalformedIndex`; one that ends inside a
/// string (an interrupted write) is `UnterminatedIndex`, so a truncated
/// cache never reads as a silently shorter list.
pub fn parse_names(body: &str) -> (r: Result<Vec<String>, GoghError>)
    ensures
        match parsed_index(body@) {
            Ok(ns) => r matches Ok(v) && views(v@) == ns,
            Err(e) => r == Err::<Vec<String>, GoghError>(e),
        },
{
    let b = chars_of(body);
    let (a, e) = trim_bounds(&b);
    if !(e - a >= 2 && b[a] == '[' && b[e - 1] == ']') {
        return Err(GoghError::MalformedIndex);
    }
    let ghost inner = b@.subrange(a + 1, e - 1);
    assert(index_inner(body@) == Some(inner)) by {
        assert(trim(b@).subrange(1, trim(b@).len() - 1) =~= inner);
    }
    let mut names: Vec<String> = Vec::new();
    let mut in_str = false;
    let mut cur: Vec<char> = Vec::new();
    let mut escaped = false;
    let mut i: usize = a + 1;
    assert(b@.subrange(a + 1, i as int) =~= Seq::<char>::empty());
    while i < e - 1
        invariant
            a + 1 <= i <= e - 1,
            e <= b.len(),
            inner == b@.subrange(a + 1, e - 1),
            names_run(names_start(), b@.subrange(a + 1, i as int)) == (
                views(names@),
                in_str,
                cur@,
                escaped,
            ),
        decreases e - 1 - i,
    {
        let c = b[i];
        let ghost prev = b@.subrange(a + 1, i as int);
        assert(b@.subrange(a + 1, i + 1).drop_last() =~= prev);
        assert(b@.subrange(a + 1, i + 1).last() == c);
        if in_str {
            if escaped {
                cur.push(c);
                escaped = false;
            } else if c == '\\' {
                escaped = true;
            } else if c == '"' {
                in_str = false;
                let done = string_of(&cur);
                let ghost old_names = names@;
                names.push(done);
                assert(views(names@) =~= views(old_names).push(cur@));
                cur = Vec::new();
            } else {
                cur.push(c);
            }
        } else if c == '"' {
            in_str = true;
        }
        i = i + 1;
        assert(cur@ =~= names_run(names_start(), b@.subrange(a + 1, i as int)).2);
    }
    if in_str {
        return Err(GoghError::UnterminatedIndex);
    }
    Ok(names)
}

/// The cached catalog, from the index file's contents. `None` (no index
/// yet) means the user has not synced; callers should say so rather than
/// reach out to the network.
pub fn cached_names(index_body: Option<&str>) -> (r: Result<Option<Vec<String>>, GoghError>)
    ensures
        match index_body {
            None => r matches Ok(None),
            Some(b) => match parsed_index(b@) {
                Ok(ns) => r matches Ok(Some(v)) && views(v@) == ns,
                Err(e) => r == Err::<Option<Vec<String>>, GoghError>(e),
            },
        },
{
    match index_body {
        None => Ok(None),
        Some(b) => match parse_names(b) {
            Ok(v) => Ok(Some(v)),
            Err(e) => Err(e),
        },
    }
}

/// Refresh the catalog from a GitHub tree listing: the theme names, and
/// the index file to cache them in.
pub fn sync(tree_body: &str) -> (r: Result<(Vec<String>, String), GoghError>)
    ensures
        tree_names(tree_body@).len() == 0 ==> match json_string_value(tree_body@, "message"@) {
            Some(m) => r matches Err(GoghError::ApiError(msg)) && msg@ == m,
            None => r == Err::<(Vec<String>, String), GoghError>(GoghError::NoThemesInTree),
        },
        tree_names(tree_body@).len() > 0 ==> (r matches Ok(p) && strictly_sorted(views(p.0@))
            && views(p.0@).to_set() == tree_names(tree_body@).to_set() && p.1@ == serialized(
            views(p.0@),
        )),
{
    let names = parse_tree_response(tree_body)?;
    let json = serialize_names(names.as_slice());
    Ok((names, json))
}


// ---------------------------------------------------------------------
// Laws of the index format
// ---------------------------------------------------------------------

proof fn lemma_names_run_concat(st: NamesState, a: Seq<char>, b: Seq<char>)
    ensures
        names_run(st, a + b) == names_run(names_run(st, a), b),
    decreases b.len(),
{
    if b.len() == 0 {
        assert(a + b =~= a);
    } else {
        assert((a + b).drop_last() =~= a + b.drop_last());
        assert((a + b).last() == b.last());
        lemma_names_run_concat(st, a, b.drop_last());
    }
}

proof fn lemma_names_run_one(st: NamesState, c: char)
    ensures
        names_run(st, seq![c]) == names_step(st, c),
{
    assert(seq![c].drop_last() =~= Seq::<char>::empty());
    assert(names_run(st, Seq::<char>::empty()) == st);
}

proof fn lemma_names_run_escaped(ns: Seq<Seq<char>>, cur: Seq<char>, n: Seq<char>)
    ensures
        names_run((ns, true, cur, false), json_escaped(n)) == (ns, true, cur + n, false),
    decreases n.len(),
{
    if n.len() == 0 {
        assert(cur + n =~= cur);
    } else {
        let c = n.last();
        lemma_names_run_escaped(ns, cur, n.drop_last());
        lemma_names_run_concat(
            (ns, true, cur, false),
            json_escaped(n.drop_last()),
            escape_char(c),
        );
        let mid: NamesState = (ns, true, cur + n.drop_last(), false);
        assert(cur + n =~= (cur + n.drop_last()).push(c));
        if c == '\\' || c == '"' {
            assert(escape_char(c) =~= seq!['\\'] + seq![c]);
            lemma_names_run_concat(mid, seq!['\\'], seq![c]);
            lemma_names_run_one(mid, '\\');
            lemma_names_run_one(names_step(mid, '\\'), c);
        } else {
            lemma_names_run_one(mid, c);
        }
    }
}

proof fn lemma_names_run_quoted(ns: Seq<Seq<char>>, n: Seq<char>)
    ensures
        names_run((ns, false, Seq::empty(), false), quoted(n)) == (
            ns.push(n),
            false,
            Seq::<char>::empty(),
            false,
        ),
{
    let st: NamesState = (ns, false, Seq::empty(), false);
    let open_q = seq!['"'];
    lemma_names_run_concat(st, open_q + json_escaped(n), seq!['"']);
    lemma_names_run_concat(st, open_q, json_escaped(n));
    lemma_names_run_one(st, '"');
    lemma_names_run_escaped(ns, Seq::empty(), n);
    assert(Seq::<char>::empty() + n =~= n);
    lemma_names_run_one((ns, true, n, false), '"');
}

proof fn lemma_names_run_joined(pre: Seq<Seq<char>>, ns: Seq<Seq<char>>)
    ensures
        names_run((pre, false, Seq::empty(), false), joined(ns)) == (
            pre + ns,
            false,
            Seq::<char>::empty(),
            false,
        ),
    decreases ns.len(),
{
    let st: NamesState = (pre, false, Seq::empty(), false);
    if ns.len() == 0 {
        assert(pre + ns =~= pre);
    } else if ns.len() == 1 {
        lemma_names_run_quoted(pre, ns[0]);
        assert(pre.push(ns[0]) =~= pre + ns);
    } else {
        let init = ns.drop_last();
        lemma_names_run_joined(pre, init);
        lemma_names_run_concat(st, joined(init) + seq![','], quoted(ns.last()));
        lemma_names_run_concat(st, joined(init), seq![',']);
        lemma_names_run_one((pre + init, false, Seq::empty(), false), ',');
        lemma_names_run_quoted(pre + init, ns.last());
        assert((pre + init).push(ns.last()) =~= pre + ns);
    }
}

/// Reading back a written index gives exactly the names that were
/// written, in order, whatever characters they hold.
pub proof fn lemma_index_round_trip(ns: Seq<Seq<char>>)
    ensures
        parsed_index(serialized(ns)) == Ok::<Seq<Seq<char>>, GoghError>(ns),
{
    let body = serialized(ns);
    let t = seq!['['] + joined(ns) + seq![']'];
    assert(body =~= t.push('\n'));
    assert(trim_start(body) == body);
    assert(body.drop_last() =~= t);
    assert(trim_end(body) == trim_end(t));
    assert(trim_end(t) == t);
    assert(trim(body) == t);
    assert(t.subrange(1, t.len() - 1) =~= joined(ns));
    lemma_names_run_joined(Seq::empty(), ns);
    assert(Seq::<Seq<char>>::empty() + ns =~= ns);
}


proof fn lemma_percent_bytes_safe(bs: Seq<u8>)
    ensures
        forall|i: int|
            0 <= i < percent_bytes(bs).len() ==> unreserved(#[trigger] percent_bytes(bs)[i])
                || percent_bytes(bs)[i] == '%',
    decreases bs.len(),
{
    if bs.len() > 0 {
        lemma_percent_bytes_safe(bs.drop_last());
        let prev = percent_bytes(bs.drop_last());
        let hi = (bs.last() / 16) as nat;
        let lo = (bs.last() % 16) as nat;
        let tail = seq!['%', hex_upper(hi), hex_upper(lo)];
        assert(unreserved(hex_upper(hi)) && unreserved(hex_upper(lo)));
        assert forall|i: int| 0 <= i < percent_bytes(bs).len() implies unreserved(
            #[trigger] percent_bytes(bs)[i],
        ) || percent_bytes(bs)[i] == '%' by {
            if i < prev.len() {
                assert(percent_bytes(bs)[i] == prev[i]);
            } else {
                assert(percent_bytes(bs)[i] == tail[i - prev.len()]);
            }
        }
    }
}

/// A percent-encoded name is a single URL path segment: every character
/// is unreserved or the `%` of an escape, so no `/`, `?` or `#` survives.
pub proof fn lemma_percent_encoded_is_one_segment(s: Seq<char>)
    ensures
        forall|i: int|
            0 <= i < percent_encoded(s).len() ==> unreserved(#[trigger] percent_encoded(s)[i])
                || percent_encoded(s)[i] == '%',
    decreases s.len(),
{
    if s.len() > 0 {
        lemma_percent_encoded_is_one_segment(s.drop_last());
        let prev = percent_encoded(s.drop_last());
        let last = percent_char(s.last());
        if !unreserved(s.last()) {
            lemma_percent_bytes_safe(vstd::utf8::encode_utf8(seq![s.last()]));
        }
        assert forall|i: int| 0 <= i < percent_encoded(s).len() implies unreserved(
            #[trigger] percent_encoded(s)[i],
        ) || percent_encoded(s)[i] == '%' by {
            if i < prev.len() {
                assert(percent_encoded(s)[i] == prev[i]);
            } else {
                assert(percent_encoded(s)[i] == last[i - prev.len()]);
            }
        }
    }
}

} // verus!
