//! Core theme data types.
//!
//! Two distinct file shapes:
//!
//! - **Palette** (`.colorant`): a flat set of color keys (fg, bg, cursor, 16
//!   palette entries). No modes, no inheritance — just colors. Parsed into
//!   `ParsedPalette`.
//! - **Config** (`.colorantrc`): the per-directory file users actually edit.
//!   Carries mode-aware inheritance via `extends` / `extends.dark` /
//!   `extends.light`, plus its own top-level keys and optional `[dark]` /
//!   `[light]` sections. Parsed into `ParsedRc`.
//!
//! `Mode` is the system dark/light mode (or `Unknown` when we can't tell).

use crate::text::{
    chars_of, eq_chars, hex_digit, is_hex_digit, is_whitespace, is_ws, lower_seq, lower_vec,
    string_of,
};
use vstd::prelude::*;

verus! {

// ---------------------------------------------------------------------
// HexColor
// ---------------------------------------------------------------------

/// Exactly `#` followed by six ASCII hex digits, in either case.
pub open spec fn is_color_text(s: Seq<char>) -> bool {
    &&& s.len() == 7
    &&& s[0] == '#'
    &&& forall|i: int| 1 <= i < 7 ==> is_hex_digit(#[trigger] s[i])
}

/// The stored form of a valid color: the input, ASCII-lowercased.
pub open spec fn color_of(s: Seq<char>) -> Option<Seq<char>> {
    if is_color_text(s) {
        Some(lower_seq(s))
    } else {
        None
    }
}

/// A valid color in its stored (lowercase) form.
pub open spec fn is_canonical_color(s: Seq<char>) -> bool {
    is_color_text(s) && lower_seq(s) == s
}

/// The value of an ASCII hex digit.
pub open spec fn hex_value(c: char) -> nat {
    if '0' <= c && c <= '9' {
        ((c as u32) - 48) as nat
    } else if 'a' <= c && c <= 'f' {
        ((c as u32) - 87) as nat
    } else {
        ((c as u32) - 55) as nat
    }
}

/// The octets of `#rrggbb`.
pub open spec fn color_rgb(s: Seq<char>) -> (u8, u8, u8) {
    (
        (16 * hex_value(s[1]) + hex_value(s[2])) as u8,
        (16 * hex_value(s[3]) + hex_value(s[4])) as u8,
        (16 * hex_value(s[5]) + hex_value(s[6])) as u8,
    )
}

fn digit_value(c: char) -> (r: u8)
    requires
        is_hex_digit(c),
    ensures
        r == hex_value(c),
        r < 16,
{
    if '0' <= c && c <= '9' {
        (c as u32 - 48) as u8
    } else if 'a' <= c && c <= 'f' {
        (c as u32 - 87) as u8
    } else {
        (c as u32 - 55) as u8
    }
}

fn octet(hi: char, lo: char) -> (r: u8)
    requires
        is_hex_digit(hi),
        is_hex_digit(lo),
    ensures
        r == (16 * hex_value(hi) + hex_value(lo)) as u8,
{
    let h = digit_value(hi);
    let l = digit_value(lo);
    h * 16 + l
}

/// A `#rrggbb` color, validated at construction. Stored as a 7-character
/// lowercase string for direct OSC emission. Input case is normalized so
/// `#AABBCC` and `#aabbcc` compare equal under `Eq` and `Hash`.
#[derive(Debug, PartialEq, Eq, Hash)]
pub struct HexColor(String);

impl View for HexColor {
    type V = Seq<char>;

    closed spec fn view(&self) -> Seq<char> {
        self.0@
    }
}

pub open spec fn opt_color(o: Option<HexColor>) -> Option<Seq<char>> {
    match o {
        Some(h) => Some(h@),
        None => None,
    }
}

pub proof fn lemma_lower_idempotent(s: Seq<char>)
    ensures
        lower_seq(lower_seq(s)) == lower_seq(s),
        is_color_text(s) ==> is_color_text(lower_seq(s)),
{
    assert(lower_seq(lower_seq(s)) =~= lower_seq(s));
}

impl Clone for HexColor {
    fn clone(&self) -> (r: HexColor)
        ensures
            r@ == self@,
    {
        proof {
            use_type_invariant(self);
        }
        HexColor(self.0.clone())
    }
}

impl HexColor {
    #[verifier::type_invariant]
    spec fn inv(self) -> bool {
        is_canonical_color(self.0@)
    }

    /// Parse a `#rrggbb` value. Returns None for anything that isn't exactly
    /// a `#` followed by six hex digits. Both upper and lower case are
    /// accepted on input; the stored value is always lowercase.
    pub fn parse(s: &str) -> (r: Option<HexColor>)
        ensures
            opt_color(r) == color_of(s@),
    {
        let v = chars_of(s);
        Self::from_chars(&v)
    }

    /// `parse` over characters already split out of a line.
    pub fn from_chars(v: &Vec<char>) -> (r: Option<HexColor>)
        ensures
            opt_color(r) == color_of(v@),
    {
        if v.len() != 7 || v[0] != '#' {
            return None;
        }
        let mut i: usize = 1;
        while i < 7
            invariant
                v.len() == 7,
                1 <= i <= 7,
                forall|j: int| 1 <= j < i ==> is_hex_digit(#[trigger] v@[j]),
            decreases 7 - i,
        {
            if !hex_digit(v[i]) {
                return None;
            }
            i = i + 1;
        }
        let lower = lower_vec(v);
        proof {
            lemma_lower_idempotent(v@);
        }
        let h = HexColor(string_of(&lower));
        Some(h)
    }

    /// The red, green and blue octets.
    pub fn rgb(&self) -> (r: (u8, u8, u8))
        ensures
            r == color_rgb(self@),
    {
        proof {
            use_type_invariant(self);
        }
        let v = chars_of(self.0.as_str());
        (octet(v[1], v[2]), octet(v[3], v[4]), octet(v[5], v[6]))
    }

    /// Borrow the underlying `#rrggbb` string for direct OSC emission.
    pub fn as_str(&self) -> (r: &str)
        ensures
            r@ == self@,
            is_canonical_color(r@),
    {
        proof {
            use_type_invariant(self);
        }
        self.0.as_str()
    }
}

// ---------------------------------------------------------------------
// ThemeName
// ---------------------------------------------------------------------

/// What `char::is_alphanumeric` answers for a non-ASCII character (the
/// Unicode `Alphabetic` property or a numeric general category).
pub uninterp spec fn unicode_alphanumeric(c: char) -> bool;

/// `char::is_alphanumeric` for characters outside ASCII. The contract
/// claims that the result is the named function of the character, and that
/// the C1 control characters (U+0080 to U+009F) are not alphanumeric: std
/// defines the answer as Unicode `Alphabetic` or `Numeric`, and these
/// characters are neither (their category is `Cc`).
#[verifier::external_body]
fn non_ascii_alphanumeric(c: char) -> (r: bool)
    ensures
        r == unicode_alphanumeric(c),
        0x80 <= (c as u32) <= 0x9f ==> !r,
{
    c.is_alphanumeric()
}

pub open spec fn is_ascii_alnum(c: char) -> bool {
    ('0' <= c && c <= '9') || ('a' <= c && c <= 'z') || ('A' <= c && c <= 'Z')
}

/// `char::is_alphanumeric`: ASCII letters and digits, plus whatever Unicode
/// classes as alphanumeric outside ASCII.
pub open spec fn is_alnum(c: char) -> bool {
    if (c as u32) < 128 {
        is_ascii_alnum(c)
    } else if (c as u32) <= 0x9f {
        false
    } else {
        unicode_alphanumeric(c)
    }
}

/// Characters allowed anywhere in a theme name.
pub open spec fn name_char_allowed(c: char) -> bool {
    is_alnum(c) || c == '.' || c == '-' || c == '_' || c == ' ' || c == '(' || c == ')' || c
        == '+'
}

pub fn is_alphanumeric(c: char) -> (r: bool)
    ensures
        r == is_alnum(c),
{
    if (c as u32) < 128 {
        ('0' <= c && c <= '9') || ('a' <= c && c <= 'z') || ('A' <= c && c <= 'Z')
    } else {
        non_ascii_alphanumeric(c)
    }
}

fn is_allowed(c: char) -> (r: bool)
    ensures
        r == name_char_allowed(c),
{
    is_alphanumeric(c) || c == '.' || c == '-' || c == '_' || c == ' ' || c == '(' || c == ')'
        || c == '+'
}

/// Index of the first character not allowed in a theme name (or the
/// length when every character is allowed).
pub open spec fn first_disallowed(s: Seq<char>) -> nat
    decreases s.len(),
{
    if s.len() == 0 {
        0
    } else if !name_char_allowed(s[0]) {
        0
    } else {
        1 + first_disallowed(s.drop_first())
    }
}

pub proof fn lemma_first_disallowed(s: Seq<char>)
    ensures
        first_disallowed(s) <= s.len(),
        forall|j: int| 0 <= j < first_disallowed(s) ==> name_char_allowed(s[j]),
        first_disallowed(s) < s.len() ==> !name_char_allowed(s[first_disallowed(s) as int]),
    decreases s.len(),
{
    if s.len() > 0 && name_char_allowed(s[0]) {
        lemma_first_disallowed(s.drop_first());
        assert forall|j: int| 0 <= j < first_disallowed(s) implies name_char_allowed(s[j]) by {
            if j > 0 {
                assert(s[j] == s.drop_first()[j - 1]);
            }
        }
    }
}

pub proof fn lemma_first_disallowed_is(s: Seq<char>, i: int)
    requires
        0 <= i <= s.len(),
        forall|j: int| 0 <= j < i ==> name_char_allowed(s[j]),
        i == s.len() || !name_char_allowed(s[i]),
    ensures
        first_disallowed(s) == i,
    decreases i,
{
    if i > 0 {
        assert(name_char_allowed(s[0]));
        lemma_first_disallowed_is(s.drop_first(), i - 1);
    }
}

/// Abstract form of `ThemeNameError`.
pub enum NameErrorView {
    Empty,
    InvalidChar(Seq<char>, char),
}

/// What `ThemeName::parse` decides for the characters `s`.
pub open spec fn name_check(s: Seq<char>) -> Result<Seq<char>, NameErrorView> {
    if s.len() == 0 {
        Err(NameErrorView::Empty)
    } else if is_ws(s[0]) {
        Err(NameErrorView::InvalidChar(s, s[0]))
    } else if is_ws(s.last()) {
        Err(NameErrorView::InvalidChar(s, s.last()))
    } else if first_disallowed(s) < s.len() {
        Err(NameErrorView::InvalidChar(s, s[first_disallowed(s) as int]))
    } else {
        Ok(s)
    }
}

pub open spec fn is_valid_name(s: Seq<char>) -> bool {
    name_check(s) is Ok
}

/// Reasons a string fails to be a valid theme name.
#[derive(Debug, Clone, PartialEq, Eq)]
pub enum ThemeNameError {
    Empty,
    InvalidChar(String, char),
}

impl View for ThemeNameError {
    type V = NameErrorView;

    open spec fn view(&self) -> NameErrorView {
        match self {
            ThemeNameError::Empty => NameErrorView::Empty,
            ThemeNameError::InvalidChar(s, c) => NameErrorView::InvalidChar(s@, *c),
        }
    }
}

/// What `format!("{:?}", s)` gives for a string: Rust's quoted, escaped
/// debug rendering.
pub uninterp spec fn debug_str(s: Seq<char>) -> Seq<char>;

/// What `format!("{:?}", c)` gives for a character: Rust's quoted, escaped
/// debug rendering.
pub uninterp spec fn debug_char(c: char) -> Seq<char>;

/// The `Debug` rendering of a string (`<str as Debug>::fmt`). The contract
/// claims only that the result is the named function of the characters.
#[verifier::external_body]
pub(crate) fn debug_string(s: &str) -> (r: String)
    ensures
        r@ == debug_str(s@),
{
    format!("{:?}", s)
}

/// The `Debug` rendering of a character (`<char as Debug>::fmt`). The
/// contract claims only that the result is the named function of the
/// character.
#[verifier::external_body]
pub(crate) fn debug_character(c: char) -> (r: String)
    ensures
        r@ == debug_char(c),
{
    format!("{:?}", c)
}

/// The characters allowed in a theme name, as error messages list them.
pub const ALLOWED_CHARS: &'static str = "alphanumerics (Unicode), '.', '-', '_', ' ', '(', ')', '+'";

/// The message for a name error.
pub open spec fn name_error_text(e: NameErrorView) -> Seq<char> {
    match e {
        NameErrorView::Empty => "theme name must not be empty"@,
        NameErrorView::InvalidChar(s, c) => "theme name "@ + debug_str(s) + " contains invalid character "@
            + debug_char(c) + "; allowed: "@ + ALLOWED_CHARS@,
    }
}

impl ThemeNameError {
    /// The user-facing message.
    pub fn message(&self) -> (r: String)
        ensures
            r@ == name_error_text(self@),
    {
        match self {
            ThemeNameError::Empty => string_of(&chars_of("theme name must not be empty")),
            ThemeNameError::InvalidChar(s, c) => {
                let mut out = chars_of("theme name ");
                let ds = debug_string(s.as_str());
                crate::text::push_str(&mut out, ds.as_str());
                crate::text::push_str(&mut out, " contains invalid character ");
                let dc = debug_character(*c);
                crate::text::push_str(&mut out, dc.as_str());
                crate::text::push_str(&mut out, "; allowed: ");
                crate::text::push_str(&mut out, ALLOWED_CHARS);
                string_of(&out)
            },
        }
    }
}

/// A validated theme name.
///
/// A theme name is what `extends`, `extends.dark`, `extends.light` in
/// `.colorantrc` files and `default_theme` in `config.toml` refer to. It is
/// joined to `base_theme_dir` to locate `<name>.colorant` on disk.
///
/// Allowed characters: Unicode alphanumerics (so accented Latin like
/// `é` and CJK both work), plus `.`, `-`, `_`, ` ` (interior only),
/// `(`, `)`, and `+`. This is wide enough to cover the Gogh catalog
/// (`3024 Day`, `Catppuccin Frappé`, `Flatland (Palenight)`,
/// `Vs Code Dark+`) while still ruling out path traversal (`/`, `\`),
/// shell-quoting hazards (`"`, `'`), and control characters. Leading
/// or trailing whitespace is rejected to avoid surprising filesystem
/// behavior and asymmetric rc-line trim.
#[derive(Debug, PartialEq, Eq, Hash)]
pub struct ThemeName(String);

impl View for ThemeName {
    type V = Seq<char>;

    closed spec fn view(&self) -> Seq<char> {
        self.0@
    }
}

pub open spec fn opt_name(o: Option<ThemeName>) -> Option<Seq<char>> {
    match o {
        Some(n) => Some(n@),
        None => None,
    }
}

pub open spec fn name_result(r: Result<ThemeName, ThemeNameError>) -> Result<
    Seq<char>,
    NameErrorView,
> {
    match r {
        Ok(n) => Ok(n@),
        Err(e) => Err(e@),
    }
}

impl Clone for ThemeName {
    fn clone(&self) -> (r: ThemeName)
        ensures
            r@ == self@,
    {
        proof {
            use_type_invariant(self);
        }
        ThemeName(self.0.clone())
    }
}

impl ThemeName {
    #[verifier::type_invariant]
    spec fn inv(self) -> bool {
        is_valid_name(self.0@)
    }

    /// Parse a theme name. See the [`ThemeName`] doc comment for the
    /// accepted character set.
    pub fn parse(s: &str) -> (r: Result<ThemeName, ThemeNameError>)
        ensures
            name_result(r) == name_check(s@),
    {
        let v = chars_of(s);
        Self::from_chars(&v)
    }

    /// `parse` over characters already split out of a line.
    pub fn from_chars(v: &Vec<char>) -> (r: Result<ThemeName, ThemeNameError>)
        ensures
            name_result(r) == name_check(v@),
    {
        let n = v.len();
        if n == 0 {
            return Err(ThemeNameError::Empty);
        }
        let first = v[0];
        if is_whitespace(first) {
            return Err(ThemeNameError::InvalidChar(string_of(v), first));
        }
        let last = v[n - 1];
        if is_whitespace(last) {
            return Err(ThemeNameError::InvalidChar(string_of(v), last));
        }
        let mut i: usize = 0;
        while i < n
            invariant
                n == v.len(),
                n > 0,
                !is_ws(v@[0]),
                !is_ws(v@[n - 1]),
                i <= n,
                forall|j: int| 0 <= j < i ==> name_char_allowed(v@[j]),
            decreases n - i,
        {
            if !is_allowed(v[i]) {
                proof {
                    lemma_first_disallowed_is(v@, i as int);
                }
                return Err(ThemeNameError::InvalidChar(string_of(v), v[i]));
            }
            i = i + 1;
        }
        proof {
            lemma_first_disallowed_is(v@, n as int);
        }
        Ok(ThemeName(string_of(v)))
    }

    /// Borrow the underlying string for path joins and display.
    pub fn as_str(&self) -> (r: &str)
        ensures
            r@ == self@,
            is_valid_name(r@),
    {
        proof {
            use_type_invariant(self);
        }
        self.0.as_str()
    }

    /// Character-wise equality of two names.
    pub fn same_as(&self, other: &ThemeName) -> (r: bool)
        ensures
            r == (self@ == other@),
    {
        let a = chars_of(self.as_str());
        let b = chars_of(other.as_str());
        eq_chars(&a, &b)
    }
}

// ---------------------------------------------------------------------
// ThemeLayer and the parsed file shapes
// ---------------------------------------------------------------------

/// Abstract form of a `ThemeLayer`: each slot is the stored text of its
/// color, or `None` when unset. `palette` always has 16 entries.
pub struct LayerView {
    pub fg: Option<Seq<char>>,
    pub bg: Option<Seq<char>>,
    pub cursor: Option<Seq<char>>,
    pub palette: Seq<Option<Seq<char>>>,
}

/// The layer with no slot set.
pub open spec fn empty_layer() -> LayerView {
    LayerView {
        fg: None,
        bg: None,
        cursor: None,
        palette: Seq::new(16, |i: int| None::<Seq<char>>),
    }
}

/// `b` where set, else `a`.
pub open spec fn overlay(a: Option<Seq<char>>, b: Option<Seq<char>>) -> Option<Seq<char>> {
    if b is Some {
        b
    } else {
        a
    }
}

/// `a` with every slot that `b` sets replaced by `b`'s value.
pub open spec fn merged(a: LayerView, b: LayerView) -> LayerView {
    LayerView {
        fg: overlay(a.fg, b.fg),
        bg: overlay(a.bg, b.bg),
        cursor: overlay(a.cursor, b.cursor),
        palette: Seq::new(16, |i: int| overlay(a.palette[i], b.palette[i])),
    }
}

/// Every slot set in the layer holds a canonical color and the palette
/// has its 16 entries.
pub open spec fn layer_wf(l: LayerView) -> bool {
    &&& l.palette.len() == 16
    &&& (l.fg matches Some(c) ==> is_canonical_color(c))
    &&& (l.bg matches Some(c) ==> is_canonical_color(c))
    &&& (l.cursor matches Some(c) ==> is_canonical_color(c))
    &&& forall|i: int| 0 <= i < 16 ==> (#[trigger] l.palette[i] matches Some(c) ==> is_canonical_color(c))
}

/// Slot numbering shared by the parsers: 0 = fg, 1 = bg, 2 = cursor,
/// `3 + i` = palette entry `i`.
pub open spec fn set_slot(l: LayerView, slot: int, c: Seq<char>) -> LayerView {
    if slot == 0 {
        LayerView { fg: Some(c), ..l }
    } else if slot == 1 {
        LayerView { bg: Some(c), ..l }
    } else if slot == 2 {
        LayerView { cursor: Some(c), ..l }
    } else {
        LayerView { palette: l.palette.update(slot - 3, Some(c)), ..l }
    }
}

/// A flat collection of theme keys. Any field set to `Some` overrides the
/// corresponding field in a layer it is merged into.
#[derive(Debug, Clone, PartialEq, Eq)]
pub struct ThemeLayer {
    /// Default foreground color (OSC 10).
    pub fg: Option<HexColor>,
    /// Default background color (OSC 11).
    pub bg: Option<HexColor>,
    /// Cursor color (OSC 12).
    pub cursor: Option<HexColor>,
    /// Palette entries 0..15 (OSC 4).
    pub palette: [Option<HexColor>; 16],
}

impl View for ThemeLayer {
    type V = LayerView;

    open spec fn view(&self) -> LayerView {
        LayerView {
            fg: opt_color(self.fg),
            bg: opt_color(self.bg),
            cursor: opt_color(self.cursor),
            palette: Seq::new(16, |i: int| opt_color(self.palette@[i])),
        }
    }
}

impl Default for ThemeLayer {
    fn default() -> (r: ThemeLayer)
        ensures
            r@ == empty_layer(),
    {
        let r = ThemeLayer {
            fg: None,
            bg: None,
            cursor: None,
            palette: [
                None,
                None,
                None,
                None,
                None,
                None,
                None,
                None,
                None,
                None,
                None,
                None,
                None,
                None,
                None,
                None,
            ],
        };
        assert(r@.palette =~= empty_layer().palette);
        r
    }
}

fn copy_opt(o: &Option<HexColor>) -> (r: Option<HexColor>)
    ensures
        opt_color(r) == opt_color(*o),
{
    match o {
        Some(h) => Some(h.clone()),
        None => None,
    }
}

impl ThemeLayer {
    /// A second layer holding the same colors.
    /// Every layer is well formed: sixteen palette entries, each set color
    /// canonical (the `HexColor` invariant).
    pub(crate) fn establish_wf(&self)
        ensures
            layer_wf(self@),
    {
        if let Some(c) = &self.fg {
            proof {
                use_type_invariant(c);
            }
        }
        if let Some(c) = &self.bg {
            proof {
                use_type_invariant(c);
            }
        }
        if let Some(c) = &self.cursor {
            proof {
                use_type_invariant(c);
            }
        }
        let mut i: usize = 0;
        while i < 16
            invariant
                i <= 16,
                forall|j: int|
                    0 <= j < i ==> (#[trigger] self@.palette[j] matches Some(c) ==> is_canonical_color(c)),
            decreases 16 - i,
        {
            if let Some(c) = &self.palette[i] {
                proof {
                    use_type_invariant(c);
                }
            }
            i = i + 1;
        }
    }

    pub fn duplicate(&self) -> (r: ThemeLayer)
        ensures
            r@ == self@,
    {
        let mut r = ThemeLayer::default();
        r.merge(self);
        assert(r@.palette =~= self@.palette);
        assert(r@ =~= self@);
        r
    }

    /// Merge `other` into `self`. Any `Some` value in `other` replaces the
    /// corresponding field in `self`. `None` values leave `self` untouched.
    pub fn merge(&mut self, other: &ThemeLayer)
        ensures
            final(self)@ == merged(old(self)@, other@),
    {
        if other.fg.is_some() {
            self.fg = copy_opt(&other.fg);
        }
        if other.bg.is_some() {
            self.bg = copy_opt(&other.bg);
        }
        if other.cursor.is_some() {
            self.cursor = copy_opt(&other.cursor);
        }
        let ghost start = self.palette@;
        let ghost before = self@;
        let mut i: usize = 0;
        while i < 16
            invariant
                i <= 16,
                self.palette@.len() == 16,
                start.len() == 16,
                self@.fg == before.fg,
                self@.bg == before.bg,
                self@.cursor == before.cursor,
                forall|j: int|
                    0 <= j < i ==> opt_color(#[trigger] self.palette@[j]) == overlay(
                        opt_color(start[j]),
                        opt_color(other.palette@[j]),
                    ),
                forall|j: int| i <= j < 16 ==> #[trigger] self.palette@[j] == start[j],
            decreases 16 - i,
        {
            if other.palette[i].is_some() {
                let c = copy_opt(&other.palette[i]);
                self.palette[i] = c;
            }
            i = i + 1;
        }
        assert(self@.palette =~= merged(old(self)@, other@).palette);
        assert(self@ =~= merged(old(self)@, other@));
    }

    /// True if no fields are set. Used to decide whether to emit anything.
    pub fn is_empty(&self) -> (r: bool)
        ensures
            r == (self@ == empty_layer()),
    {
        if self.fg.is_some() || self.bg.is_some() || self.cursor.is_some() {
            return false;
        }
        let mut i: usize = 0;
        while i < 16
            invariant
                i <= 16,
                forall|j: int| 0 <= j < i ==> self.palette@[j] is None,
            decreases 16 - i,
        {
            if self.palette[i].is_some() {
                assert(self@.palette[i as int] != empty_layer().palette[i as int]);
                return false;
            }
            i = i + 1;
        }
        assert(self@.palette =~= empty_layer().palette);
        assert(self@ =~= empty_layer());
        true
    }
}

/// Abstract form of a parsed palette.
pub struct PaletteView {
    pub layer: LayerView,
}

/// The parsed contents of a `.colorant` palette file. Just colors, no
/// inheritance or mode logic.
#[derive(Debug, Clone, PartialEq, Eq)]
pub struct ParsedPalette {
    /// The flat color set declared in the palette file.
    pub layer: ThemeLayer,
}

impl Default for ParsedPalette {
    fn default() -> (r: ParsedPalette)
        ensures
            r.layer@ == empty_layer(),
    {
        ParsedPalette { layer: ThemeLayer::default() }
    }
}

/// System color-scheme mode.
#[derive(Debug, Copy, Clone, PartialEq, Eq, Structural)]
pub enum Mode {
    Dark,
    Light,
    /// We weren't able to query the OS. The apply step will skip both
    /// per-mode `extends` and the `[dark]` / `[light]` sections, falling back
    /// to the global `extends` (if any) and the file's base keys.
    Unknown,
}

/// Abstract form of a parsed `.colorantrc`.
pub struct RcView {
    pub extends: Option<Seq<char>>,
    pub extends_dark: Option<Seq<char>>,
    pub extends_light: Option<Seq<char>>,
    pub base: LayerView,
    pub dark: LayerView,
    pub light: LayerView,
}

pub open spec fn empty_rc() -> RcView {
    RcView {
        extends: None,
        extends_dark: None,
        extends_light: None,
        base: empty_layer(),
        dark: empty_layer(),
        light: empty_layer(),
    }
}

/// The effective parent palette name for `mode`: `extends.<mode>` if set,
/// else the global `extends`; for `Unknown` only the global one counts.
pub open spec fn parent_name(rc: RcView, mode: Mode) -> Option<Seq<char>> {
    let specific = match mode {
        Mode::Dark => rc.extends_dark,
        Mode::Light => rc.extends_light,
        Mode::Unknown => None,
    };
    if specific is Some {
        specific
    } else {
        rc.extends
    }
}

/// The parsed contents of a `.colorantrc` config file. Carries optional
/// parent palette names (one global, optionally one per mode), plus the
/// file's own keys split into a `base` layer (always applied) and per-mode
/// overlays (`dark`, `light`).
#[derive(Debug, Clone, PartialEq, Eq)]
pub struct ParsedRc {
    /// Palette name applied in both modes when no per-mode override is set.
    pub extends: Option<ThemeName>,
    /// Palette name applied only in dark mode. When set, overrides `extends`
    /// in dark mode.
    pub extends_dark: Option<ThemeName>,
    /// Palette name applied only in light mode. When set, overrides `extends`
    /// in light mode.
    pub extends_light: Option<ThemeName>,
    /// Color keys at the top level of the rc, applied in every mode.
    pub base: ThemeLayer,
    /// Color keys under `[dark]`, applied only when the system is in dark mode.
    pub dark: ThemeLayer,
    /// Color keys under `[light]`, applied only when the system is in light mode.
    pub light: ThemeLayer,
}

impl View for ParsedRc {
    type V = RcView;

    open spec fn view(&self) -> RcView {
        RcView {
            extends: opt_name(self.extends),
            extends_dark: opt_name(self.extends_dark),
            extends_light: opt_name(self.extends_light),
            base: self.base@,
            dark: self.dark@,
            light: self.light@,
        }
    }
}

impl Default for ParsedRc {
    fn default() -> (r: ParsedRc)
        ensures
            r@ == empty_rc(),
    {
        ParsedRc {
            extends: None,
            extends_dark: None,
            extends_light: None,
            base: ThemeLayer::default(),
            dark: ThemeLayer::default(),
            light: ThemeLayer::default(),
        }
    }
}

impl ParsedRc {
    /// Pick the effective parent palette name for `mode`:
    /// `extends.<mode>` if set, else top-level `extends`, else none. For
    /// `Mode::Unknown` only the global `extends` is consulted.
    pub fn parent_for(&self, mode: Mode) -> (r: Option<&ThemeName>)
        ensures
            match r {
                Some(n) => parent_name(self@, mode) == Some(n@),
                None => parent_name(self@, mode) is None,
            },
    {
        let specific = match mode {
            Mode::Dark => self.extends_dark.as_ref(),
            Mode::Light => self.extends_light.as_ref(),
            Mode::Unknown => None,
        };
        match specific {
            Some(n) => Some(n),
            None => self.extends.as_ref(),
        }
    }
}


// ---------------------------------------------------------------------
// Laws
// ---------------------------------------------------------------------

/// Color parsing ignores case: `#AABBCC` and `#aabbcc` parse to the same
/// stored color.
pub proof fn lemma_color_case_insensitive(s: Seq<char>)
    ensures
        color_of(lower_seq(s)) == color_of(s),
{
    lemma_lower_idempotent(s);
    let t = lower_seq(s);
    assert forall|i: int| 0 <= i < s.len() implies #[trigger] is_hex_digit(t[i]) == is_hex_digit(
        s[i],
    ) && (t[i] == '#') == (s[i] == '#') by {
        lemma_lower_char_shape(s[i]);
    }
    if is_color_text(s) {
        assert(is_color_text(t));
    }
    if is_color_text(t) {
        assert forall|i: int| 1 <= i < 7 implies is_hex_digit(#[trigger] s[i]) by {
            assert(is_hex_digit(t[i]));
        }
        assert(is_color_text(s));
    }
}

proof fn lemma_lower_char_shape(c: char)
    ensures
        is_hex_digit(crate::text::lower_char(c)) == is_hex_digit(c),
        (crate::text::lower_char(c) == '#') == (c == '#'),
{
}

/// A valid theme name is a single file-name component: it holds no path
/// separator, quote, line break or other control character (C0, DEL or
/// C1), so joining it to the themes directory never leaves that directory
/// or breaks an rc line.
pub proof fn lemma_valid_name_is_one_component(s: Seq<char>)
    requires
        is_valid_name(s),
    ensures
        forall|i: int|
            0 <= i < s.len() ==> #[trigger] s[i] != '/' && s[i] != '\\' && s[i] != '"' && s[i]
                != '\'' && s[i] != '\n' && s[i] != '\r',
        forall|i: int|
            0 <= i < s.len() ==> !((#[trigger] s[i] as u32) < 0x20 || 0x7f <= (s[i] as u32) <= 0x9f),
{
    lemma_first_disallowed(s);
    assert forall|i: int| 0 <= i < s.len() implies #[trigger] s[i] != '/' && s[i] != '\\' && s[i]
        != '"' && s[i] != '\'' && s[i] != '\n' && s[i] != '\r' by {
        assert(name_char_allowed(s[i]));
    }
}

/// Merging an empty layer changes nothing, on either side.
pub proof fn lemma_merge_identity(a: LayerView)
    requires
        a.palette.len() == 16,
    ensures
        merged(a, empty_layer()) == a,
        merged(empty_layer(), a) == a,
{
    assert(merged(a, empty_layer()).palette =~= a.palette);
    assert(merged(empty_layer(), a).palette =~= a.palette);
}

/// Merging is associative: layering `b` then `c` onto `a` is layering the
/// combination of `b` and `c`.
pub proof fn lemma_merge_associative(a: LayerView, b: LayerView, c: LayerView)
    ensures
        merged(merged(a, b), c) == merged(a, merged(b, c)),
{
    assert(merged(merged(a, b), c).palette =~= merged(a, merged(b, c)).palette);
}

/// Merging a layer onto itself changes nothing.
pub proof fn lemma_merge_idempotent(a: LayerView)
    requires
        a.palette.len() == 16,
    ensures
        merged(a, a) == a,
{
    assert(merged(a, a).palette =~= a.palette);
}

/// Whatever the later layer sets wins; what it leaves unset keeps the
/// earlier value.
pub proof fn lemma_merge_later_wins(a: LayerView, b: LayerView, i: int)
    requires
        0 <= i < 16,
    ensures
        b.fg is Some ==> merged(a, b).fg == b.fg,
        b.fg is None ==> merged(a, b).fg == a.fg,
        b.palette[i] is Some ==> merged(a, b).palette[i] == b.palette[i],
        b.palette[i] is None ==> merged(a, b).palette[i] == a.palette[i],
{
}

} // verus!
