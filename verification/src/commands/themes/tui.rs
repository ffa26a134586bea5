//! The state and decisions of the interactive picker behind `colorant
//! themes`.
//!
//! The picker lists themes from every source (installed under
//! `base_theme_dir`, bundled, and Gogh once its catalog is synced) with a
//! live preview. The user assigns themes to the `both` / `dark` / `light`
//! slots; on apply the working directory's `.colorantrc` gets the matching
//! `extends*` keys, and themes not yet on disk are installed.
//!
//! Drawing, reading keys, background fetches and file writes are the
//! binary's part. This module is the picker's state: which rows are
//! visible, where the cursor is, what each key does, which palettes must
//! be fetched, and what an apply has to install.

use crate::commands::picks::{effective_of, Picks};
use crate::text::{
    chars_of, contains_chars, contains_seq, push_str, string_of, to_lowercase, unicode_lower,
};
use crate::theme::model::{color_rgb, HexColor, LayerView, ThemeLayer, ThemeName};
use crate::theme::source::{source_name, Source};
use crate::theme::bundled::{bundled_themes, catalog, lookup, pairs_view};
use crate::theme::model::{is_valid_name, name_check, name_result};
use crate::theme::parse::{palette_parse, parse_palette_str};
use crate::text::{
    decimal, lemma_seq_less_total, lemma_seq_less_trans, less_chars, eq_chars, push_decimal,
    seq_less, strictly_sorted,
};
use vstd::prelude::*;

verus! {

/// A theme's color data within the session.
///
/// Bundled and installed entries start `Loaded`. Gogh entries start
/// `Pending`, become `Fetching` while a background fetch runs, then
/// `Loaded` or `Failed` (with the error text).
pub enum PaletteState {
    Loaded(ThemeLayer),
    Pending,
    Fetching,
    Failed(String),
}

pub enum PaletteView {
    Loaded(LayerView),
    Pending,
    Fetching,
    Failed(Seq<char>),
}

impl View for PaletteState {
    type V = PaletteView;

    open spec fn view(&self) -> PaletteView {
        match self {
            PaletteState::Loaded(l) => PaletteView::Loaded(l@),
            PaletteState::Pending => PaletteView::Pending,
            PaletteState::Fetching => PaletteView::Fetching,
            PaletteState::Failed(m) => PaletteView::Failed(m@),
        }
    }
}

/// One row of the theme list. `origin` is the catalog the theme is known
/// from; `None` for installed palettes of unknown origin.
pub struct ThemeEntry {
    pub name: ThemeName,
    pub origin: Option<Source>,
    pub palette: PaletteState,
    pub installed: bool,
}

pub struct EntryView {
    pub name: Seq<char>,
    pub origin: Option<Source>,
    pub palette: PaletteView,
    pub installed: bool,
}

impl View for ThemeEntry {
    type V = EntryView;

    open spec fn view(&self) -> EntryView {
        EntryView {
            name: self.name@,
            origin: self.origin,
            palette: self.palette@,
            installed: self.installed,
        }
    }
}

pub open spec fn entries_view(v: Seq<ThemeEntry>) -> Seq<EntryView> {
    Seq::new(v.len(), |i: int| v[i]@)
}

/// The source filter's stops.
#[derive(Debug, Clone, Copy, PartialEq, Eq, Structural)]
pub enum SourceFilter {
    All,
    Source(Source),
}

/// A finished background fetch, matched to its entry by name.
pub struct FetchResult {
    pub name: ThemeName,
    pub outcome: Result<ThemeLayer, String>,
}

/// The picker's state.
pub struct App {
    pub themes: Vec<ThemeEntry>,
    /// Indices into `themes` of the rows shown, after the source and text
    /// filters. The cursor indexes into this list.
    pub visible: Vec<usize>,
    /// The cursor: a position in `visible`, if any.
    pub selected: Option<usize>,
    pub picks: Picks,
    pub source_filter: SourceFilter,
    /// Case-insensitive substring filter on names; empty for none.
    pub filter: String,
    /// Whether keys go to the filter input (`/` mode).
    pub editing_filter: bool,
    pub rc_path: String,
    pub themes_dir: String,
    /// The rc written by apply, for the summary after the picker exits.
    pub applied: Option<String>,
}

/// Abstract form of the picker's state.
#[verifier::ext_equal]
pub struct AppView {
    pub themes: Seq<EntryView>,
    pub visible: Seq<usize>,
    pub selected: Option<usize>,
    pub picks: Picks,
    pub source_filter: SourceFilter,
    pub filter: Seq<char>,
    pub editing_filter: bool,
    pub rc_path: Seq<char>,
    pub themes_dir: Seq<char>,
    pub applied: Option<Seq<char>>,
}

impl View for App {
    type V = AppView;

    open spec fn view(&self) -> AppView {
        AppView {
            themes: entries_view(self.themes@),
            visible: self.visible@,
            selected: self.selected,
            picks: self.picks,
            source_filter: self.source_filter,
            filter: self.filter@,
            editing_filter: self.editing_filter,
            rc_path: self.rc_path@,
            themes_dir: self.themes_dir@,
            applied: match self.applied {
                Some(p) => Some(p@),
                None => None,
            },
        }
    }
}

/// The cursor points at a shown row, and every shown row at a theme.
pub open spec fn app_wf(a: AppView) -> bool {
    &&& forall|k: int| 0 <= k < a.visible.len() ==> #[trigger] a.visible[k] < a.themes.len()
    &&& (a.selected matches Some(v) ==> v < a.visible.len())
}

/// Which slot a key assigns the selected theme to.
#[derive(Debug, Clone, Copy, PartialEq, Eq, Structural)]
pub enum Slot {
    Both,
    Dark,
    Light,
}

// ---------------------------------------------------------------------
// Specifications
// ---------------------------------------------------------------------

/// The theme index under the cursor.
pub open spec fn selected_idx(visible: Seq<usize>, selected: Option<usize>) -> Option<usize> {
    match selected {
        Some(v) => if v < visible.len() {
            Some(visible[v as int])
        } else {
            None
        },
        None => None,
    }
}

/// Whether a row passes the source filter and the (lowercased) text
/// filter.
pub open spec fn row_shown(e: EntryView, filter: SourceFilter, needle: Seq<char>) -> bool {
    &&& (filter matches SourceFilter::Source(s) ==> e.origin == Some(s))
    &&& (needle.len() == 0 || contains_seq(unicode_lower(e.name), needle))
}

/// The indices among the first `n` themes that are shown, in order.
pub open spec fn shown_upto(themes: Seq<EntryView>, filter: SourceFilter, needle: Seq<char>, n: nat) -> Seq<
    usize,
>
    decreases n,
{
    if n == 0 {
        Seq::empty()
    } else {
        let i = (n - 1) as nat;
        let prev = shown_upto(themes, filter, needle, i);
        if row_shown(themes[i as int], filter, needle) {
            prev.push(i as usize)
        } else {
            prev
        }
    }
}

pub proof fn lemma_shown_bound(themes: Seq<EntryView>, filter: SourceFilter, needle: Seq<char>, n: nat)
    requires
        n <= usize::MAX,
    ensures
        forall|k: int|
            0 <= k < shown_upto(themes, filter, needle, n).len() ==> #[trigger] shown_upto(
                themes,
                filter,
                needle,
                n,
            )[k] < n,
    decreases n,
{
    if n > 0 {
        let i = (n - 1) as nat;
        lemma_shown_bound(themes, filter, needle, i);
        assert((i as usize) as int == i);
        let prev = shown_upto(themes, filter, needle, i);
        let cur = shown_upto(themes, filter, needle, n);
        assert forall|k: int| 0 <= k < cur.len() implies #[trigger] cur[k] < n by {
            if k < prev.len() {
                assert(cur[k] == prev[k]);
            }
        }
    }
}

pub open spec fn shown(themes: Seq<EntryView>, filter: SourceFilter, needle: Seq<char>) -> Seq<usize> {
    shown_upto(themes, filter, needle, themes.len())
}

/// Position of `x` in `v`.
pub open spec fn position_in(v: Seq<usize>, x: usize) -> Option<int>
    decreases v.len(),
{
    if v.len() == 0 {
        None
    } else if v[0] == x {
        Some(0)
    } else {
        match position_in(v.drop_first(), x) {
            Some(k) => Some(k + 1),
            None => None,
        }
    }
}

pub proof fn lemma_position_in(v: Seq<usize>, x: usize)
    ensures
        position_in(v, x) matches Some(k) ==> 0 <= k < v.len() && v[k] == x,
    decreases v.len(),
{
    if v.len() > 0 && v[0] != x {
        lemma_position_in(v.drop_first(), x);
    }
}

/// Where the cursor lands after the visible rows change: on the same
/// theme when it is still shown, else on the first row, else nowhere.
pub open spec fn cursor_after(visible: Seq<usize>, prior: Option<usize>) -> Option<usize> {
    match prior {
        Some(t) if position_in(visible, t) is Some => Some(position_in(visible, t)->0 as usize),
        _ => if visible.len() == 0 {
            None
        } else {
            Some(0)
        },
    }
}

/// The next stop of the source filter: all, bundled, Gogh, all.
pub open spec fn next_filter(f: SourceFilter) -> SourceFilter {
    match f {
        SourceFilter::All => SourceFilter::Source(Source::Bundled),
        SourceFilter::Source(Source::Bundled) => SourceFilter::Source(Source::Gogh),
        SourceFilter::Source(Source::Gogh) => SourceFilter::All,
    }
}

/// `recompute_visible`'s effect.
pub open spec fn recomputed(a: AppView) -> AppView {
    let visible = shown(a.themes, a.source_filter, unicode_lower(a.filter));
    AppView { visible, selected: cursor_after(visible, selected_idx(a.visible, a.selected)), ..a }
}

/// `cycle_source_filter`'s effect.
pub open spec fn cycled(a: AppView) -> AppView {
    recomputed(AppView { source_filter: next_filter(a.source_filter), ..a })
}

/// `move_cursor`'s effect.
pub open spec fn moved(a: AppView, delta: int) -> AppView {
    if a.visible.len() == 0 {
        a
    } else {
        let cur = match a.selected {
            Some(v) => v as int,
            None => 0,
        };
        AppView { selected: Some(((cur + delta) % (a.visible.len() as int)) as usize), ..a }
    }
}

/// `assign_selected_to`'s effect.
pub open spec fn assigned(a: AppView, slot: Slot) -> AppView {
    match selected_idx(a.visible, a.selected) {
        Some(i) => AppView {
            picks: match slot {
                Slot::Both => crate::commands::picks::after_toggle_both(a.picks, i),
                Slot::Dark => crate::commands::picks::after_toggle_dark(a.picks, i),
                Slot::Light => crate::commands::picks::after_toggle_light(a.picks, i),
            },
            ..a
        },
        None => a,
    }
}

impl App {
    /// The row under the cursor.
    pub fn selected(&self) -> (r: Option<&ThemeEntry>)
        ensures
            match selected_idx(self.visible@, self.selected) {
                Some(i) => if i < self.themes@.len() {
                    r matches Some(e) && e == &self.themes@[i as int]
                } else {
                    r is None
                },
                None => r is None,
            },
    {
        let i = self.selected_theme_idx()?;
        if i < self.themes.len() {
            Some(&self.themes[i])
        } else {
            None
        }
    }

    /// The index into `themes` of the row under the cursor.
    pub fn selected_theme_idx(&self) -> (r: Option<usize>)
        ensures
            r == selected_idx(self.visible@, self.selected),
    {
        match self.selected {
            Some(v) => if v < self.visible.len() {
                Some(self.visible[v])
            } else {
                None
            },
            None => None,
        }
    }

    /// Assign the theme under the cursor to `slot` (toggling).
    pub fn assign_selected_to(&mut self, slot: Slot)
        ensures
            final(self)@ == assigned(old(self)@, slot),
    {
        if let Some(i) = self.selected_theme_idx() {
            match slot {
                Slot::Both => self.picks.toggle_both(i),
                Slot::Dark => self.picks.toggle_dark(i),
                Slot::Light => self.picks.toggle_light(i),
            }
        }
    }

    /// Move the cursor by `delta` rows, wrapping around the visible list.
    /// From no cursor, the move starts at the first row.
    pub fn move_cursor(&mut self, delta: isize)
        ensures
            final(self)@ == moved(old(self)@, delta as int),
    {
        let len = self.visible.len();
        if len == 0 {
            return;
        }
        let cur: usize = match self.selected {
            Some(v) => v,
            None => 0,
        };
        let c = (cur % len) as u128;
        let n = len as u128;
        let d: u128 = if delta >= 0 {
            (delta as u128) % n
        } else {
            let m = ((0i128 - (delta as i128)) as u128) % n;
            if m == 0 {
                0
            } else {
                n - m
            }
        };
        let next = ((c + d) % n) as usize;
        proof {
            let ci = cur as int;
            let di = delta as int;
            let ni = len as int;
            if di < 0 {
                lemma_neg_mod(di, ni);
            }
            assert(d as int == di % ni);
            vstd::arithmetic::div_mod::lemma_add_mod_noop(ci, di, ni);
        }
        self.selected = Some(next);
    }

    /// The names shown for each slot in the status line (`–` when empty).
    pub fn picks_summary(&self) -> (r: Vec<String>)
        ensures
            r@.len() == 3,
            r@[0]@ == "both = "@ + summary_name(entries_view(self.themes@), self.picks.both),
            r@[1]@ == "dark = "@ + summary_name(entries_view(self.themes@), self.picks.dark),
            r@[2]@ == "light = "@ + summary_name(entries_view(self.themes@), self.picks.light),
    {
        let mut r: Vec<String> = Vec::new();
        r.push(self.summary_line("both = ", self.picks.both));
        r.push(self.summary_line("dark = ", self.picks.dark));
        r.push(self.summary_line("light = ", self.picks.light));
        r
    }

    fn summary_line(&self, prefix: &str, slot: Option<usize>) -> (r: String)
        ensures
            r@ == prefix@ + summary_name(entries_view(self.themes@), slot),
    {
        let mut out = chars_of(prefix);
        let mut named = false;
        if let Some(i) = slot {
            if i < self.themes.len() {
                assert(entries_view(self.themes@)[i as int] == self.themes@[i as int]@);
                push_str(&mut out, self.themes[i].name.as_str());
                named = true;
            }
        }
        if !named {
            push_str(&mut out, "–");
        }
        string_of(&out)
    }

    /// The `extends*` lines an apply would write, for the status pane.
    pub fn pending_rc_block(&self) -> (r: Vec<String>)
        ensures
            views(r@) == pending_lines(entries_view(self.themes@), self.picks),
    {
        let (both, dark, light) = self.picks.effective();
        let mut lines: Vec<String> = Vec::new();
        self.push_extends(&mut lines, "extends = ", both);
        self.push_extends(&mut lines, "extends.dark = ", dark);
        self.push_extends(&mut lines, "extends.light = ", light);
        lines
    }

    fn push_extends(&self, lines: &mut Vec<String>, prefix: &str, slot: Option<usize>)
        ensures
            views(final(lines)@) == views(old(lines)@) + extends_line(
                entries_view(self.themes@),
                prefix@,
                slot,
            ),
    {
        assert(entries_view(self.themes@).len() == self.themes@.len());
        if let Some(i) = slot {
            if i < self.themes.len() {
                assert(entries_view(self.themes@)[i as int] == self.themes@[i as int]@);
                let mut out = chars_of(prefix);
                push_str(&mut out, self.themes[i].name.as_str());
                let ghost before = lines@;
                lines.push(string_of(&out));
                assert(views(lines@) =~= views(before) + seq![prefix@ + self.themes@[i as int].name@]);
                return;
            }
        }
        assert(views(lines@) =~= views(lines@) + Seq::<Seq<char>>::empty());
    }

    /// Rebuild `visible` from the source and text filters. The cursor stays
    /// on the same theme when it survives the filters; otherwise it moves
    /// to the first row, or nowhere when no row is left.
    pub fn recompute_visible(&mut self)
        ensures
            final(self)@ == recomputed(old(self)@),
            app_wf(final(self)@),
    {
        let prior = self.selected_theme_idx();
        let needle = chars_of(to_lowercase(self.filter.as_str()).as_str());
        let ghost tv = entries_view(self.themes@);
        let mut visible: Vec<usize> = Vec::new();
        let mut i: usize = 0;
        while i < self.themes.len()
            invariant
                i <= self.themes@.len(),
                tv == entries_view(self.themes@),
                needle@ == unicode_lower(self.filter@),
                visible@ == shown_upto(tv, self.source_filter, needle@, i as nat),
            decreases self.themes@.len() - i,
        {
            let t = &self.themes[i];
            let mut keep = match self.source_filter {
                SourceFilter::All => true,
                SourceFilter::Source(src) => t.origin == Some(src),
            };
            if keep && needle.len() > 0 {
                let lname = to_lowercase(t.name.as_str());
                keep = contains_chars(&chars_of(lname.as_str()), &needle);
            }
            assert(tv[i as int] == t@);
            if keep {
                visible.push(i);
            }
            i = i + 1;
        }
        self.visible = visible;
        proof {
            lemma_shown_bound(tv, self.source_filter, needle@, tv.len());
            if let Some(t) = prior {
                lemma_position_in(self.visible@, t);
            }
        }
        let new_pos = match prior {
            Some(t) => match position(&self.visible, t) {
                Some(p) => Some(p),
                None => if self.visible.len() == 0 {
                    None
                } else {
                    Some(0)
                },
            },
            None => if self.visible.len() == 0 {
                None
            } else {
                Some(0)
            },
        };
        self.selected = new_pos;
    }

    /// Cycle the source filter (all → bundled → Gogh → all) and refilter.
    pub fn cycle_source_filter(&mut self)
        ensures
            final(self)@ == cycled(old(self)@),
            app_wf(final(self)@),
    {
        self.source_filter = match self.source_filter {
            SourceFilter::All => SourceFilter::Source(Source::Bundled),
            SourceFilter::Source(Source::Bundled) => SourceFilter::Source(Source::Gogh),
            SourceFilter::Source(Source::Gogh) => SourceFilter::All,
        };
        self.recompute_visible();
    }
}

pub open spec fn views(v: Seq<String>) -> Seq<Seq<char>> {
    Seq::new(v.len(), |i: int| v[i]@)
}

/// The name shown for a slot: the theme's, or `–`.
pub open spec fn summary_name(themes: Seq<EntryView>, slot: Option<usize>) -> Seq<char> {
    match slot {
        Some(i) if i < themes.len() => themes[i as int].name,
        _ => "–"@,
    }
}

pub open spec fn extends_line(themes: Seq<EntryView>, prefix: Seq<char>, slot: Option<usize>) -> Seq<
    Seq<char>,
> {
    match slot {
        Some(i) if i < themes.len() => seq![prefix + themes[i as int].name],
        _ => Seq::empty(),
    }
}

/// The `extends*` lines for the effective picks.
pub open spec fn pending_lines(themes: Seq<EntryView>, p: Picks) -> Seq<Seq<char>> {
    let e = effective_of(p);
    extends_line(themes, "extends = "@, e.0) + extends_line(themes, "extends.dark = "@, e.1)
        + extends_line(themes, "extends.light = "@, e.2)
}

proof fn lemma_neg_mod(delta: int, n: int)
    requires
        delta < 0,
        n > 0,
    ensures
        (-delta) % n == 0 ==> delta % n == 0,
        (-delta) % n != 0 ==> delta % n == n - (-delta) % n,
{
    let a = -delta;
    let q = a / n;
    let m = a % n;
    vstd::arithmetic::div_mod::lemma_fundamental_div_mod(a, n);
    assert(0 <= m < n);
    if m == 0 {
        assert(delta == (-q) * n + 0) by (nonlinear_arith)
            requires
                a == n * q + m,
                m == 0,
                delta == -a,
        ;
        vstd::arithmetic::div_mod::lemma_fundamental_div_mod_converse(delta, n, -q, 0);
    } else {
        assert(delta == (-q - 1) * n + (n - m)) by (nonlinear_arith)
            requires
                a == n * q + m,
                delta == -a,
        ;
        vstd::arithmetic::div_mod::lemma_fundamental_div_mod_converse(delta, n, -q - 1, n - m);
    }
}

fn position(v: &Vec<usize>, x: usize) -> (r: Option<usize>)
    ensures
        match position_in(v@, x) {
            Some(k) => r == Some(k as usize),
            None => r is None,
        },
{
    let mut i: usize = 0;
    assert(v@.skip(0) =~= v@);
    while i < v.len()
        invariant
            i <= v@.len(),
            position_in(v@, x) == match position_in(v@.skip(i as int), x) {
                Some(k) => Some(k + i),
                None => None,
            },
            forall|j: int| 0 <= j < i ==> v@[j] != x,
        decreases v@.len() - i,
    {
        assert(v@.skip(i as int)[0] == v@[i as int]);
        if v[i] == x {
            return Some(i);
        }
        assert(v@.skip(i as int).drop_first() =~= v@.skip(i + 1));
        i = i + 1;
    }
    None
}


// ---------------------------------------------------------------------
// Background fetches
// ---------------------------------------------------------------------

/// `ensure_loaded_selected`'s effect: a Gogh entry under the cursor whose
/// palette was never fetched becomes `Fetching`, and its name is the fetch
/// to start.
pub open spec fn load_request(a: AppView) -> (AppView, Option<Seq<char>>) {
    match selected_idx(a.visible, a.selected) {
        Some(i) => if i < a.themes.len() && a.themes[i as int].palette is Pending
            && a.themes[i as int].origin == Some(Source::Gogh) {
            (
                AppView {
                    themes: a.themes.update(
                        i as int,
                        EntryView { palette: PaletteView::Fetching, ..a.themes[i as int] },
                    ),
                    ..a
                },
                Some(a.themes[i as int].name),
            )
        } else {
            (a, None)
        },
        None => (a, None),
    }
}

pub open spec fn opt_name_view(o: Option<ThemeName>) -> Option<Seq<char>> {
    match o {
        Some(n) => Some(n@),
        None => None,
    }
}

proof fn lemma_entries_update(v: Seq<ThemeEntry>, i: int, e: ThemeEntry)
    requires
        0 <= i < v.len(),
    ensures
        entries_view(v.update(i, e)) == entries_view(v).update(i, e@),
{
    assert(entries_view(v.update(i, e)) =~= entries_view(v).update(i, e@));
}

/// Make sure the theme under the cursor has its palette: a Gogh entry
/// still `Pending` becomes `Fetching`, and its name is returned so the
/// caller starts the fetch in the background and reports back through
/// `apply_fetch_result`. A `Failed` entry is not fetched again; the user
/// can move on, or reopen the picker to retry.
pub fn ensure_loaded_selected(app: &mut App) -> (r: Option<ThemeName>)
    requires
        app_wf(old(app)@),
    ensures
        (final(app)@, opt_name_view(r)) == load_request(old(app)@),
        app_wf(final(app)@),
{
    let idx = match app.selected_theme_idx() {
        Some(i) => i,
        None => return None,
    };
    assert(idx < app.themes@.len());
    assert(entries_view(app.themes@)[idx as int] == app.themes@[idx as int]@);
    let pending = match &app.themes[idx].palette {
        PaletteState::Pending => true,
        _ => false,
    };
    if !pending || app.themes[idx].origin != Some(Source::Gogh) {
        return None;
    }
    let name = app.themes[idx].name.clone();
    let ghost before = app.themes@;
    app.themes[idx].palette = PaletteState::Fetching;
    proof {
        lemma_entries_update(before, idx as int, app.themes@[idx as int]);
        assert(app.themes@ == before.update(idx as int, app.themes@[idx as int]));
    }
    assert(app@ =~= load_request(old(app)@).0);
    Some(name)
}

/// The first entry called `name`.
pub open spec fn first_named(themes: Seq<EntryView>, name: Seq<char>) -> Option<int>
    decreases themes.len(),
{
    if themes.len() == 0 {
        None
    } else if themes[0].name == name {
        Some(0)
    } else {
        match first_named(themes.drop_first(), name) {
            Some(k) => Some(k + 1),
            None => None,
        }
    }
}

pub proof fn lemma_first_named(themes: Seq<EntryView>, name: Seq<char>)
    ensures
        first_named(themes, name) matches Some(k) ==> 0 <= k < themes.len() && themes[k].name == name,
    decreases themes.len(),
{
    if themes.len() > 0 && themes[0].name != name {
        lemma_first_named(themes.drop_first(), name);
    }
}

/// `apply_fetch_result`'s effect: the entry of that name becomes `Loaded`
/// or `Failed`.
pub open spec fn fetched(a: AppView, name: Seq<char>, outcome: Result<LayerView, Seq<char>>) -> AppView {
    match first_named(a.themes, name) {
        Some(i) => AppView {
            themes: a.themes.update(
                i,
                EntryView {
                    palette: match outcome {
                        Ok(l) => PaletteView::Loaded(l),
                        Err(m) => PaletteView::Failed(m),
                    },
                    ..a.themes[i]
                },
            ),
            ..a
        },
        None => a,
    }
}

/// Record a finished background fetch on its entry (matched by name;
/// names are unique in the list).
pub fn apply_fetch_result(app: &mut App, result: FetchResult)
    ensures
        final(app)@ == fetched(
            old(app)@,
            result.name@,
            match result.outcome {
                Ok(l) => Ok(l@),
                Err(m) => Err(m@),
            },
        ),
{
    let ghost tv = entries_view(app.themes@);
    let mut i: usize = 0;
    assert(tv.skip(0) =~= tv);
    while i < app.themes.len()
        invariant
            i <= app.themes@.len(),
            tv == entries_view(app.themes@),
            app@ == old(app)@,
            first_named(tv, result.name@) == match first_named(tv.skip(i as int), result.name@) {
                Some(k) => Some(k + i),
                None => None,
            },
        decreases app.themes@.len() - i,
    {
        assert(tv.skip(i as int)[0] == app.themes@[i as int]@);
        if app.themes[i].name.same_as(&result.name) {
            let ghost before = app.themes@;
            let FetchResult { name: _, outcome } = result;
            let state = match outcome {
                Ok(layer) => PaletteState::Loaded(layer),
                Err(msg) => PaletteState::Failed(msg),
            };
            app.themes[i].palette = state;
            proof {
                lemma_entries_update(before, i as int, app.themes@[i as int]);
                assert(app.themes@ == before.update(i as int, app.themes@[i as int]));
            }
            assert(app@ =~= fetched(
                old(app)@,
                result.name@,
                match result.outcome {
                    Ok(l) => Ok(l@),
                    Err(m) => Err(m@),
                },
            ));
            return;
        }
        assert(tv.skip(i as int).drop_first() =~= tv.skip(i + 1));
        i = i + 1;
    }
}

// ---------------------------------------------------------------------
// Keys
// ---------------------------------------------------------------------

/// The keys the picker distinguishes.
#[derive(Debug, Clone, Copy, PartialEq, Eq, Structural)]
pub enum KeyCode {
    Char(char),
    Esc,
    Enter,
    Backspace,
    Up,
    Down,
    Home,
    End,
    Other,
}

/// A key press: the key, and whether Ctrl was held.
#[derive(Debug, Clone, Copy, PartialEq, Eq, Structural)]
pub struct KeyPress {
    pub code: KeyCode,
    pub ctrl: bool,
}

/// What the event loop does after a key.
pub enum KeyOutcome {
    /// Keep going; start a background fetch of this theme if named.
    Continue(Option<ThemeName>),
    /// Leave without writing anything.
    Quit,
    /// Apply the picks, then leave.
    Apply,
}

pub enum OutcomeView {
    Continue(Option<Seq<char>>),
    Quit,
    Apply,
}

pub open spec fn outcome_view(o: KeyOutcome) -> OutcomeView {
    match o {
        KeyOutcome::Continue(n) => OutcomeView::Continue(opt_name_view(n)),
        KeyOutcome::Quit => OutcomeView::Quit,
        KeyOutcome::Apply => OutcomeView::Apply,
    }
}

/// The filter text after a key in filter mode.
pub open spec fn filter_text_after(f: Seq<char>, code: KeyCode, ctrl: bool) -> Seq<char> {
    match code {
        KeyCode::Backspace => if f.len() > 0 {
            f.drop_last()
        } else {
            f
        },
        KeyCode::Char(c) => if c == 'u' && ctrl {
            Seq::empty()
        } else {
            f.push(c)
        },
        _ => f,
    }
}

/// `handle_filter_key`'s effect. Typing appends to the filter and
/// Backspace removes a character (refiltering each time); Enter commits
/// and Esc leaves the input too, both keeping the filter (the vim/fzf
/// convention); Ctrl-U clears the filter.
pub open spec fn filter_keyed(a: AppView, code: KeyCode, ctrl: bool) -> (AppView, Option<Seq<char>>) {
    match code {
        KeyCode::Esc | KeyCode::Enter => load_request(AppView { editing_filter: false, ..a }),
        KeyCode::Backspace | KeyCode::Char(_) => load_request(
            recomputed(AppView { filter: filter_text_after(a.filter, code, ctrl), ..a }),
        ),
        _ => (a, None),
    }
}

fn set_filter(app: &mut App, chars: &Vec<char>)
    ensures
        final(app)@ == (AppView { filter: chars@, ..old(app)@ }),
{
    app.filter = string_of(chars);
}

/// Route a key while the `/` filter input is active.
pub fn handle_filter_key(app: &mut App, code: KeyCode, ctrl: bool) -> (r: Option<ThemeName>)
    requires
        app_wf(old(app)@),
    ensures
        (final(app)@, opt_name_view(r)) == filter_keyed(old(app)@, code, ctrl),
        app_wf(final(app)@),
{
    match code {
        KeyCode::Esc | KeyCode::Enter => {
            app.editing_filter = false;
            ensure_loaded_selected(app)
        },
        KeyCode::Backspace | KeyCode::Char(_) => {
            let mut f = chars_of(app.filter.as_str());
            match code {
                KeyCode::Backspace => {
                    if f.len() > 0 {
                        f.pop();
                    }
                },
                KeyCode::Char(c) => {
                    if c == 'u' && ctrl {
                        f = Vec::new();
                    } else {
                        f.push(c);
                    }
                },
                _ => {},
            }
            assert(f@ =~= filter_text_after(old(app)@.filter, code, ctrl));
            set_filter(app, &f);
            app.recompute_visible();
            ensure_loaded_selected(app)
        },
        _ => None,
    }
}

pub open spec fn continuing(p: (AppView, Option<Seq<char>>)) -> (AppView, OutcomeView) {
    (p.0, OutcomeView::Continue(p.1))
}

/// One key of the event loop: what it does to the state and what the
/// loop does next. In filter mode keys go to the filter input. Otherwise:
/// `q`/Esc quits; `j`/`k` and the arrows move (wrapping), `g`/`G` and
/// Home/End jump to the ends; `b`/`d`/`l` toggle the theme under the
/// cursor in the both/dark/light slot and `c` clears the picks; `s`
/// cycles the source filter; `/` starts the filter input; Enter applies.
/// Moving fetches the newly selected Gogh palette when it is missing.
pub open spec fn keyed(a: AppView, key: KeyPress) -> (AppView, OutcomeView) {
    if a.editing_filter {
        let (b, f) = filter_keyed(a, key.code, key.ctrl);
        (b, OutcomeView::Continue(f))
    } else {
        let n = a.visible.len();
        match key.code {
            KeyCode::Char('q') | KeyCode::Esc => (a, OutcomeView::Quit),
            KeyCode::Char('j') | KeyCode::Down => continuing(load_request(moved(a, 1))),
            KeyCode::Char('k') | KeyCode::Up => continuing(load_request(moved(a, -1))),
            KeyCode::Char('g') if n > 0 => continuing(load_request(AppView { selected: Some(0), ..a })),
            KeyCode::Home if n > 0 => continuing(load_request(AppView { selected: Some(0), ..a })),
            KeyCode::Char('G') if n > 0 => continuing(
                load_request(AppView { selected: Some((n - 1) as usize), ..a }),
            ),
            KeyCode::End if n > 0 => continuing(
                load_request(AppView { selected: Some((n - 1) as usize), ..a }),
            ),
            KeyCode::Char('b') => (assigned(a, Slot::Both), OutcomeView::Continue(None)),
            KeyCode::Char('d') => (assigned(a, Slot::Dark), OutcomeView::Continue(None)),
            KeyCode::Char('l') => (assigned(a, Slot::Light), OutcomeView::Continue(None)),
            KeyCode::Char('c') => (
                AppView { picks: Picks { both: None, dark: None, light: None }, ..a },
                OutcomeView::Continue(None),
            ),
            KeyCode::Char('s') => continuing(load_request(cycled(a))),
            KeyCode::Char('/') => (AppView { editing_filter: true, ..a }, OutcomeView::Continue(None)),
            KeyCode::Enter => (a, OutcomeView::Apply),
            _ => (a, OutcomeView::Continue(None)),
        }
    }
}

/// Handle one key press of the event loop (see `keyed`).
pub fn handle_key(app: &mut App, key: KeyPress) -> (r: KeyOutcome)
    requires
        app_wf(old(app)@),
    ensures
        (final(app)@, outcome_view(r)) == keyed(old(app)@, key),
        app_wf(final(app)@),
{
    if app.editing_filter {
        return KeyOutcome::Continue(handle_filter_key(app, key.code, key.ctrl));
    }
    let n = app.visible.len();
    match key.code {
        KeyCode::Char('q') | KeyCode::Esc => KeyOutcome::Quit,
        KeyCode::Char('j') | KeyCode::Down => {
            app.move_cursor(1);
            KeyOutcome::Continue(ensure_loaded_selected(app))
        },
        KeyCode::Char('k') | KeyCode::Up => {
            app.move_cursor(-1);
            KeyOutcome::Continue(ensure_loaded_selected(app))
        },
        KeyCode::Char('g') | KeyCode::Home => {
            if n > 0 {
                app.selected = Some(0);
                KeyOutcome::Continue(ensure_loaded_selected(app))
            } else {
                KeyOutcome::Continue(None)
            }
        },
        KeyCode::Char('G') | KeyCode::End => {
            if n > 0 {
                app.selected = Some(n - 1);
                KeyOutcome::Continue(ensure_loaded_selected(app))
            } else {
                KeyOutcome::Continue(None)
            }
        },
        KeyCode::Char('b') => {
            app.assign_selected_to(Slot::Both);
            KeyOutcome::Continue(None)
        },
        KeyCode::Char('d') => {
            app.assign_selected_to(Slot::Dark);
            KeyOutcome::Continue(None)
        },
        KeyCode::Char('l') => {
            app.assign_selected_to(Slot::Light);
            KeyOutcome::Continue(None)
        },
        KeyCode::Char('c') => {
            app.picks.clear();
            KeyOutcome::Continue(None)
        },
        KeyCode::Char('s') => {
            app.cycle_source_filter();
            KeyOutcome::Continue(ensure_loaded_selected(app))
        },
        KeyCode::Char('/') => {
            app.editing_filter = true;
            KeyOutcome::Continue(None)
        },
        KeyCode::Enter => KeyOutcome::Apply,
        _ => KeyOutcome::Continue(None),
    }
}


// ---------------------------------------------------------------------
// Apply
// ---------------------------------------------------------------------

/// The theme at index `i`, when there is one.
pub open spec fn entry_at(themes: Seq<EntryView>, i: Option<usize>) -> Option<EntryView> {
    match i {
        Some(k) => if k < themes.len() {
            Some(themes[k as int])
        } else {
            None
        },
        None => None,
    }
}

/// Applying this theme fetches over the network: an uninstalled Gogh
/// theme whose palette isn't loaded yet.
pub open spec fn needs_fetch(e: Option<EntryView>) -> bool {
    e matches Some(t) && !t.installed && t.origin == Some(Source::Gogh) && !(t.palette is Loaded)
}

fn entry_needs_fetch(app: &App, i: Option<usize>) -> (r: bool)
    ensures
        r == needs_fetch(entry_at(entries_view(app.themes@), i)),
{
    match i {
        Some(k) => if k < app.themes.len() {
            assert(entries_view(app.themes@)[k as int] == app.themes@[k as int]@);
            let t = &app.themes[k];
            let loaded = match &t.palette {
                PaletteState::Loaded(_) => true,
                _ => false,
            };
            !t.installed && t.origin == Some(Source::Gogh) && !loaded
        } else {
            false
        },
        None => false,
    }
}

/// Whether applying would fetch synchronously (some picked Gogh theme is
/// neither installed nor loaded), so the caller can show an "Applying…"
/// overlay first instead of looking frozen.
pub fn apply_needs_feedback(app: &App) -> (r: bool)
    ensures
        r == ({
            let e = effective_of(app.picks);
            let t = entries_view(app.themes@);
            needs_fetch(entry_at(t, e.0)) || needs_fetch(entry_at(t, e.1)) || needs_fetch(
                entry_at(t, e.2),
            )
        }),
{
    let (b, d, l) = app.picks.effective();
    entry_needs_fetch(app, b) || entry_needs_fetch(app, d) || entry_needs_fetch(app, l)
}

/// What an apply does for one picked theme, in slot order.
pub enum ApplyStep {
    /// Already installed.
    Installed,
    /// Install the bundled palette of this name.
    Bundled(ThemeName),
    /// Write this already-loaded Gogh palette.
    Gogh(ThemeName, ThemeLayer),
    /// Fetch this Gogh theme first (it was never previewed), then write it.
    FetchGogh(ThemeName),
    /// Fail: the theme is neither installed nor from a known source.
    NoOrigin(ThemeName),
}

pub enum StepView {
    Installed,
    Bundled(Seq<char>),
    Gogh(Seq<char>, LayerView),
    FetchGogh(Seq<char>),
    NoOrigin(Seq<char>),
}

pub open spec fn step_view(s: ApplyStep) -> StepView {
    match s {
        ApplyStep::Installed => StepView::Installed,
        ApplyStep::Bundled(n) => StepView::Bundled(n@),
        ApplyStep::Gogh(n, l) => StepView::Gogh(n@, l@),
        ApplyStep::FetchGogh(n) => StepView::FetchGogh(n@),
        ApplyStep::NoOrigin(n) => StepView::NoOrigin(n@),
    }
}

/// The step for one theme.
pub open spec fn step_for(e: EntryView) -> StepView {
    if e.installed {
        StepView::Installed
    } else {
        match e.origin {
            Some(Source::Bundled) => StepView::Bundled(e.name),
            Some(Source::Gogh) => match e.palette {
                PaletteView::Loaded(l) => StepView::Gogh(e.name, l),
                _ => StepView::FetchGogh(e.name),
            },
            None => StepView::NoOrigin(e.name),
        }
    }
}

pub open spec fn opt_step(themes: Seq<EntryView>, i: Option<usize>) -> Seq<StepView> {
    match i {
        Some(k) => seq![step_for(themes[k as int])],
        None => Seq::empty(),
    }
}

/// The steps for the effective picks: `both`, `dark`, `light`.
pub open spec fn apply_steps(themes: Seq<EntryView>, p: Picks) -> Seq<StepView> {
    let e = effective_of(p);
    opt_step(themes, e.0) + opt_step(themes, e.1) + opt_step(themes, e.2)
}

pub open spec fn valid_slot(themes: Seq<EntryView>, i: Option<usize>) -> bool {
    i matches Some(k) ==> k < themes.len()
}

fn push_step(app: &App, steps: &mut Vec<ApplyStep>, i: Option<usize>)
    requires
        valid_slot(entries_view(app.themes@), i),
    ensures
        final(steps)@.map_values(|s: ApplyStep| step_view(s)) == old(steps)@.map_values(
            |s: ApplyStep| step_view(s),
        ) + opt_step(entries_view(app.themes@), i),
{
    let ghost before = steps@;
    if let Some(k) = i {
        assert(entries_view(app.themes@)[k as int] == app.themes@[k as int]@);
        let t = &app.themes[k];
        let step = if t.installed {
            ApplyStep::Installed
        } else {
            match t.origin {
                Some(Source::Bundled) => ApplyStep::Bundled(t.name.clone()),
                Some(Source::Gogh) => match &t.palette {
                    PaletteState::Loaded(l) => ApplyStep::Gogh(t.name.clone(), l.duplicate()),
                    _ => ApplyStep::FetchGogh(t.name.clone()),
                },
                None => ApplyStep::NoOrigin(t.name.clone()),
            }
        };
        steps.push(step);
        assert(steps@.map_values(|s: ApplyStep| step_view(s)) =~= before.map_values(
            |s: ApplyStep| step_view(s),
        ) + opt_step(entries_view(app.themes@), i));
    } else {
        assert(steps@.map_values(|s: ApplyStep| step_view(s)) =~= before.map_values(
            |s: ApplyStep| step_view(s),
        ) + opt_step(entries_view(app.themes@), i));
    }
}

/// Plan an apply. Nothing to write (no pending `extends` line) is `None`,
/// a no-op. Otherwise one step per effective pick, in slot order. Apply is
/// two-phase: the caller performs every fetch the steps call for before
/// touching the disk, and stops at the first failing step, so a failure
/// never leaves a half-applied state pointing at a missing palette.
pub fn plan_apply(app: &App) -> (r: Option<Vec<ApplyStep>>)
    requires
        pending_lines(entries_view(app.themes@), app.picks).len() > 0 ==> {
            let e = effective_of(app.picks);
            let t = entries_view(app.themes@);
            valid_slot(t, e.0) && valid_slot(t, e.1) && valid_slot(t, e.2)
        },
    ensures
        pending_lines(entries_view(app.themes@), app.picks).len() == 0 ==> r is None,
        pending_lines(entries_view(app.themes@), app.picks).len() > 0 ==> (r matches Some(v)
            && v@.map_values(|s: ApplyStep| step_view(s)) == apply_steps(
            entries_view(app.themes@),
            app.picks,
        )),
{
    let pending = app.pending_rc_block();
    if pending.len() == 0 {
        return None;
    }
    let (b, d, l) = app.picks.effective();
    let mut steps: Vec<ApplyStep> = Vec::new();
    assert(steps@.map_values(|s: ApplyStep| step_view(s)) =~= Seq::<StepView>::empty());
    push_step(app, &mut steps, b);
    push_step(app, &mut steps, d);
    push_step(app, &mut steps, l);
    assert(steps@.map_values(|s: ApplyStep| step_view(s)) =~= apply_steps(
        entries_view(app.themes@),
        app.picks,
    ));
    Some(steps)
}

/// The theme names an apply writes into the rc: `extends`,
/// `extends.dark`, `extends.light`.
pub fn apply_names(app: &App) -> (r: (Option<String>, Option<String>, Option<String>))
    ensures
        ({
            let e = effective_of(app.picks);
            let t = entries_view(app.themes@);
            &&& r.0 matches Some(n) ==> entry_at(t, e.0) matches Some(x) && n@ == x.name
            &&& r.0 is None ==> entry_at(t, e.0) is None
            &&& r.1 matches Some(n) ==> entry_at(t, e.1) matches Some(x) && n@ == x.name
            &&& r.1 is None ==> entry_at(t, e.1) is None
            &&& r.2 matches Some(n) ==> entry_at(t, e.2) matches Some(x) && n@ == x.name
            &&& r.2 is None ==> entry_at(t, e.2) is None
        }),
{
    let (b, d, l) = app.picks.effective();
    (name_at(app, b), name_at(app, d), name_at(app, l))
}

fn name_at(app: &App, i: Option<usize>) -> (r: Option<String>)
    ensures
        r matches Some(n) ==> entry_at(entries_view(app.themes@), i) matches Some(x) && n@ == x.name,
        r is None ==> entry_at(entries_view(app.themes@), i) is None,
{
    match i {
        Some(k) => if k < app.themes.len() {
            assert(entries_view(app.themes@)[k as int] == app.themes@[k as int]@);
            Some(string_of(&chars_of(app.themes[k].name.as_str())))
        } else {
            None
        },
        None => None,
    }
}

/// The error text for a picked theme with no known origin.
pub fn no_origin_message(name: &ThemeName) -> (r: String)
    ensures
        r@ == "theme "@ + name@ + " is not installed and has no known origin"@,
{
    let mut out = chars_of("theme ");
    push_str(&mut out, name.as_str());
    push_str(&mut out, " is not installed and has no known origin");
    string_of(&out)
}

/// Decompose a color into its `(r, g, b)` octets for the swatches.
pub fn hex_to_rgb(hex: &HexColor) -> (r: (u8, u8, u8))
    ensures
        r == color_rgb(hex@),
{
    hex.rgb()
}


// ---------------------------------------------------------------------
// Building the theme list
// ---------------------------------------------------------------------

pub open spec fn names_of(es: Seq<EntryView>) -> Seq<Seq<char>> {
    Seq::new(es.len(), |i: int| es[i].name)
}

/// Index of the entry called `n`.
pub open spec fn position_of_name(es: Seq<EntryView>, n: Seq<char>) -> Option<int>
    decreases es.len(),
{
    if es.len() == 0 {
        None
    } else if es[0].name == n {
        Some(0)
    } else {
        match position_of_name(es.drop_first(), n) {
            Some(k) => Some(k + 1),
            None => None,
        }
    }
}

/// Index of the first entry whose name does not sort before `n`.
pub open spec fn insert_pos(es: Seq<EntryView>, n: Seq<char>) -> int
    decreases es.len(),
{
    if es.len() == 0 || !seq_less(es[0].name, n) {
        0
    } else {
        1 + insert_pos(es.drop_first(), n)
    }
}

/// Insert `e` into the name-sorted list: replace an entry of the same
/// name when `replace` (`BTreeMap::insert`), else keep it
/// (`entry().or_insert`).
pub open spec fn upserted(es: Seq<EntryView>, e: EntryView, replace: bool) -> Seq<EntryView> {
    match position_of_name(es, e.name) {
        Some(k) => if replace {
            es.update(k, e)
        } else {
            es
        },
        None => es.insert(insert_pos(es, e.name), e),
    }
}

proof fn lemma_scan(es: Seq<EntryView>, n: Seq<char>, j: int)
    requires
        strictly_sorted(names_of(es)),
        0 <= j <= es.len(),
        forall|k: int| 0 <= k < j ==> seq_less(#[trigger] es[k].name, n),
        j < es.len() ==> !seq_less(es[j].name, n),
    ensures
        insert_pos(es, n) == j,
        j < es.len() && es[j].name == n ==> position_of_name(es, n) == Some(j),
        !(j < es.len() && es[j].name == n) ==> position_of_name(es, n) is None,
    decreases j,
{
    if j > 0 {
        let t = es.drop_first();
        assert(strictly_sorted(names_of(t))) by {
            assert forall|a: int, b: int| 0 <= a < b < names_of(t).len() implies seq_less(
                #[trigger] names_of(t)[a],
                #[trigger] names_of(t)[b],
            ) by {
                assert(names_of(t)[a] == names_of(es)[a + 1]);
                assert(names_of(t)[b] == names_of(es)[b + 1]);
            }
        }
        assert forall|k: int| 0 <= k < j - 1 implies seq_less(#[trigger] t[k].name, n) by {
            assert(t[k] == es[k + 1]);
        }
        lemma_scan(t, n, j - 1);
        assert(seq_less(es[0].name, n));
        lemma_seq_less_total(es[0].name, n);
    } else {
        if es.len() > 0 && es[0].name != n {
            lemma_seq_less_total(es[0].name, n);
            assert(seq_less(n, es[0].name));
            assert(position_of_name(es.drop_first(), n) is None) by {
                lemma_absent_after(es, n);
            }
        }
    }
}

/// In a sorted list, nothing after an entry that sorts after `n` is `n`.
proof fn lemma_absent_after(es: Seq<EntryView>, n: Seq<char>)
    requires
        strictly_sorted(names_of(es)),
        es.len() > 0,
        seq_less(n, es[0].name),
    ensures
        position_of_name(es.drop_first(), n) is None,
    decreases es.len(),
{
    let t = es.drop_first();
    if t.len() > 0 {
        assert(names_of(es)[0] == es[0].name && names_of(es)[1] == t[0].name);
        lemma_seq_less_trans(n, es[0].name, t[0].name);
        lemma_seq_less_total(n, t[0].name);
        assert(strictly_sorted(names_of(t))) by {
            assert forall|a: int, b: int| 0 <= a < b < names_of(t).len() implies seq_less(
                #[trigger] names_of(t)[a],
                #[trigger] names_of(t)[b],
            ) by {
                assert(names_of(t)[a] == names_of(es)[a + 1]);
                assert(names_of(t)[b] == names_of(es)[b + 1]);
            }
        }
        lemma_absent_after(t, n);
    }
}

proof fn lemma_entries_insert(v: Seq<ThemeEntry>, i: int, e: ThemeEntry)
    requires
        0 <= i <= v.len(),
    ensures
        entries_view(v.insert(i, e)) == entries_view(v).insert(i, e@),
{
    assert(entries_view(v.insert(i, e)) =~= entries_view(v).insert(i, e@));
}

/// Insert or replace by name, keeping the list sorted by name.
fn upsert(entries: &mut Vec<ThemeEntry>, e: ThemeEntry, replace: bool)
    requires
        strictly_sorted(names_of(entries_view(old(entries)@))),
    ensures
        strictly_sorted(names_of(entries_view(final(entries)@))),
        entries_view(final(entries)@) == upserted(entries_view(old(entries)@), e@, replace),
{
    let ghost es = entries_view(entries@);
    let ghost n = e.name@;
    let want = chars_of(e.name.as_str());
    let mut j: usize = 0;
    while j < entries.len()
        invariant
            j <= entries@.len(),
            es == entries_view(entries@),
            want@ == n,
            forall|k: int| 0 <= k < j ==> seq_less(#[trigger] es[k].name, n),
        ensures
            j <= entries@.len(),
            es == entries_view(entries@),
            forall|k: int| 0 <= k < j ==> seq_less(#[trigger] es[k].name, n),
            j < entries@.len() ==> !seq_less(es[j as int].name, n),
        decreases entries@.len() - j,
    {
        assert(es[j as int] == entries@[j as int]@);
        let here = chars_of(entries[j].name.as_str());
        if !less_chars(&here, &want) {
            break;
        }
        j = j + 1;
    }
    proof {
        lemma_scan(es, n, j as int);
    }
    if j < entries.len() {
        assert(es[j as int] == entries@[j as int]@);
        let here = chars_of(entries[j].name.as_str());
        if eq_chars(&here, &want) {
            if replace {
                let ghost before = entries@;
                entries[j] = e;
                proof {
                    lemma_entries_update(before, j as int, e);
                    assert(names_of(entries_view(entries@)) =~= names_of(es));
                }
            }
            return;
        }
        proof {
            lemma_seq_less_total(es[j as int].name, n);
        }
    }
    let ghost before = entries@;
    entries.insert(j, e);
    proof {
        lemma_entries_insert(before, j as int, e);
        let after = names_of(entries_view(entries@));
        let nm = names_of(es);
        assert(after =~= nm.insert(j as int, n));
        assert forall|a: int, b: int| 0 <= a < b < after.len() implies seq_less(
            #[trigger] after[a],
            #[trigger] after[b],
        ) by {
            if b < j {
                assert(after[a] == nm[a] && after[b] == nm[b]);
            } else if b == j {
                assert(after[a] == nm[a] && nm[a] == es[a].name);
            } else if a < j {
                assert(after[a] == nm[a] && after[b] == nm[b - 1]);
                assert(nm[a] == es[a].name);
                assert(nm[j as int] == es[j as int].name);
                lemma_seq_less_trans(nm[a], n, nm[j as int]);
                if b - 1 > j {
                    lemma_seq_less_trans(nm[a], nm[j as int], nm[b - 1]);
                }
            } else if a == j {
                assert(after[b] == nm[b - 1]);
                assert(nm[j as int] == es[j as int].name);
                if b - 1 > j {
                    lemma_seq_less_trans(n, nm[j as int], nm[b - 1]);
                }
            } else {
                assert(after[a] == nm[a - 1] && after[b] == nm[b - 1]);
            }
        }
    }
}

/// Bundled palettes, loaded eagerly (they are already in memory).
pub open spec fn bundled_phase(es: Seq<EntryView>, cat: Seq<(Seq<char>, Seq<char>)>) -> Seq<EntryView>
    decreases cat.len(),
{
    if cat.len() == 0 {
        es
    } else {
        let prev = bundled_phase(es, cat.drop_last());
        let (name, content) = cat.last();
        if is_valid_name(name) {
            upserted(
                prev,
                EntryView {
                    name,
                    origin: Some(Source::Bundled),
                    palette: PaletteView::Loaded(palette_parse(content).0),
                    installed: false,
                },
                true,
            )
        } else {
            prev
        }
    }
}

/// Gogh catalog names, `Pending` until fetched; a bundled theme of the
/// same name keeps its entry.
pub open spec fn gogh_phase(es: Seq<EntryView>, names: Seq<Seq<char>>) -> Seq<EntryView>
    decreases names.len(),
{
    if names.len() == 0 {
        es
    } else {
        let prev = gogh_phase(es, names.drop_last());
        let name = names.last();
        if is_valid_name(name) {
            upserted(
                prev,
                EntryView { name, origin: Some(Source::Gogh), palette: PaletteView::Pending, installed: false },
                false,
            )
        } else {
            prev
        }
    }
}

/// The origin of an installed palette: the catalog entry of the same
/// name's, else bundled when the bundled catalog has the name, else
/// unknown.
pub open spec fn installed_origin(es: Seq<EntryView>, name: Seq<char>) -> Option<Source> {
    match position_of_name(es, name) {
        Some(k) if es[k].origin is Some => es[k].origin,
        _ => if lookup(catalog(), name) is Some {
            Some(Source::Bundled)
        } else {
            None
        },
    }
}

/// Palettes installed on disk, `(file stem, contents)`: they override the
/// catalogs with what is actually on disk (so edits to a bundled theme
/// show through), keeping the known origin.
pub open spec fn installed_phase(es: Seq<EntryView>, files: Seq<(Seq<char>, Seq<char>)>) -> Seq<EntryView>
    decreases files.len(),
{
    if files.len() == 0 {
        es
    } else {
        let prev = installed_phase(es, files.drop_last());
        let (stem, content) = files.last();
        if is_valid_name(stem) {
            upserted(
                prev,
                EntryView {
                    name: stem,
                    origin: installed_origin(prev, stem),
                    palette: PaletteView::Loaded(palette_parse(content).0),
                    installed: true,
                },
                true,
            )
        } else {
            prev
        }
    }
}

pub open spec fn catalog_names(gogh: Result<Option<Seq<Seq<char>>>, Seq<char>>) -> Seq<Seq<char>> {
    match gogh {
        Ok(Some(ns)) => ns,
        _ => Seq::empty(),
    }
}

/// The merged list: bundled, then the Gogh catalog, then what is
/// installed, sorted by name.
pub open spec fn merged_themes(
    gogh: Result<Option<Seq<Seq<char>>>, Seq<char>>,
    files: Seq<(Seq<char>, Seq<char>)>,
) -> Seq<EntryView> {
    installed_phase(gogh_phase(bundled_phase(Seq::empty(), catalog()), catalog_names(gogh)), files)
}

/// Catalog names that can't be theme names, in catalog order.
pub open spec fn skipped_names(names: Seq<Seq<char>>) -> Seq<Seq<char>>
    decreases names.len(),
{
    if names.len() == 0 {
        Seq::empty()
    } else if is_valid_name(names.last()) {
        skipped_names(names.drop_last())
    } else {
        skipped_names(names.drop_last()).push(names.last())
    }
}

/// `names` separated by `, `.
pub open spec fn comma_joined(names: Seq<Seq<char>>) -> Seq<char>
    decreases names.len(),
{
    if names.len() == 0 {
        Seq::empty()
    } else if names.len() == 1 {
        names[0]
    } else {
        comma_joined(names.drop_last()) + ", "@ + names.last()
    }
}

/// The note about skipped catalog names: how many, the first five, and
/// how many more.
pub open spec fn skipped_note(skipped: Seq<Seq<char>>) -> Seq<char> {
    let extra = if skipped.len() > 5 {
        (skipped.len() - 5) as nat
    } else {
        0
    };
    "note: "@ + decimal(skipped.len()) + " gogh theme(s) skipped (names contain characters that can't be used in theme filenames, e.g. path separators, quotes, or control characters): "@
        + comma_joined(skipped.take(if skipped.len() > 5 { 5 } else { skipped.len() as int }))
        + if extra > 0 {
        ", and "@ + decimal(extra) + " more"@
    } else {
        Seq::empty()
    }
}

/// The warnings `load_themes` collects, in order.
pub open spec fn load_warnings(gogh: Result<Option<Seq<Seq<char>>>, Seq<char>>) -> Seq<Seq<char>> {
    let first = match gogh {
        Ok(Some(_)) => Seq::empty(),
        Ok(None) => seq![
            "note: gogh catalog not synced — run `colorant themes sync` to browse Gogh themes here"@,
        ],
        Err(msg) => seq!["warning: gogh catalog unavailable: "@ + msg],
    };
    let skipped = skipped_names(catalog_names(gogh));
    if skipped.len() > 0 {
        first.push(skipped_note(skipped))
    } else {
        first
    }
}

pub open spec fn gogh_view(g: Result<Option<Vec<String>>, String>) -> Result<
    Option<Seq<Seq<char>>>,
    Seq<char>,
> {
    match g {
        Ok(Some(v)) => Ok(Some(views(v@))),
        Ok(None) => Ok(None),
        Err(m) => Err(m@),
    }
}

pub open spec fn files_view(f: Seq<(String, String)>) -> Seq<(Seq<char>, Seq<char>)> {
    Seq::new(f.len(), |i: int| (f[i].0@, f[i].1@))
}

fn push_warning(out: &mut Vec<String>, v: &Vec<char>)
    ensures
        views(final(out)@) == views(old(out)@).push(v@),
{
    let ghost before = out@;
    out.push(string_of(v));
    assert(views(out@) =~= views(before).push(v@));
}

/// Build the merged theme list from every source: the bundled palettes,
/// the cached Gogh catalog (`Ok(None)` when never synced, `Err` with the
/// reason when unreadable), and the palettes installed under
/// `base_theme_dir` as `(file stem, contents)`. Sorted by name, one entry
/// per name. Also returns the warnings to replay after the picker exits
/// (the alternate screen would swallow them): an unsynced or unreadable
/// catalog, and catalog names that can't be used as theme names.
pub fn load_themes(gogh: Result<Option<Vec<String>>, String>, installed: &[(String, String)]) -> (r: (
    Vec<ThemeEntry>,
    Vec<String>,
))
    ensures
        entries_view(r.0@) == merged_themes(gogh_view(gogh), files_view(installed@)),
        strictly_sorted(names_of(entries_view(r.0@))),
        views(r.1@) == load_warnings(gogh_view(gogh)),
{
    let mut entries: Vec<ThemeEntry> = Vec::new();
    let mut warnings: Vec<String> = Vec::new();
    let all = bundled_themes();
    let ghost cat = catalog();
    let mut i: usize = 0;
    assert(entries_view(entries@) =~= Seq::<EntryView>::empty());
    assert(cat.take(0) =~= Seq::<(Seq<char>, Seq<char>)>::empty());
    while i < all.len()
        invariant
            i <= all.len(),
            pairs_view(all@) == cat,
            cat == catalog(),
            strictly_sorted(names_of(entries_view(entries@))),
            entries_view(entries@) == bundled_phase(Seq::empty(), cat.take(i as int)),
        decreases all.len() - i,
    {
        let (name, content) = all[i];
        assert(cat[i as int] == (name@, content@));
        assert(cat.take(i + 1).drop_last() =~= cat.take(i as int));
        match ThemeName::parse(name) {
            Ok(theme_name) => {
                let layer = parse_palette_str(content).layer;
                upsert(
                    &mut entries,
                    ThemeEntry {
                        name: theme_name,
                        origin: Some(Source::Bundled),
                        palette: PaletteState::Loaded(layer),
                        installed: false,
                    },
                    true,
                );
            },
            Err(_) => {},
        }
        i = i + 1;
    }
    assert(cat.take(all.len() as int) =~= cat);
    let ghost after_bundled = entries_view(entries@);
    let mut skipped: Vec<String> = Vec::new();
    let ghost gnames = catalog_names(gogh_view(gogh));
    match &gogh {
        Ok(Some(names)) => {
            let mut k: usize = 0;
            assert(views(names@).take(0) =~= Seq::<Seq<char>>::empty());
            while k < names.len()
                invariant
                    k <= names@.len(),
                    gnames == views(names@),
                    strictly_sorted(names_of(entries_view(entries@))),
                    entries_view(entries@) == gogh_phase(after_bundled, gnames.take(k as int)),
                    views(skipped@) == skipped_names(gnames.take(k as int)),
                decreases names@.len() - k,
            {
                assert(gnames.take(k + 1).drop_last() =~= gnames.take(k as int));
                assert(gnames.take(k + 1).last() == names@[k as int]@);
                match ThemeName::parse(names[k].as_str()) {
                    Ok(theme_name) => {
                        upsert(
                            &mut entries,
                            ThemeEntry {
                                name: theme_name,
                                origin: Some(Source::Gogh),
                                palette: PaletteState::Pending,
                                installed: false,
                            },
                            false,
                        );
                    },
                    Err(_) => {
                        push_warning(&mut skipped, &chars_of(names[k].as_str()));
                    },
                }
                k = k + 1;
            }
            assert(gnames.take(names@.len() as int) =~= gnames);
        },
        Ok(None) => {
            push_warning(
                &mut warnings,
                &chars_of(
                    "note: gogh catalog not synced — run `colorant themes sync` to browse Gogh themes here",
                ),
            );
            assert(gnames.take(0) =~= gnames);
        },
        Err(msg) => {
            let mut w = chars_of("warning: gogh catalog unavailable: ");
            push_str(&mut w, msg.as_str());
            push_warning(&mut warnings, &w);
            assert(gnames.take(0) =~= gnames);
        },
    }
    assert(views(skipped@) == skipped_names(gnames));
    let ghost after_gogh = entries_view(entries@);
    let ghost files = files_view(installed@);
    let mut f: usize = 0;
    assert(files.take(0) =~= Seq::<(Seq<char>, Seq<char>)>::empty());
    while f < installed.len()
        invariant
            f <= installed@.len(),
            files == files_view(installed@),
            strictly_sorted(names_of(entries_view(entries@))),
            entries_view(entries@) == installed_phase(after_gogh, files.take(f as int)),
        decreases installed@.len() - f,
    {
        let (stem, content) = &installed[f];
        assert(files.take(f + 1).drop_last() =~= files.take(f as int));
        assert(files.take(f + 1).last() == (stem@, content@));
        match ThemeName::parse(stem.as_str()) {
            Ok(theme_name) => {
                let origin = installed_origin_of(&entries, stem.as_str());
                let layer = parse_palette_str(content.as_str()).layer;
                upsert(
                    &mut entries,
                    ThemeEntry {
                        name: theme_name,
                        origin,
                        palette: PaletteState::Loaded(layer),
                        installed: true,
                    },
                    true,
                );
            },
            Err(_) => {},
        }
        f = f + 1;
    }
    assert(files.take(installed@.len() as int) =~= files);
    if skipped.len() > 0 {
        let note = skipped_note_text(&skipped);
        push_warning(&mut warnings, &note);
    }
    assert(views(warnings@) =~= load_warnings(gogh_view(gogh)));
    (entries, warnings)
}

fn installed_origin_of(entries: &Vec<ThemeEntry>, stem: &str) -> (r: Option<Source>)
    ensures
        r == installed_origin(entries_view(entries@), stem@),
{
    let ghost es = entries_view(entries@);
    let want = chars_of(stem);
    let mut j: usize = 0;
    assert(es.skip(0) =~= es);
    while j < entries.len()
        invariant
            j <= entries@.len(),
            es == entries_view(entries@),
            want@ == stem@,
            position_of_name(es, stem@) == match position_of_name(es.skip(j as int), stem@) {
                Some(k) => Some(k + j),
                None => None,
            },
        decreases entries@.len() - j,
    {
        assert(es.skip(j as int)[0] == entries@[j as int]@);
        if eq_chars(&chars_of(entries[j].name.as_str()), &want) {
            assert(position_of_name(es, stem@) == Some(j as int));
            if entries[j].origin.is_some() {
                return entries[j].origin;
            }
            return match crate::theme::bundled::bundled_content(stem) {
                Some(_) => Some(Source::Bundled),
                None => None,
            };
        }
        assert(es.skip(j as int).drop_first() =~= es.skip(j + 1));
        j = j + 1;
    }
    assert(position_of_name(es.skip(j as int), stem@) is None);
    match crate::theme::bundled::bundled_content(stem) {
        Some(_) => Some(Source::Bundled),
        None => None,
    }
}

fn skipped_note_text(skipped: &Vec<String>) -> (r: Vec<char>)
    requires
        skipped@.len() > 0,
    ensures
        r@ == skipped_note(views(skipped@)),
{
    let n = skipped.len();
    let shown = if n > 5 {
        5
    } else {
        n
    };
    let mut out = chars_of("note: ");
    push_decimal(&mut out, n);
    push_str(
        &mut out,
        " gogh theme(s) skipped (names contain characters that can't be used in theme filenames, e.g. path separators, quotes, or control characters): ",
    );
    let ghost head = out@;
    let ghost sv = views(skipped@);
    let mut i: usize = 0;
    assert(sv.take(0) =~= Seq::<Seq<char>>::empty());
    while i < shown
        invariant
            i <= shown,
            shown <= skipped@.len(),
            sv == views(skipped@),
            out@ == head + comma_joined(sv.take(i as int)),
        decreases shown - i,
    {
        assert(sv.take(i + 1).drop_last() =~= sv.take(i as int));
        assert(sv.take(i + 1).last() == skipped@[i as int]@);
        if i > 0 {
            push_str(&mut out, ", ");
        } else {
            assert(sv.take(1) =~= seq![sv[0]]);
        }
        push_str(&mut out, skipped[i].as_str());
        i = i + 1;
        assert(out@ =~= head + comma_joined(sv.take(i as int)));
    }
    if n > 5 {
        push_str(&mut out, ", and ");
        push_decimal(&mut out, n - 5);
        push_str(&mut out, " more");
    }
    assert(out@ =~= skipped_note(sv));
    out
}

} // verus!
