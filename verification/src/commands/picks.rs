//! Slot assignments made in the interactive pickers.
//!
//! A theme can be assigned to `both` modes, or to `dark` and `light`
//! separately; on apply each effective slot becomes one `extends*` line in
//! the `.colorantrc`. Slots hold indices into the picker's theme list.

use crate::text::{less_chars, lemma_seq_less_total, push_str, seq_less, string_of, strictly_sorted};
use crate::theme::model::{is_valid_name, ThemeName, RcView};
use crate::theme::rc::rewritten;
use crate::theme::rc_law::{lemma_rewrite_then_parse, valid_opt};
use crate::theme::parse::{parse_rc_str, rc_parse};
use vstd::prelude::*;

verus! {

/// Which themes are currently assigned to which slot.
#[derive(Debug, Clone, Copy, PartialEq, Eq, Structural)]
pub struct Picks {
    pub both: Option<usize>,
    pub dark: Option<usize>,
    pub light: Option<usize>,
}

impl Default for Picks {
    fn default() -> (r: Picks)
        ensures
            r == (Picks { both: None, dark: None, light: None }),
    {
        Picks { both: None, dark: None, light: None }
    }
}

/// The slot value after toggling `idx`: cleared when it already held
/// `idx`, set to `idx` otherwise.
pub open spec fn toggled(slot: Option<usize>, idx: usize) -> Option<usize> {
    if slot == Some(idx) {
        None
    } else {
        Some(idx)
    }
}

/// The picks are consistent: a `both` assignment excludes per-mode ones.
/// The file format writes either `extends = X` or `extends.dark` /
/// `extends.light`, so the picker never holds both kinds at once.
pub open spec fn picks_wf(p: Picks) -> bool {
    p.both is Some ==> p.dark is None && p.light is None
}

pub open spec fn after_toggle_both(p: Picks, idx: usize) -> Picks {
    let both = toggled(p.both, idx);
    if both is Some {
        Picks { both, dark: None, light: None }
    } else {
        Picks { both, ..p }
    }
}

pub open spec fn after_toggle_dark(p: Picks, idx: usize) -> Picks {
    match p.both {
        Some(prev) => Picks {
            both: None,
            dark: Some(idx),
            light: if prev != idx {
                Some(prev)
            } else {
                p.light
            },
        },
        None => Picks { dark: toggled(p.dark, idx), ..p },
    }
}

pub open spec fn after_toggle_light(p: Picks, idx: usize) -> Picks {
    match p.both {
        Some(prev) => Picks {
            both: None,
            dark: if prev != idx {
                Some(prev)
            } else {
                p.dark
            },
            light: Some(idx),
        },
        None => Picks { light: toggled(p.light, idx), ..p },
    }
}

/// The `(extends, extends.dark, extends.light)` indices to write:
/// `both` wins; equal `dark` and `light` collapse into one global
/// `extends`.
pub open spec fn effective_of(p: Picks) -> (Option<usize>, Option<usize>, Option<usize>) {
    if p.both is Some {
        (p.both, None, None)
    } else if p.dark is Some && p.dark == p.light {
        (p.dark, None, None)
    } else {
        (None, p.dark, p.light)
    }
}

/// The tag shown after a theme in the list: which modes it is active for.
pub open spec fn slot_tag_of(p: Picks, idx: usize) -> Seq<char> {
    let dark_hit = p.both == Some(idx) || p.dark == Some(idx);
    let light_hit = p.both == Some(idx) || p.light == Some(idx);
    if dark_hit && light_hit {
        " [d/l]"@
    } else if dark_hit {
        " [d]"@
    } else if light_hit {
        " [l]"@
    } else {
        Seq::empty()
    }
}

/// Toggle assignment of `idx` to `slot`: if already set to `Some(idx)`,
/// clear it; otherwise assign. Pressing the same slot key twice on the
/// same theme unpicks it.
pub fn toggle(slot: &mut Option<usize>, idx: usize)
    ensures
        *final(slot) == toggled(*old(slot), idx),
{
    *slot = if *slot == Some(idx) {
        None
    } else {
        Some(idx)
    };
}

impl Picks {
    /// Drop every assignment.
    pub fn clear(&mut self)
        ensures
            *final(self) == (Picks { both: None, dark: None, light: None }),
    {
        self.both = None;
        self.dark = None;
        self.light = None;
    }

    /// Toggle the `both` slot for `idx`. Assigning `both` clears `dark` and
    /// `light`: the two modes are exclusive in the file format.
    pub fn toggle_both(&mut self, idx: usize)
        ensures
            *final(self) == after_toggle_both(*old(self), idx),
    {
        toggle(&mut self.both, idx);
        if self.both.is_some() {
            self.dark = None;
            self.light = None;
        }
    }

    /// Toggle the `dark` slot for `idx`. When `both` is set it is
    /// decomposed: its previous target moves to `light` (the user's
    /// earlier intent survives on the other side), unless it is the theme
    /// being picked for dark, in which case the pick becomes dark-only.
    pub fn toggle_dark(&mut self, idx: usize)
        ensures
            *final(self) == after_toggle_dark(*old(self), idx),
    {
        if let Some(prev_both) = self.both {
            self.both = None;
            if prev_both != idx {
                self.light = Some(prev_both);
            }
            self.dark = Some(idx);
            return;
        }
        toggle(&mut self.dark, idx);
    }

    /// Toggle the `light` slot for `idx`; the mirror of `toggle_dark`.
    pub fn toggle_light(&mut self, idx: usize)
        ensures
            *final(self) == after_toggle_light(*old(self), idx),
    {
        if let Some(prev_both) = self.both {
            self.both = None;
            if prev_both != idx {
                self.dark = Some(prev_both);
            }
            self.light = Some(idx);
            return;
        }
        toggle(&mut self.light, idx);
    }

    /// The trio of effective extends keys to write. `dark == light`
    /// collapses to a single global `extends`: the same meaning, a
    /// cleaner rc.
    pub fn effective(&self) -> (r: (Option<usize>, Option<usize>, Option<usize>))
        ensures
            r == effective_of(*self),
    {
        if let Some(b) = self.both {
            return (Some(b), None, None);
        }
        if let (Some(d), Some(l)) = (self.dark, self.light) {
            if d == l {
                return (Some(d), None, None);
            }
        }
        (None, self.dark, self.light)
    }

    /// Display tag for the theme list: `[d/l]` when the theme applies to
    /// both modes (through `both`, or picked for each), `[d]` / `[l]` for
    /// one mode, nothing when it is unassigned.
    pub fn slot_tag(&self, idx: usize) -> (r: String)
        ensures
            r@ == slot_tag_of(*self, idx),
    {
        let dark_hit = self.both == Some(idx) || self.dark == Some(idx);
        let light_hit = self.both == Some(idx) || self.light == Some(idx);
        let mut out: Vec<char> = Vec::new();
        if dark_hit && light_hit {
            push_str(&mut out, " [d/l]");
        } else if dark_hit {
            push_str(&mut out, " [d]");
        } else if light_hit {
            push_str(&mut out, " [l]");
        }
        assert(out@ =~= slot_tag_of(*self, idx));
        string_of(&out)
    }
}

// ---------------------------------------------------------------------
// Reading picks back from an existing rc
// ---------------------------------------------------------------------

/// Index of the first theme called `name`.
pub open spec fn position_of(names: Seq<Seq<char>>, name: Seq<char>) -> Option<int>
    decreases names.len(),
{
    if names.len() == 0 {
        None
    } else if names[0] == name {
        Some(0)
    } else {
        match position_of(names.drop_first(), name) {
            Some(i) => Some(i + 1),
            None => None,
        }
    }
}

pub proof fn lemma_position_of(names: Seq<Seq<char>>, name: Seq<char>)
    ensures
        position_of(names, name) matches Some(i) ==> 0 <= i < names.len() && names[i] == name,
        position_of(names, name) is None ==> forall|j: int| 0 <= j < names.len() ==> names[j] != name,
    decreases names.len(),
{
    if names.len() > 0 && names[0] != name {
        lemma_position_of(names.drop_first(), name);
        assert forall|j: int| 0 <= j < names.len() && position_of(names, name) is None implies names[j]
            != name by {
            if j > 0 {
                assert(names[j] == names.drop_first()[j - 1]);
            }
        }
    }
}

pub open spec fn name_views(themes: Seq<ThemeName>) -> Seq<Seq<char>> {
    Seq::new(themes.len(), |i: int| themes[i]@)
}

/// The theme each mode resolves to in an rc: the per-mode `extends` if
/// set, else the global one (the resolver's fallback).
pub open spec fn rc_dark_name(rc: RcView) -> Option<Seq<char>> {
    if rc.extends_dark is Some {
        rc.extends_dark
    } else {
        rc.extends
    }
}

pub open spec fn rc_light_name(rc: RcView) -> Option<Seq<char>> {
    if rc.extends_light is Some {
        rc.extends_light
    } else {
        rc.extends
    }
}

pub open spec fn index_of_name(names: Seq<Seq<char>>, n: Option<Seq<char>>) -> Option<usize> {
    match n {
        Some(name) => match position_of(names, name) {
            Some(i) => Some(i as usize),
            None => None,
        },
        None => None,
    }
}

/// A name referenced but not offered, if any.
pub open spec fn missing_of(names: Seq<Seq<char>>, n: Option<Seq<char>>) -> Seq<Seq<char>> {
    match n {
        Some(name) => if position_of(names, name) is None {
            seq![name]
        } else {
            Seq::empty()
        },
        None => Seq::empty(),
    }
}

/// The picks an rc stands for, over the offered theme names.
pub open spec fn picks_of_rc(names: Seq<Seq<char>>, rc: RcView) -> Picks {
    let d = index_of_name(names, rc_dark_name(rc));
    let l = index_of_name(names, rc_light_name(rc));
    if d is Some && d == l {
        Picks { both: d, dark: None, light: None }
    } else {
        Picks { both: None, dark: d, light: l }
    }
}

/// The names the rc references that are not offered, each once, in the
/// order they are met (dark's first).
pub open spec fn missing_seen(names: Seq<Seq<char>>, rc: RcView) -> Seq<Seq<char>> {
    let md = missing_of(names, rc_dark_name(rc));
    let ml = missing_of(names, rc_light_name(rc));
    if ml.len() > 0 && md.len() > 0 && md[0] == ml[0] {
        md
    } else {
        md + ml
    }
}

/// The names the rc references that are not offered: sorted, each once.
/// (There are at most two, so the smaller goes first.)
pub open spec fn missing_of_rc(names: Seq<Seq<char>>, rc: RcView) -> Seq<Seq<char>> {
    let seen = missing_seen(names, rc);
    if seen.len() == 2 && seq_less(seen[1], seen[0]) {
        seq![seen[1], seen[0]]
    } else {
        seen
    }
}

fn find_theme(themes: &[ThemeName], name: &ThemeName) -> (r: Option<usize>)
    ensures
        r == index_of_name(name_views(themes@), Some(name@)),
{
    let ghost names = name_views(themes@);
    let mut i: usize = 0;
    assert(names.skip(0) =~= names);
    while i < themes.len()
        invariant
            i <= themes@.len(),
            names == name_views(themes@),
            forall|j: int| 0 <= j < i ==> names[j] != name@,
            position_of(names, name@) == match position_of(names.skip(i as int), name@) {
                Some(k) => Some(k + i),
                None => None,
            },
        decreases themes@.len() - i,
    {
        assert(names.skip(i as int)[0] == names[i as int]);
        if themes[i].same_as(name) {
            proof {
                lemma_position_of(names, name@);
            }
            return Some(i);
        }
        assert(names.skip(i as int).drop_first() =~= names.skip(i + 1));
        i = i + 1;
    }
    None
}

fn push_missing(missing: &mut Vec<String>, name: &ThemeName)
    ensures
        views_of(final(missing)@) == if views_of(old(missing)@).contains(name@) {
            views_of(old(missing)@)
        } else {
            views_of(old(missing)@).push(name@)
        },
{
    let mut i: usize = 0;
    while i < missing.len()
        invariant
            i <= missing@.len(),
            forall|j: int| 0 <= j < i ==> views_of(missing@)[j] != name@,
        decreases missing@.len() - i,
    {
        let s = crate::text::chars_of(missing[i].as_str());
        let n = crate::text::chars_of(name.as_str());
        if crate::text::eq_chars(&s, &n) {
            assert(views_of(missing@)[i as int] == name@);
            return;
        }
        i = i + 1;
    }
    let ghost before = missing@;
    let n = crate::text::chars_of(name.as_str());
    missing.push(string_of(&n));
    assert(views_of(missing@) =~= views_of(before).push(name@));
}

pub open spec fn views_of(v: Seq<String>) -> Seq<Seq<char>> {
    Seq::new(v.len(), |i: int| v[i]@)
}

/// Map the extends keys of an existing `.colorantrc` onto the three slots,
/// so a picker opens with the current picks pre-selected. Follows the
/// resolver's fallback: `extends.dark` / `extends.light` win, the global
/// `extends` fills in a side without its own; when both sides land on the
/// same theme they collapse into `both`, as `effective` does on the way
/// out.
///
/// Returns the picks and the names the rc references that are not among
/// `themes`, sorted and deduplicated, so the caller can warn that they
/// won't be preserved on apply.
pub fn picks_from_rc_content(content: &str, themes: &[ThemeName]) -> (r: (Picks, Vec<String>))
    ensures
        r.0 == picks_of_rc(name_views(themes@), rc_parse(content@).0),
        views_of(r.1@) == missing_of_rc(name_views(themes@), rc_parse(content@).0),
{
    let rc = parse_rc_str(content);
    let ghost names = name_views(themes@);
    let mut missing: Vec<String> = Vec::new();
    let dark_ref = match &rc.extends_dark {
        Some(n) => Some(n),
        None => rc.extends.as_ref(),
    };
    let light_ref = match &rc.extends_light {
        Some(n) => Some(n),
        None => rc.extends.as_ref(),
    };
    let dark = match dark_ref {
        Some(n) => {
            let idx = find_theme(themes, n);
            if idx.is_none() {
                push_missing(&mut missing, n);
            }
            idx
        },
        None => None,
    };
    assert(views_of(missing@) =~= missing_of(names, rc_dark_name(rc@)));
    let light = match light_ref {
        Some(n) => {
            let idx = find_theme(themes, n);
            if idx.is_none() {
                push_missing(&mut missing, n);
            }
            idx
        },
        None => None,
    };
    assert(views_of(missing@) =~= missing_seen(names, rc@));
    if missing.len() == 2 {
        let a = crate::text::chars_of(missing[0].as_str());
        let b = crate::text::chars_of(missing[1].as_str());
        if less_chars(&b, &a) {
            let ghost before = views_of(missing@);
            let second = missing.remove(1);
            missing.insert(0, second);
            assert(views_of(missing@) =~= seq![before[1], before[0]]);
        }
    }
    assert(views_of(missing@) =~= missing_of_rc(names, rc@));
    let picks = match (dark, light) {
        (Some(d), Some(l)) => if d == l {
            Picks { both: Some(d), dark: None, light: None }
        } else {
            Picks { both: None, dark: Some(d), light: Some(l) }
        },
        (d, l) => Picks { both: None, dark: d, light: l },
    };
    (picks, missing)
}

// ---------------------------------------------------------------------
// Laws
// ---------------------------------------------------------------------

/// Every picker operation keeps the picks consistent: once `both` is
/// set, no per-mode slot is.
pub proof fn lemma_operations_keep_picks_wf(p: Picks, idx: usize)
    requires
        picks_wf(p),
    ensures
        picks_wf(after_toggle_both(p, idx)),
        picks_wf(after_toggle_dark(p, idx)),
        picks_wf(after_toggle_light(p, idx)),
{
}

/// Picks read back from any rc are consistent too.
pub proof fn lemma_rc_picks_wf(names: Seq<Seq<char>>, rc: RcView)
    ensures
        picks_wf(picks_of_rc(names, rc)),
{
}

/// The effective keys never mix a global `extends` with per-mode ones.
pub proof fn lemma_effective_exclusive(p: Picks)
    ensures
        effective_of(p).0 is Some ==> effective_of(p).1 is None && effective_of(p).2 is None,
{
}

/// Toggling `both` on a theme twice from a consistent state undoes the
/// first toggle's effect on `both`, and leaves no per-mode pick behind
/// when the first toggle had set it.
pub proof fn lemma_toggle_both_twice(p: Picks, idx: usize)
    requires
        picks_wf(p),
    ensures
        after_toggle_both(after_toggle_both(p, idx), idx).both == (if p.both == Some(idx) {
            Some(idx)
        } else {
            None::<usize>
        }),
        p.both != Some(idx) ==> after_toggle_both(after_toggle_both(p, idx), idx) == (Picks {
            both: None,
            dark: None,
            light: None,
        }),
{
}

/// Picking the same theme for dark and then for light, starting from no
/// picks, is written as a single global `extends`.
pub proof fn lemma_same_theme_both_modes_collapses(idx: usize)
    ensures
        effective_of(
            after_toggle_light(
                after_toggle_dark(Picks { both: None, dark: None, light: None }, idx),
                idx,
            ),
        ) == (Some(idx), None::<usize>, None::<usize>),
{
}

/// The name at a picked index.
pub open spec fn picked_name(names: Seq<Seq<char>>, i: Option<usize>) -> Option<Seq<char>> {
    match i {
        Some(k) => Some(names[k as int]),
        None => None,
    }
}

/// Opening the picker on an rc and applying without a change keeps what
/// each mode inherits and every color layer, as long as the themes the rc
/// names are offered (one that is not is dropped on apply, with a warning).
pub proof fn lemma_reopen_apply_keeps_parents(content: Seq<char>, names: Seq<Seq<char>>)
    requires
        names.len() <= usize::MAX,
        forall|i: int| 0 <= i < names.len() ==> is_valid_name(#[trigger] names[i]),
        rc_dark_name(rc_parse(content).0) matches Some(n) ==> position_of(names, n) is Some,
        rc_light_name(rc_parse(content).0) matches Some(n) ==> position_of(names, n) is Some,
    ensures
        ({
            let rc = rc_parse(content).0;
            let e = effective_of(picks_of_rc(names, rc));
            let rc2 = rc_parse(
                rewritten(
                    content,
                    picked_name(names, e.0),
                    picked_name(names, e.1),
                    picked_name(names, e.2),
                ),
            ).0;
            &&& rc_dark_name(rc2) == rc_dark_name(rc)
            &&& rc_light_name(rc2) == rc_light_name(rc)
            &&& rc2.base == rc.base
            &&& rc2.dark == rc.dark
            &&& rc2.light == rc.light
        }),
{
    let rc = rc_parse(content).0;
    let d = rc_dark_name(rc);
    let l = rc_light_name(rc);
    if let Some(n) = d {
        lemma_position_of(names, n);
    }
    if let Some(n) = l {
        lemma_position_of(names, n);
    }
    let di = index_of_name(names, d);
    let li = index_of_name(names, l);
    assert(picked_name(names, di) == d);
    assert(picked_name(names, li) == l);
    let e = effective_of(picks_of_rc(names, rc));
    if di is Some && di == li {
        assert(e == (di, None::<usize>, None::<usize>));
        assert(d == l);
    } else {
        assert(e == (None::<usize>, di, li));
    }
    assert(valid_opt(picked_name(names, e.0)));
    assert(valid_opt(picked_name(names, e.1)));
    assert(valid_opt(picked_name(names, e.2)));
    lemma_rewrite_then_parse(
        content,
        picked_name(names, e.0),
        picked_name(names, e.1),
        picked_name(names, e.2),
    );
}

/// The missing-name list is sorted with no repeats.
pub proof fn lemma_missing_sorted(names: Seq<Seq<char>>, rc: RcView)
    ensures
        strictly_sorted(missing_of_rc(names, rc)),
{
    let seen = missing_seen(names, rc);
    assert(seen.len() <= 2);
    if seen.len() == 2 {
        lemma_seq_less_total(seen[0], seen[1]);
        assert(seen[0] != seen[1]);
    }
}

} // verus!
