//! What a rewritten rc reads back as.
//!
//! `rewrite_extends` replaces the `extends*` assignments of an rc and keeps
//! everything else. This module proves the reading of that promise: parsing
//! the rewritten text gives exactly the requested `extends*` values, and the
//! same base, `[dark]` and `[light]` layers as parsing the text before. It
//! also proves that a second rewrite with the same names reads back the
//! same, and leaves the very text unchanged unless a written line ends in a
//! carriage return or the sections end in two or more empty lines (see
//! `rewrite_stable`).

use crate::text::{
    index_of, is_ws, lemma_index_of, lemma_index_of_is, lemma_split_concat, lemma_split_line,
    lemma_trim_drop_ws, lemma_trim_end_prefix, lemma_trim_exact, lemma_trim_idempotent,
    lemma_trim_start_head, lemma_trim_strip_cr, lines, no_newline, split_state, strip_cr, trim,
    trim_start,
};
use crate::theme::model::{
    empty_rc, is_valid_name, lemma_first_disallowed, name_char_allowed, name_check, RcView,
};
use crate::theme::parse::{
    extends_slot, key_value, rc_fold, rc_parse, rc_step, section_name, set_extends, Section,
};
use crate::theme::rc::{
    assemble, drop_leading_blank, drop_trailing_blank, written_base, extends_block, is_extends_line, is_header, join_lines, opt_line,
    partition, rewritten,
};
use vstd::prelude::*;

verus! {

// ---------------------------------------------------------------------
// The lines a parser looks at
// ---------------------------------------------------------------------

/// The non-blank lines of `ls`, trimmed: all that the rc parser's result
/// (leaving diagnostics aside) depends on.
pub open spec fn sig(ls: Seq<Seq<char>>) -> Seq<Seq<char>>
    decreases ls.len(),
{
    if ls.len() == 0 {
        Seq::empty()
    } else {
        let t = trim(ls.last());
        if t.len() == 0 {
            sig(ls.drop_last())
        } else {
            sig(ls.drop_last()).push(t)
        }
    }
}

proof fn lemma_sig_concat(a: Seq<Seq<char>>, b: Seq<Seq<char>>)
    ensures
        sig(a + b) == sig(a) + sig(b),
    decreases b.len(),
{
    if b.len() == 0 {
        assert(a + b =~= a);
        assert(sig(a) + sig(b) =~= sig(a));
    } else {
        assert((a + b).drop_last() =~= a + b.drop_last());
        assert((a + b).last() == b.last());
        lemma_sig_concat(a, b.drop_last());
        assert((sig(a) + sig(b.drop_last())).push(trim(b.last())) =~= sig(a) + sig(
            b.drop_last(),
        ).push(trim(b.last())));
    }
}

/// Every line of `ls` is free of line feeds.
pub open spec fn all_nn(ls: Seq<Seq<char>>) -> bool {
    forall|i: int| 0 <= i < ls.len() ==> no_newline(#[trigger] ls[i])
}

/// `strip_cr` on every line.
pub open spec fn cr_all(ls: Seq<Seq<char>>) -> Seq<Seq<char>>
    decreases ls.len(),
{
    if ls.len() == 0 {
        Seq::empty()
    } else {
        cr_all(ls.drop_last()).push(strip_cr(ls.last()))
    }
}

proof fn lemma_sig_cr_all(ls: Seq<Seq<char>>)
    ensures
        sig(cr_all(ls)) == sig(ls),
    decreases ls.len(),
{
    if ls.len() > 0 {
        lemma_sig_cr_all(ls.drop_last());
        lemma_trim_strip_cr(ls.last());
        assert(cr_all(ls).drop_last() =~= cr_all(ls.drop_last()));
    }
}

proof fn lemma_strip_cr_nn(l: Seq<char>)
    requires
        no_newline(l),
    ensures
        no_newline(strip_cr(l)),
{
    if l.len() > 0 && l.last() == '\r' {
        assert forall|i: int| 0 <= i < strip_cr(l).len() implies strip_cr(l)[i] != '\n' by {
            assert(strip_cr(l)[i] == l[i]);
        }
    }
}

/// The lines `str::lines` produces hold no line feed.
proof fn lemma_split_nn(s: Seq<char>)
    ensures
        all_nn(split_state(s).0),
        no_newline(split_state(s).1),
    decreases s.len(),
{
    if s.len() > 0 {
        lemma_split_nn(s.drop_last());
        let prev = split_state(s.drop_last());
        if s.last() == '\n' {
            lemma_strip_cr_nn(prev.1);
            assert forall|i: int| 0 <= i < split_state(s).0.len() implies no_newline(
                #[trigger] split_state(s).0[i],
            ) by {
                if i < prev.0.len() {
                    assert(split_state(s).0[i] == prev.0[i]);
                }
            }
        } else {
            assert forall|i: int| 0 <= i < split_state(s).1.len() implies split_state(s).1[i]
                != '\n' by {
                if i < prev.1.len() {
                    assert(split_state(s).1[i] == prev.1[i]);
                }
            }
        }
    }
}

proof fn lemma_lines_nn(s: Seq<char>)
    ensures
        all_nn(lines(s)),
{
    lemma_split_nn(s);
    let st = split_state(s);
    if st.1.len() > 0 {
        assert forall|i: int| 0 <= i < lines(s).len() implies no_newline(#[trigger] lines(s)[i]) by {
            if i < st.0.len() {
                assert(lines(s)[i] == st.0[i]);
            }
        }
    }
}

/// Joining lines with line feeds and ending with one, then splitting again,
/// gives the lines back (less a trailing carriage return each).
proof fn lemma_join_split(ls: Seq<Seq<char>>)
    requires
        ls.len() > 0,
        all_nn(ls),
    ensures
        split_state(join_lines(ls) + seq!['\n']) == (cr_all(ls), Seq::<char>::empty()),
    decreases ls.len(),
{
    let l = ls.last();
    assert(no_newline(ls[ls.len() - 1]));
    lemma_split_line(l);
    let t = l + seq!['\n'];
    assert(t.drop_last() =~= l);
    assert(split_state(t) == (Seq::<Seq<char>>::empty().push(strip_cr(l)), Seq::<char>::empty()));
    if ls.len() == 1 {
        assert(join_lines(ls) == ls[0]);
        assert(cr_all(ls) =~= Seq::<Seq<char>>::empty().push(strip_cr(l)));
    } else {
        let prefix = ls.drop_last();
        assert(all_nn(prefix)) by {
            assert forall|i: int| 0 <= i < prefix.len() implies no_newline(#[trigger] prefix[i]) by {
                assert(prefix[i] == ls[i]);
            }
        }
        lemma_join_split(prefix);
        let a = join_lines(prefix) + seq!['\n'];
        assert(join_lines(ls) + seq!['\n'] =~= a + t);
        lemma_split_concat(a, t);
        assert(cr_all(prefix) + Seq::<Seq<char>>::empty().push(strip_cr(l)) =~= cr_all(ls));
    }
}

/// What `str::lines` makes of `s` and of `s` with one more line feed has the
/// same non-blank lines.
proof fn lemma_sig_lines_newline(s: Seq<char>)
    ensures
        sig(lines(s.push('\n'))) == sig(lines(s)),
{
    assert(s.push('\n').drop_last() =~= s);
    let prev = split_state(s);
    assert(split_state(s.push('\n')) == (prev.0.push(strip_cr(prev.1)), Seq::<char>::empty()));
    lemma_trim_strip_cr(prev.1);
    if prev.1.len() == 0 {
        assert(trim(prev.1) =~= Seq::<char>::empty());
        assert(prev.0.push(strip_cr(prev.1)).drop_last() =~= prev.0);
    } else {
        assert(prev.0.push(strip_cr(prev.1)).drop_last() =~= prev.0);
        assert(prev.0.push(prev.1).drop_last() =~= prev.0);
    }
}

// ---------------------------------------------------------------------
// The parser with diagnostics left aside
// ---------------------------------------------------------------------

/// One trimmed line's effect on the rc and the current section.
pub open spec fn core_t(st: (RcView, Section), t: Seq<char>) -> (RcView, Section) {
    let r = rc_step((st.0, Seq::empty(), st.1), t, 0);
    (r.0, r.2)
}

/// Trimmed lines `ts` applied in order to `st`.
pub open spec fn core_from(st: (RcView, Section), ts: Seq<Seq<char>>) -> (RcView, Section)
    decreases ts.len(),
{
    if ts.len() == 0 {
        st
    } else {
        core_t(core_from(st, ts.drop_last()), ts.last())
    }
}

pub open spec fn core_init() -> (RcView, Section) {
    (empty_rc(), Section::Base)
}

proof fn lemma_core_from_concat(st: (RcView, Section), a: Seq<Seq<char>>, b: Seq<Seq<char>>)
    ensures
        core_from(st, a + b) == core_from(core_from(st, a), b),
    decreases b.len(),
{
    if b.len() == 0 {
        assert(a + b =~= a);
    } else {
        assert((a + b).drop_last() =~= a + b.drop_last());
        assert((a + b).last() == b.last());
        lemma_core_from_concat(st, a, b.drop_last());
    }
}

/// The rc and section after one raw line depend only on its trim, and not
/// on the diagnostics so far nor on the line number.
proof fn lemma_step_proj(
    st: (RcView, Seq<(int, crate::theme::parse::DropView)>, Section),
    raw: Seq<char>,
    n: int,
)
    requires
        trim(raw).len() > 0,
    ensures
        (rc_step(st, raw, n).0, rc_step(st, raw, n).2) == core_t((st.0, st.2), trim(raw)),
{
    lemma_trim_idempotent(raw);
}

/// Parsing lines yields the rc and section that their non-blank trimmed
/// lines give.
proof fn lemma_fold_sig(ls: Seq<Seq<char>>)
    ensures
        (rc_fold(ls).0, rc_fold(ls).2) == core_from(core_init(), sig(ls)),
    decreases ls.len(),
{
    if ls.len() > 0 {
        lemma_fold_sig(ls.drop_last());
        let t = trim(ls.last());
        if t.len() > 0 {
            lemma_step_proj(rc_fold(ls.drop_last()), ls.last(), ls.len() as int);
            assert(sig(ls).drop_last() =~= sig(ls.drop_last()));
        }
    }
}

// ---------------------------------------------------------------------
// The new extends block
// ---------------------------------------------------------------------

/// A line of the new extends block: its own trim, an `extends*`
/// assignment, not a section header, not ending in a carriage return.
pub open spec fn block_line(t: Seq<char>) -> bool {
    &&& t.len() > 0
    &&& trim(t) == t
    &&& is_extends_line(t)
    &&& !is_header(t)
    &&& !(t.last() == '\r')
}

/// A valid theme name holds no line feed and has no whitespace at its ends.
proof fn lemma_valid_name_chars(n: Seq<char>)
    requires
        is_valid_name(n),
    ensures
        no_newline(n),
        n.len() > 0,
        !is_ws(n[0]),
        !is_ws(n.last()),
{
    lemma_first_disallowed(n);
    assert forall|i: int| 0 <= i < n.len() implies n[i] != '\n' by {
        assert(name_char_allowed(n[i]));
    }
}

/// `key = name`, for an `extends*` key and a valid name, is its own trim and
/// sets that `extends*` slot when read in the base section.
proof fn lemma_extends_line(st: (RcView, Section), key: Seq<char>, slot: int, n: Seq<char>)
    requires
        st.1 == Section::Base,
        is_valid_name(n),
        extends_slot(key) == Some(slot),
        key.len() > 0,
        key[0] != '#',
        key[0] != '[',
        forall|j: int| 0 <= j < key.len() ==> !is_ws(#[trigger] key[j]) && key[j] != '=' && key[j]
            != '\n',
    ensures
        ({
            let t = key + " = "@ + n;
            &&& trim(t) == t
            &&& no_newline(t)
            &&& core_t(st, t) == (set_extends(st.0, slot, n), Section::Base)
            &&& block_line(t)
        }),
{
    reveal_strlit(" = ");
    lemma_valid_name_chars(n);
    let t = key + " = "@ + n;
    let k = key.len() as int;
    assert(t[0] == key[0]);
    assert(t.last() == n.last());
    lemma_trim_exact(t);
    assert forall|i: int| 0 <= i < t.len() implies t[i] != '\n' by {
        if i < k {
            assert(t[i] == key[i]);
        } else if i >= k + 3 {
            assert(t[i] == n[i - k - 3]);
        }
    }
    assert forall|j: int| 0 <= j < k + 1 implies t[j] != '=' by {
        if j < k {
            assert(t[j] == key[j]);
        }
    }
    lemma_index_of_is(t, '=', k + 1);
    let head = t.take(k + 1);
    assert(head.drop_last() =~= key);
    lemma_trim_drop_ws(head);
    lemma_trim_exact(key);
    let tail = t.skip(k + 2);
    assert(tail.drop_first() =~= n);
    assert(trim_start(tail) == trim_start(n));
    assert(trim_start(n) == n);
    lemma_trim_exact(n);
    assert(trim(tail) == n);
    assert(key_value(t) == Some((key, n)));
    assert(section_name(t) is None);
    assert(name_check(n) == Ok::<Seq<char>, crate::theme::model::NameErrorView>(n));
    assert(is_extends_line(t));
    assert(is_ws('\r'));
}

pub open spec fn valid_opt(o: Option<Seq<char>>) -> bool {
    match o {
        Some(n) => is_valid_name(n),
        None => true,
    }
}

proof fn lemma_opt_line(
    st: (RcView, Section),
    key: Seq<char>,
    slot: int,
    o: Option<Seq<char>>,
)
    requires
        st.1 == Section::Base,
        valid_opt(o),
        extends_slot(key) == Some(slot),
        key.len() > 0,
        key[0] != '#',
        key[0] != '[',
        forall|j: int| 0 <= j < key.len() ==> !is_ws(#[trigger] key[j]) && key[j] != '=' && key[j]
            != '\n',
    ensures
        all_nn(opt_line(key + " = "@, o)),
        forall|i: int| 0 <= i < opt_line(key + " = "@, o).len() ==> block_line(
            #[trigger] opt_line(key + " = "@, o)[i],
        ),
        core_from(st, sig(opt_line(key + " = "@, o))) == (match o {
            Some(n) => (set_extends(st.0, slot, n), Section::Base),
            None => st,
        }),
{
    match o {
        Some(n) => {
            lemma_extends_line(st, key, slot, n);
            let ls = opt_line(key + " = "@, o);
            let t = key + " = "@ + n;
            assert(ls.last() == t);
            assert(ls.drop_last() =~= Seq::<Seq<char>>::empty());
            assert(sig(ls.drop_last()) == Seq::<Seq<char>>::empty());
            assert(t.len() > 0);
            assert(sig(ls) == Seq::<Seq<char>>::empty().push(t));
            assert(sig(ls).drop_last() =~= Seq::<Seq<char>>::empty());
            assert(sig(ls).last() == t);
            assert(core_from(st, Seq::<Seq<char>>::empty()) == st);
        },
        None => {},
    }
}

/// The block of new `extends*` lines, read from the start, sets exactly
/// those slots.
proof fn lemma_block(both: Option<Seq<char>>, dark: Option<Seq<char>>, light: Option<Seq<char>>)
    requires
        valid_opt(both),
        valid_opt(dark),
        valid_opt(light),
    ensures
        all_nn(extends_block(both, dark, light)),
        forall|i: int| 0 <= i < extends_block(both, dark, light).len() ==> block_line(
            #[trigger] extends_block(both, dark, light)[i],
        ),
        core_from(core_init(), sig(extends_block(both, dark, light))) == (
            RcView { extends: both, extends_dark: dark, extends_light: light, ..empty_rc() },
            Section::Base,
        ),
{
    reveal_strlit("extends");
    reveal_strlit("extends.dark");
    reveal_strlit("extends.light");
    reveal_strlit("extends = ");
    reveal_strlit("extends.dark = ");
    reveal_strlit("extends.light = ");
    reveal_strlit(" = ");
    let k0 = "extends"@;
    let k1 = "extends.dark"@;
    let k2 = "extends.light"@;
    assert("extends = "@ =~= k0 + " = "@);
    assert("extends.dark = "@ =~= k1 + " = "@);
    assert("extends.light = "@ =~= k2 + " = "@);
    assert(extends_slot(k0) == Some(0int));
    assert(extends_slot(k1) == Some(1int));
    assert(extends_slot(k2) == Some(2int));
    let a = opt_line("extends = "@, both);
    let b = opt_line("extends.dark = "@, dark);
    let c = opt_line("extends.light = "@, light);
    let s0 = core_init();
    lemma_opt_line(s0, k0, 0, both);
    let s1 = core_from(s0, sig(a));
    lemma_opt_line(s1, k1, 1, dark);
    let s2 = core_from(s1, sig(b));
    lemma_opt_line(s2, k2, 2, light);
    lemma_sig_concat(a, b);
    lemma_sig_concat(a + b, c);
    lemma_core_from_concat(s0, sig(a), sig(b));
    lemma_core_from_concat(s0, sig(a) + sig(b), sig(c));
    assert(extends_block(both, dark, light) == a + b + c);
    assert forall|i: int| 0 <= i < (a + b + c).len() implies no_newline(#[trigger] (a + b + c)[i])
        && block_line((a + b + c)[i]) by {
        if i < a.len() {
            assert((a + b + c)[i] == a[i]);
        } else if i < a.len() + b.len() {
            assert((a + b + c)[i] == b[i - a.len()]);
        } else {
            assert((a + b + c)[i] == c[i - a.len() - b.len()]);
        }
    }
}

// ---------------------------------------------------------------------
// Kept lines read as before
// ---------------------------------------------------------------------

/// Two rcs that agree everywhere but in the `extends*` slots.
pub open spec fn same_layers(a: RcView, b: RcView) -> bool {
    a.base == b.base && a.dark == b.dark && a.light == b.light
}

/// Two rcs that agree in the `extends*` slots.
pub open spec fn same_extends(a: RcView, b: RcView) -> bool {
    a.extends == b.extends && a.extends_dark == b.extends_dark && a.extends_light == b.extends_light
}

proof fn lemma_trim_head(x: Seq<char>)
    requires
        x.len() > 0,
        !is_ws(x[0]),
    ensures
        trim(x).len() > 0,
        trim(x)[0] == x[0],
{
    assert(trim_start(x) == x);
    lemma_trim_end_prefix(x);
}

/// An `extends*` line starts with the key's first letter.
proof fn lemma_extends_line_head(t: Seq<char>)
    requires
        trim(t) == t,
        is_extends_line(t),
    ensures
        t[0] == 'e',
{
    reveal_strlit("extends");
    reveal_strlit("extends.dark");
    reveal_strlit("extends.light");
    lemma_index_of(t, '=');
    let eq = index_of(t, '=');
    let key = trim(t.take(eq as int));
    assert(key.len() > 0);
    if eq == 0 {
        assert(t.take(0) =~= Seq::<char>::empty());
        assert(trim(Seq::<char>::empty()) =~= Seq::<char>::empty());
    }
    lemma_trim_start_head(t);
    lemma_trim_end_prefix(trim_start(t));
    assert(!is_ws(t[0]));
    lemma_trim_head(t.take(eq as int));
    assert(key[0] == 'e');
}

/// Reading an `extends*` line in the base section leaves the layers and the
/// section as they were.
proof fn lemma_core_extends_line(st: (RcView, Section), t: Seq<char>)
    requires
        st.1 == Section::Base,
        trim(t) == t,
        is_extends_line(t),
    ensures
        core_t(st, t).1 == Section::Base,
        same_layers(core_t(st, t).0, st.0),
{
    lemma_extends_line_head(t);
    assert(section_name(t) is None);
}

/// Any other line has the same effect on two states that share the section
/// and the layers, and leaves the `extends*` slots alone.
proof fn lemma_core_congruent(st: (RcView, Section), st2: (RcView, Section), t: Seq<char>)
    requires
        trim(t) == t,
        st.1 == st2.1,
        same_layers(st.0, st2.0),
        !(st.1 == Section::Base && is_extends_line(t)),
    ensures
        core_t(st, t).1 == core_t(st2, t).1,
        same_layers(core_t(st, t).0, core_t(st2, t).0),
        same_extends(core_t(st, t).0, st.0),
        same_extends(core_t(st2, t).0, st2.0),
        st.1 == Section::Base && !is_header(t) ==> core_t(st, t).1 == Section::Base,
        st.1 != Section::Base || is_header(t) ==> core_t(st, t).1 != Section::Base,
{
    if st.1 == Section::Base && t.len() > 0 && t[0] != '#' && section_name(t) is None {
        match key_value(t) {
            Some(kv) => {
                lemma_index_of(t, '=');
                assert(extends_slot(kv.0) is None);
            },
            None => {},
        }
    }
}

/// Reading the kept base lines and the section lines after a block that
/// only sets `extends*` slots gives the layers and the section that reading
/// all the lines before the rewrite gives, and keeps the block's `extends*` slots.
proof fn lemma_partition(ls: Seq<Seq<char>>, k: (RcView, Section))
    requires
        k.1 == Section::Base,
        same_layers(k.0, empty_rc()),
    ensures
        ({
            let p = partition(ls);
            let f = core_from(core_init(), sig(ls));
            let g = core_from(k, sig(p.0) + sig(p.1));
            &&& g.1 == f.1
            &&& same_layers(g.0, f.0)
            &&& same_extends(g.0, k.0)
            &&& p.2 ==> f.1 == Section::Base && p.1.len() == 0
            &&& !p.2 ==> f.1 != Section::Base
        }),
    decreases ls.len(),
{
    if ls.len() == 0 {
        assert(sig(Seq::<Seq<char>>::empty()) + sig(Seq::<Seq<char>>::empty()) =~= Seq::<
            Seq<char>,
        >::empty());
    } else {
        let prev_ls = ls.drop_last();
        lemma_partition(prev_ls, k);
        let prev = partition(prev_ls);
        let line = ls.last();
        let t = trim(line);
        lemma_trim_idempotent(line);
        let f0 = core_from(core_init(), sig(prev_ls));
        let g0 = core_from(k, sig(prev.0) + sig(prev.1));
        let p = partition(ls);
        if t.len() > 0 {
            assert(sig(ls) == sig(prev_ls).push(t));
            assert(sig(prev_ls).push(t).drop_last() =~= sig(prev_ls));
        } else {
            assert(sig(ls) == sig(prev_ls));
        }
        if prev.2 && !is_header(t) {
            if is_extends_line(t) {
                lemma_core_extends_line(f0, t);
            } else {
                assert(prev.1.len() == 0);
                assert(p.0 == prev.0.push(line));
                assert(p.0.drop_last() =~= prev.0);
                assert(sig(p.1) =~= Seq::<Seq<char>>::empty());
                assert(sig(prev.0) + sig(prev.1) =~= sig(prev.0));
                assert(sig(p.0) + sig(p.1) =~= sig(p.0));
                if t.len() > 0 {
                    lemma_core_congruent(g0, f0, t);
                    assert(sig(p.0).drop_last() =~= sig(prev.0));
                }
            }
        } else {
            assert(p.1 == prev.1.push(line));
            assert(p.1.drop_last() =~= prev.1);
            if t.len() > 0 {
                if is_extends_line(t) {
                    lemma_extends_line_head(t);
                }
                lemma_core_congruent(g0, f0, t);
                assert(sig(p.1) == sig(prev.1).push(t));
                assert(sig(p.0) + sig(p.1) =~= (sig(prev.0) + sig(prev.1)).push(t));
                assert((sig(prev.0) + sig(prev.1)).push(t).drop_last() =~= sig(prev.0) + sig(
                    prev.1,
                ));
            } else {
                assert(sig(p.1) == sig(prev.1));
            }
        }
    }
}

// ---------------------------------------------------------------------
// Putting the output together
// ---------------------------------------------------------------------

proof fn lemma_nn_concat(a: Seq<Seq<char>>, b: Seq<Seq<char>>)
    requires
        all_nn(a),
        all_nn(b),
    ensures
        all_nn(a + b),
{
    assert forall|i: int| 0 <= i < (a + b).len() implies no_newline(#[trigger] (a + b)[i]) by {
        if i < a.len() {
            assert((a + b)[i] == a[i]);
        } else {
            assert((a + b)[i] == b[i - a.len()]);
        }
    }
}

proof fn lemma_nn_push(a: Seq<Seq<char>>, l: Seq<char>)
    requires
        all_nn(a),
        no_newline(l),
    ensures
        all_nn(a.push(l)),
{
    assert forall|i: int| 0 <= i < a.push(l).len() implies no_newline(#[trigger] a.push(l)[i]) by {
        if i < a.len() {
            assert(a.push(l)[i] == a[i]);
        }
    }
}

proof fn lemma_nn_drop_last(a: Seq<Seq<char>>)
    requires
        all_nn(a),
        a.len() > 0,
    ensures
        all_nn(a.drop_last()),
        no_newline(a.last()),
{
    assert(no_newline(a[a.len() - 1]));
    assert forall|i: int| 0 <= i < a.drop_last().len() implies no_newline(
        #[trigger] a.drop_last()[i],
    ) by {
        assert(a.drop_last()[i] == a[i]);
    }
}

proof fn lemma_partition_nn(ls: Seq<Seq<char>>)
    requires
        all_nn(ls),
    ensures
        all_nn(partition(ls).0),
        all_nn(partition(ls).1),
    decreases ls.len(),
{
    if ls.len() > 0 {
        lemma_nn_drop_last(ls);
        lemma_partition_nn(ls.drop_last());
        let prev = partition(ls.drop_last());
        lemma_nn_push(prev.0, ls.last());
        lemma_nn_push(prev.1, ls.last());
    }
}

proof fn lemma_drop_trailing_blank(s: Seq<Seq<char>>)
    requires
        all_nn(s),
    ensures
        all_nn(drop_trailing_blank(s)),
        sig(drop_trailing_blank(s)) == sig(s),
    decreases s.len(),
{
    if s.len() > 0 && trim(s.last()).len() == 0 {
        lemma_nn_drop_last(s);
        lemma_drop_trailing_blank(s.drop_last());
    }
}

proof fn lemma_sig_blank_push(a: Seq<Seq<char>>)
    ensures
        sig(a.push(Seq::empty())) == sig(a),
{
    assert(trim(Seq::<char>::empty()) =~= Seq::<char>::empty());
    assert(a.push(Seq::empty()).drop_last() =~= a);
}

proof fn lemma_assemble(block: Seq<Seq<char>>, base: Seq<Seq<char>>, sections: Seq<Seq<char>>)
    requires
        all_nn(block),
        all_nn(base),
        all_nn(sections),
    ensures
        all_nn(assemble(block, base, sections)),
        sig(assemble(block, base, sections)) == sig(block) + sig(base) + sig(sections),
{
    let empty = Seq::<char>::empty();
    assert(no_newline(empty));
    let with_base = if base.len() > 0 {
        if block.len() > 0 {
            block.push(empty) + base
        } else {
            base
        }
    } else {
        block
    };
    lemma_nn_push(block, empty);
    lemma_sig_blank_push(block);
    lemma_nn_concat(block.push(empty), base);
    lemma_sig_concat(block.push(empty), base);
    lemma_sig_concat(block, base);
    assert(sig(base).len() == 0 ==> sig(block) + sig(base) =~= sig(block));
    if base.len() == 0 {
        assert(sig(base) =~= Seq::<Seq<char>>::empty());
    }
    if block.len() == 0 {
        assert(sig(block) =~= Seq::<Seq<char>>::empty());
        assert(sig(block) + sig(base) =~= sig(base));
    }
    assert(all_nn(with_base));
    assert(sig(with_base) == sig(block) + sig(base));
    lemma_nn_push(with_base, empty);
    lemma_sig_blank_push(with_base);
    lemma_nn_concat(with_base.push(empty), sections);
    lemma_sig_concat(with_base.push(empty), sections);
    lemma_nn_concat(with_base, sections);
    lemma_sig_concat(with_base, sections);
    if sections.len() == 0 {
        assert(sig(sections) =~= Seq::<Seq<char>>::empty());
        assert(sig(block) + sig(base) + sig(sections) =~= sig(block) + sig(base));
    }
}

proof fn lemma_drop_leading_blank(s: Seq<Seq<char>>)
    requires
        all_nn(s),
    ensures
        all_nn(drop_leading_blank(s)),
        sig(drop_leading_blank(s)) == sig(s),
        drop_leading_blank(s).len() <= s.len(),
        drop_leading_blank(s) == s.skip(s.len() - drop_leading_blank(s).len()),
        drop_leading_blank(s).len() > 0 ==> trim(drop_leading_blank(s)[0]).len() > 0,
    decreases s.len(),
{
    if s.len() > 0 && trim(s[0]).len() == 0 {
        let t = s.drop_first();
        assert(all_nn(t)) by {
            assert forall|i: int| 0 <= i < t.len() implies no_newline(#[trigger] t[i]) by {
                assert(t[i] == s[i + 1]);
            }
        }
        lemma_drop_leading_blank(t);
        assert(s =~= seq![s[0]] + t);
        lemma_sig_concat(seq![s[0]], t);
        assert(seq![s[0]].drop_last() =~= Seq::<Seq<char>>::empty());
        assert(sig(seq![s[0]]) == sig(Seq::<Seq<char>>::empty()));
        assert(sig(Seq::<Seq<char>>::empty()) + sig(t) =~= sig(t));
        assert(t.skip(t.len() - drop_leading_blank(t).len()) =~= s.skip(
            s.len() - drop_leading_blank(s).len(),
        ));
    } else {
        assert(s.skip(0) =~= s);
    }
}

/// What the rewrite writes back of the kept base lines reads as they do.
proof fn lemma_written_base(kept: Seq<Seq<char>>, block: Seq<Seq<char>>)
    requires
        all_nn(kept),
    ensures
        all_nn(written_base(kept, block)),
        sig(written_base(kept, block)) == sig(kept),
{
    lemma_drop_trailing_blank(kept);
    if block.len() > 0 {
        lemma_drop_leading_blank(drop_trailing_blank(kept));
    }
}

/// Reading back a rewritten rc: the `extends*` slots are exactly the ones
/// that were asked for (absent ones are cleared), and the base, `[dark]` and
/// `[light]` layers are those of the rc before the rewrite. Names must be
/// valid theme names, as `ThemeName` guarantees.
pub proof fn lemma_rewrite_then_parse(
    existing: Seq<char>,
    both: Option<Seq<char>>,
    dark: Option<Seq<char>>,
    light: Option<Seq<char>>,
)
    requires
        valid_opt(both),
        valid_opt(dark),
        valid_opt(light),
    ensures
        rc_parse(rewritten(existing, both, dark, light)).0 == (RcView {
            extends: both,
            extends_dark: dark,
            extends_light: light,
            ..rc_parse(existing).0
        }),
{
    let ls = lines(existing);
    lemma_lines_nn(existing);
    let p = partition(ls);
    lemma_partition_nn(ls);
    let block = extends_block(both, dark, light);
    let base = written_base(p.0, block);
    lemma_written_base(p.0, block);
    lemma_block(both, dark, light);
    let k = core_from(core_init(), sig(block));
    let out = assemble(block, base, p.1);
    lemma_assemble(block, base, p.1);
    let joined = join_lines(out);
    let r = rewritten(existing, both, dark, light);
    if out.len() == 0 {
        assert(joined.len() == 0);
        assert(r.len() == 0);
        assert(sig(out) =~= Seq::<Seq<char>>::empty());
    } else {
        lemma_join_split(out);
        lemma_sig_cr_all(out);
        assert(joined + seq!['\n'] =~= joined.push('\n'));
        assert(sig(lines(joined.push('\n'))) == sig(out));
        if r != joined.push('\n') {
            lemma_sig_lines_newline(joined);
        }
    }
    assert(sig(lines(r)) == sig(out));
    lemma_fold_sig(lines(r));
    lemma_fold_sig(ls);
    assert(sig(out) =~= sig(block) + (sig(p.0) + sig(p.1)));
    lemma_core_from_concat(core_init(), sig(block), sig(p.0) + sig(p.1));
    lemma_partition(ls, k);
}

/// Rewriting an rc a second time with the same names reads back the same
/// as rewriting it once.
pub proof fn lemma_rewrite_twice_reads_same(
    existing: Seq<char>,
    both: Option<Seq<char>>,
    dark: Option<Seq<char>>,
    light: Option<Seq<char>>,
)
    requires
        valid_opt(both),
        valid_opt(dark),
        valid_opt(light),
    ensures
        rc_parse(rewritten(rewritten(existing, both, dark, light), both, dark, light)).0
            == rc_parse(rewritten(existing, both, dark, light)).0,
{
    lemma_rewrite_then_parse(existing, both, dark, light);
    lemma_rewrite_then_parse(rewritten(existing, both, dark, light), both, dark, light);
}

// ---------------------------------------------------------------------
// Rewriting twice
// ---------------------------------------------------------------------

/// A line that ends in a carriage return (one that `str::lines` would strip
/// on the next read).
pub open spec fn ends_cr(l: Seq<char>) -> bool {
    l.len() > 0 && l.last() == '\r'
}

/// The lines of `ls` that are not `extends*` assignments.
pub open spec fn keep_base(ls: Seq<Seq<char>>) -> Seq<Seq<char>>
    decreases ls.len(),
{
    if ls.len() == 0 {
        Seq::empty()
    } else if is_extends_line(trim(ls.last())) {
        keep_base(ls.drop_last())
    } else {
        keep_base(ls.drop_last()).push(ls.last())
    }
}

proof fn lemma_keep_concat(a: Seq<Seq<char>>, b: Seq<Seq<char>>)
    ensures
        keep_base(a + b) == keep_base(a) + keep_base(b),
    decreases b.len(),
{
    if b.len() == 0 {
        assert(a + b =~= a);
        assert(keep_base(a) + keep_base(b) =~= keep_base(a));
    } else {
        assert((a + b).drop_last() =~= a + b.drop_last());
        assert((a + b).last() == b.last());
        lemma_keep_concat(a, b.drop_last());
        assert((keep_base(a) + keep_base(b.drop_last())).push(b.last()) =~= keep_base(a) + keep_base(
            b.drop_last(),
        ).push(b.last()));
    }
}

/// Lines that are neither headers nor `extends*` assignments.
pub open spec fn plain_lines(ls: Seq<Seq<char>>) -> bool {
    forall|i: int|
        0 <= i < ls.len() ==> !is_header(trim(#[trigger] ls[i])) && !is_extends_line(trim(ls[i]))
}

proof fn lemma_keep_plain(ls: Seq<Seq<char>>)
    requires
        plain_lines(ls),
    ensures
        keep_base(ls) == ls,
    decreases ls.len(),
{
    if ls.len() > 0 {
        assert(plain_lines(ls.drop_last())) by {
            assert forall|i: int| 0 <= i < ls.drop_last().len() implies !is_header(
                trim(#[trigger] ls.drop_last()[i]),
            ) && !is_extends_line(trim(ls.drop_last()[i])) by {
                assert(ls.drop_last()[i] == ls[i]);
            }
        }
        lemma_keep_plain(ls.drop_last());
        assert(ls[ls.len() - 1] == ls.last());
        assert(ls.drop_last().push(ls.last()) =~= ls);
    }
}

proof fn lemma_keep_block(ls: Seq<Seq<char>>)
    requires
        forall|i: int| 0 <= i < ls.len() ==> block_line(#[trigger] ls[i]),
    ensures
        keep_base(ls) == Seq::<Seq<char>>::empty(),
    decreases ls.len(),
{
    if ls.len() > 0 {
        assert(block_line(ls[ls.len() - 1]));
        lemma_keep_block(ls.drop_last());
    }
}

/// With no header among the lines, every line stays in the base section.
proof fn lemma_partition_no_header(ls: Seq<Seq<char>>)
    requires
        forall|i: int| 0 <= i < ls.len() ==> !is_header(trim(#[trigger] ls[i])),
    ensures
        partition(ls) == (keep_base(ls), Seq::<Seq<char>>::empty(), true),
    decreases ls.len(),
{
    if ls.len() > 0 {
        lemma_partition_no_header(ls.drop_last());
        assert(!is_header(trim(ls[ls.len() - 1])));
    }
}

/// Lines from a header on all land in the sections.
proof fn lemma_partition_sections(pre: Seq<Seq<char>>, q: Seq<Seq<char>>, b: Seq<Seq<char>>)
    requires
        partition(pre) == (b, Seq::<Seq<char>>::empty(), true),
        q.len() > 0,
        is_header(trim(q[0])),
    ensures
        partition(pre + q) == (b, q, false),
    decreases q.len(),
{
    if q.len() == 1 {
        assert((pre + q).drop_last() =~= pre);
        assert((pre + q).last() == q[0]);
        assert(Seq::<Seq<char>>::empty().push(q[0]) =~= q);
    } else {
        lemma_partition_sections(pre, q.drop_last(), b);
        assert((pre + q).drop_last() =~= pre + q.drop_last());
        assert((pre + q).last() == q.last());
        assert(q.drop_last().push(q.last()) =~= q);
    }
}

/// What the partition keeps in the base is plain; the sections start with
/// a header; while still in the base there are no sections.
proof fn lemma_partition_shape(ls: Seq<Seq<char>>)
    ensures
        plain_lines(partition(ls).0),
        partition(ls).1.len() > 0 ==> is_header(trim(partition(ls).1[0])),
        partition(ls).2 ==> partition(ls).1.len() == 0,
    decreases ls.len(),
{
    if ls.len() > 0 {
        lemma_partition_shape(ls.drop_last());
        let prev = partition(ls.drop_last());
        let p = partition(ls);
        assert forall|i: int| 0 <= i < p.0.len() implies !is_header(trim(#[trigger] p.0[i]))
            && !is_extends_line(trim(p.0[i])) by {
            if i < prev.0.len() {
                assert(p.0[i] == prev.0[i]);
            }
        }
        if p.1.len() > 0 && prev.1.len() > 0 {
            assert(p.1[0] == prev.1[0]);
        }
    }
}

proof fn lemma_dtb_plain(s: Seq<Seq<char>>)
    requires
        plain_lines(s),
    ensures
        plain_lines(drop_trailing_blank(s)),
        drop_trailing_blank(s).len() <= s.len(),
        drop_trailing_blank(drop_trailing_blank(s)) == drop_trailing_blank(s),
        drop_trailing_blank(s).len() > 0 ==> trim(drop_trailing_blank(s).last()).len() > 0,
        forall|i: int|
            0 <= i < drop_trailing_blank(s).len() ==> #[trigger] drop_trailing_blank(s)[i] == s[i],
    decreases s.len(),
{
    if s.len() > 0 && trim(s.last()).len() == 0 {
        assert(plain_lines(s.drop_last())) by {
            assert forall|i: int| 0 <= i < s.drop_last().len() implies !is_header(
                trim(#[trigger] s.drop_last()[i]),
            ) && !is_extends_line(trim(s.drop_last()[i])) by {
                assert(s.drop_last()[i] == s[i]);
            }
        }
        lemma_dtb_plain(s.drop_last());
        assert(drop_trailing_blank(s) == drop_trailing_blank(s.drop_last()));
        assert forall|i: int| 0 <= i < drop_trailing_blank(s).len() implies #[trigger] drop_trailing_blank(
            s,
        )[i] == s[i] by {
            assert(drop_trailing_blank(s.drop_last())[i] == s.drop_last()[i]);
            assert(s.drop_last()[i] == s[i]);
        }
    }
}

proof fn lemma_dtb_blank_push(s: Seq<Seq<char>>)
    ensures
        drop_trailing_blank(s.push(Seq::empty())) == drop_trailing_blank(s),
{
    assert(trim(Seq::<char>::empty()) =~= Seq::<char>::empty());
    assert(s.push(Seq::empty()).drop_last() =~= s);
}

proof fn lemma_cr_all_plain(ls: Seq<Seq<char>>)
    requires
        forall|i: int| 0 <= i < ls.len() ==> !ends_cr(#[trigger] ls[i]),
    ensures
        cr_all(ls) == ls,
    decreases ls.len(),
{
    if ls.len() > 0 {
        assert(!ends_cr(ls[ls.len() - 1]));
        lemma_cr_all_plain(ls.drop_last());
        assert(ls.drop_last().push(ls.last()) =~= ls);
    }
}

/// The joined text of lines whose last one is not empty ends with that
/// line's last character.
proof fn lemma_join_last(ls: Seq<Seq<char>>)
    requires
        ls.len() > 0,
        ls.last().len() > 0,
    ensures
        join_lines(ls).len() > 0,
        join_lines(ls).last() == ls.last().last(),
{
    if ls.len() == 1 {
        assert(join_lines(ls) == ls[0]);
    } else {
        let j = join_lines(ls.drop_last()) + seq!['\n'] + ls.last();
        assert(join_lines(ls) == j);
        assert(j.last() == ls.last().last());
    }
}

/// The inputs on which a second rewrite with the same names leaves the text
/// as the first one wrote it: no base line that the rewrite writes back
/// ends in a carriage return (the next read strips it), no section line
/// does either, and the sections do not end in two or more empty lines
/// (the text keeps only one of them).
pub open spec fn rewrite_stable(
    existing: Seq<char>,
    both: Option<Seq<char>>,
    dark: Option<Seq<char>>,
    light: Option<Seq<char>>,
) -> bool {
    let p = partition(lines(existing));
    let base = written_base(p.0, extends_block(both, dark, light));
    &&& forall|i: int| 0 <= i < base.len() ==> !ends_cr(#[trigger] base[i])
    &&& forall|i: int| 0 <= i < p.1.len() ==> !ends_cr(#[trigger] p.1[i])
    &&& !(p.1.len() >= 2 && p.1.last().len() == 0 && p.1[p.1.len() - 2].len() == 0)
}

/// The base lines a rewrite writes back are plain, end (and, under a
/// block, start) with a non-blank line, and are written back unchanged by
/// a second rewrite.
proof fn lemma_written_shape(kept: Seq<Seq<char>>, block: Seq<Seq<char>>)
    requires
        plain_lines(kept),
        all_nn(kept),
    ensures
        ({
            let base = written_base(kept, block);
            &&& plain_lines(base)
            &&& all_nn(base)
            &&& base.len() > 0 ==> trim(base.last()).len() > 0
            &&& block.len() > 0 && base.len() > 0 ==> trim(base[0]).len() > 0
            &&& drop_trailing_blank(base) == base
            &&& block.len() > 0 ==> drop_leading_blank(base) == base
        }),
{
    lemma_dtb_plain(kept);
    lemma_drop_trailing_blank(kept);
    let d = drop_trailing_blank(kept);
    let base = written_base(kept, block);
    if block.len() > 0 {
        lemma_drop_leading_blank(d);
        let k = d.len() - base.len();
        assert forall|i: int| 0 <= i < base.len() implies !is_header(trim(#[trigger] base[i]))
            && !is_extends_line(trim(base[i])) by {
            assert(base[i] == d[i + k]);
        }
        if base.len() > 0 {
            assert(base.last() == d.last());
            assert(drop_leading_blank(base) == base);
        }
    }
    if base.len() > 0 {
        assert(drop_trailing_blank(base) == base);
    }
}
/// The text of joined lines, with a final line feed added when missing.
pub open spec fn finish(joined: Seq<char>) -> Seq<char> {
    if joined.len() > 0 && joined.last() != '\n' {
        joined.push('\n')
    } else {
        joined
    }
}

/// `ls` without one trailing empty line.
pub open spec fn strip_empty_last(ls: Seq<Seq<char>>) -> Seq<Seq<char>> {
    if ls.len() > 0 && ls.last().len() == 0 {
        ls.drop_last()
    } else {
        ls
    }
}

/// Reading back finished joined lines gives the lines, less one trailing
/// empty line (the text cannot tell it from the final line feed).
proof fn lemma_lines_of_finished(out: Seq<Seq<char>>)
    requires
        all_nn(out),
        forall|i: int| 0 <= i < out.len() ==> !ends_cr(#[trigger] out[i]),
    ensures
        lines(finish(join_lines(out))) == strip_empty_last(out),
{
    let empty_lines = Seq::<Seq<char>>::empty();
    if out.len() == 0 {
        assert(join_lines(out) == Seq::<char>::empty());
        assert(split_state(Seq::<char>::empty()) == (empty_lines, Seq::<char>::empty()));
    } else if out.last().len() > 0 {
        lemma_join_last(out);
        assert(no_newline(out[out.len() - 1]));
        assert(join_lines(out).last() != '\n');
        lemma_join_split(out);
        assert(join_lines(out) + seq!['\n'] =~= join_lines(out).push('\n'));
        lemma_cr_all_plain(out);
    } else if out.len() == 1 {
        assert(join_lines(out) == out[0]);
        assert(out[0].len() == 0);
        assert(split_state(Seq::<char>::empty()) == (empty_lines, Seq::<char>::empty()));
        assert(out.drop_last() =~= empty_lines);
    } else {
        let rest = out.drop_last();
        assert(join_lines(out) == join_lines(rest) + seq!['\n'] + out.last());
        assert(join_lines(out) =~= join_lines(rest) + seq!['\n']);
        lemma_nn_drop_last(out);
        assert forall|i: int| 0 <= i < rest.len() implies !ends_cr(#[trigger] rest[i]) by {
            assert(rest[i] == out[i]);
        }
        lemma_join_split(rest);
        lemma_cr_all_plain(rest);
    }
}

/// The lines above the sections in the rewritten rc: the block or the kept
/// base lines, and the blank line that separates them from the sections.
pub open spec fn head_lines(block: Seq<Seq<char>>, base: Seq<Seq<char>>, sections: Seq<Seq<char>>) -> Seq<
    Seq<char>,
> {
    let with_base = if base.len() > 0 {
        if block.len() > 0 {
            block.push(Seq::empty()) + base
        } else {
            base
        }
    } else {
        block
    };
    if sections.len() > 0 && with_base.len() > 0 && trim(with_base.last()).len() != 0 {
        with_base.push(Seq::empty())
    } else {
        with_base
    }
}

proof fn lemma_assemble_split(block: Seq<Seq<char>>, base: Seq<Seq<char>>, sections: Seq<Seq<char>>)
    ensures
        assemble(block, base, sections) == head_lines(block, base, sections) + sections,
{
    if sections.len() == 0 {
        assert(head_lines(block, base, sections) + sections =~= head_lines(block, base, sections));
    }
}

/// Rewriting a second time with the same names gives back the very text
/// the first rewrite wrote, on the inputs of `rewrite_stable`.
pub proof fn lemma_rewrite_idempotent(
    existing: Seq<char>,
    both: Option<Seq<char>>,
    dark: Option<Seq<char>>,
    light: Option<Seq<char>>,
)
    requires
        valid_opt(both),
        valid_opt(dark),
        valid_opt(light),
        rewrite_stable(existing, both, dark, light),
    ensures
        rewritten(rewritten(existing, both, dark, light), both, dark, light) == rewritten(
            existing,
            both,
            dark,
            light,
        ),
{
    let empty = Seq::<char>::empty();
    let ls = lines(existing);
    lemma_lines_nn(existing);
    let p = partition(ls);
    lemma_partition_nn(ls);
    lemma_partition_shape(ls);
    let block = extends_block(both, dark, light);
    lemma_block(both, dark, light);
    let base = written_base(p.0, block);
    lemma_written_shape(p.0, block);
    let sec = p.1;
    let out = assemble(block, base, sec);
    lemma_assemble(block, base, sec);
    lemma_assemble_split(block, base, sec);
    let head = head_lines(block, base, sec);
    let r1 = rewritten(existing, both, dark, light);
    assert(r1 == finish(join_lines(out)));

    // Facts about the lines above the sections.
    let with_base = if base.len() > 0 {
        if block.len() > 0 {
            block.push(empty) + base
        } else {
            base
        }
    } else {
        block
    };
    let both_parts = block.len() > 0 && base.len() > 0;
    assert(trim(empty) =~= empty);
    assert(!is_extends_line(empty));
    assert(!is_header(empty));
    assert forall|i: int| 0 <= i < head.len() implies !is_header(trim(#[trigger] head[i])) && !ends_cr(
        head[i],
    ) by {
        if i < with_base.len() {
            if both_parts {
                if i < block.len() {
                    assert(head[i] == block[i]);
                    assert(block_line(block[i]));
                } else if i == block.len() {
                    assert(head[i] == empty);
                } else {
                    assert(head[i] == base[i - block.len() - 1]);
                }
            } else if base.len() > 0 {
                assert(head[i] == base[i]);
            } else {
                assert(head[i] == block[i]);
                assert(block_line(block[i]));
            }
        } else {
            assert(head[i] == empty);
        }
    }
    assert forall|i: int| 0 <= i < out.len() implies !ends_cr(#[trigger] out[i]) by {
        if i < head.len() {
            assert(out[i] == head[i]);
        } else {
            assert(out[i] == sec[i - head.len()]);
        }
    }

    // What the second rewrite reads.
    lemma_lines_of_finished(out);
    let sec1 = strip_empty_last(sec);
    assert(sec.len() > 0 ==> sec[0].len() > 0);
    assert(strip_empty_last(out) == head + sec1) by {
        if sec.len() > 0 {
            assert((head + sec).last() == sec.last());
            if sec.last().len() == 0 {
                assert((head + sec).drop_last() =~= head + sec.drop_last());
            }
        } else {
            assert(head + sec =~= head);
            if head.len() > 0 {
                if base.len() > 0 {
                    assert(head.last() == base.last());
                } else {
                    assert(head.last() == block[block.len() - 1]);
                    assert(block_line(block[block.len() - 1]));
                }
            }
            assert(head + sec1 =~= head);
        }
    }
    lemma_partition_no_header(head);
    let kept = keep_base(head);
    let one_blank = seq![empty];
    assert(keep_base(one_blank) =~= one_blank) by {
        assert(one_blank.drop_last() =~= Seq::<Seq<char>>::empty());
        assert(one_blank.last() == empty);
        assert(keep_base(Seq::<Seq<char>>::empty()) == Seq::<Seq<char>>::empty());
        assert(Seq::<Seq<char>>::empty().push(empty) =~= one_blank);
    }
    // The base lines that the second rewrite writes back.
    assert(written_base(kept, block) == base) by {
        let sep = sec.len() > 0 && with_base.len() > 0 && trim(with_base.last()).len() != 0;
        lemma_keep_block(block);
        let kw = keep_base(with_base);
        if both_parts {
            lemma_keep_plain(base);
            assert(block.push(empty) =~= block + one_blank);
            lemma_keep_concat(block, one_blank);
            lemma_keep_concat(block.push(empty), base);
            assert(kw =~= one_blank + base);
        } else if base.len() > 0 {
            lemma_keep_plain(base);
            assert(kw == base);
        } else {
            assert(kw == Seq::<Seq<char>>::empty());
        }
        if sep {
            lemma_keep_concat(with_base, one_blank);
            assert(with_base.push(empty) =~= with_base + one_blank);
            assert(kept =~= kw.push(empty));
            lemma_dtb_blank_push(kw);
        } else {
            assert(kept == kw);
        }
        assert(drop_trailing_blank(kept) == drop_trailing_blank(kw));
        if both_parts {
            assert((one_blank + base).last() == base.last());
            assert(drop_trailing_blank(kw) == kw);
            assert(kw[0] == empty);
            assert(kw.drop_first() =~= base);
            assert(drop_leading_blank(kw) == drop_leading_blank(base));
        } else if base.len() > 0 {
            assert(drop_trailing_blank(kw) == base);
        } else {
            assert(drop_trailing_blank(kw) == Seq::<Seq<char>>::empty());
            assert(drop_leading_blank(Seq::<Seq<char>>::empty()) == Seq::<Seq<char>>::empty());
        }
    }
    let p2 = partition(head + sec1);
    if sec1.len() > 0 {
        assert(sec1[0] == sec[0]);
        lemma_partition_sections(head, sec1, kept);
    } else {
        assert(head + sec1 =~= head);
    }
    assert(p2.0 == kept && p2.1 == sec1);
    let out2 = assemble(block, base, sec1);
    assert(rewritten(r1, both, dark, light) == finish(join_lines(out2)));
    if sec1 != sec {
        // One trailing empty line was dropped on the way.
        assert(sec.len() >= 2);
        assert(head_lines(block, base, sec1) == head);
        lemma_assemble_split(block, base, sec1);
        assert(out2 =~= out.drop_last());
        assert(out2.last() == sec[sec.len() - 2]);
        lemma_join_last(out2);
        lemma_nn_drop_last(out);
        assert(no_newline(out2[out2.len() - 1]));
        assert(join_lines(out) == join_lines(out2) + seq!['\n'] + out.last());
        assert(join_lines(out) =~= join_lines(out2).push('\n'));
    }
}

} // verus!
