//! Editing `.colorantrc` files in place.
//!
//! Shared between the interactive picker and the non-interactive
//! `themes apply` command — both need to splice the user's chosen
//! `extends` / `extends.dark` / `extends.light` keys into an existing rc
//! without disturbing other base-section keys or `[dark]` / `[light]`
//! sections.

use crate::text::{
    chars_of, copy_vec, deep, find_char, index_of, lemma_index_of, lines, lines_of, push_all, push_str,
    string_of, trim, trim_bounds, trim_slice, trim_vec,
};
use crate::theme::parse::extends_slot;
use vstd::prelude::*;

verus! {

/// A trimmed line that opens a section (`[...]`).
pub open spec fn is_header(t: Seq<char>) -> bool {
    t.len() > 0 && t[0] == '[' && t.last() == ']'
}

/// A trimmed line whose key (left of the first `=`) is one of the
/// `extends*` keys.
pub open spec fn is_extends_line(t: Seq<char>) -> bool {
    let eq = index_of(t, '=');
    eq < t.len() && extends_slot(trim(t.take(eq as int))) is Some
}

/// Split the rc's lines into the kept base lines (before the first section
/// header, minus every `extends*` line) and the section lines (from the
/// first header on). The flag says whether the scan is still in the base.
pub open spec fn partition(ls: Seq<Seq<char>>) -> (Seq<Seq<char>>, Seq<Seq<char>>, bool)
    decreases ls.len(),
{
    if ls.len() == 0 {
        (Seq::empty(), Seq::empty(), true)
    } else {
        let prev = partition(ls.drop_last());
        let line = ls.last();
        let t = trim(line);
        if prev.2 && !is_header(t) {
            if is_extends_line(t) {
                prev
            } else {
                (prev.0.push(line), prev.1, true)
            }
        } else {
            (prev.0, prev.1.push(line), false)
        }
    }
}

/// Drop blank (whitespace-only) lines from the end.
pub open spec fn drop_trailing_blank(s: Seq<Seq<char>>) -> Seq<Seq<char>>
    decreases s.len(),
{
    if s.len() > 0 && trim(s.last()).len() == 0 {
        drop_trailing_blank(s.drop_last())
    } else {
        s
    }
}

/// Drop blank (whitespace-only) lines from the start.
pub open spec fn drop_leading_blank(s: Seq<Seq<char>>) -> Seq<Seq<char>>
    decreases s.len(),
{
    if s.len() > 0 && trim(s[0]).len() == 0 {
        drop_leading_blank(s.drop_first())
    } else {
        s
    }
}

/// The base lines the rewrite writes back: the kept ones without trailing
/// blank lines, and, under a new extends block, without leading ones
/// either, so exactly one blank line separates the block from them however
/// often the rc is rewritten.
pub open spec fn written_base(kept: Seq<Seq<char>>, block: Seq<Seq<char>>) -> Seq<Seq<char>> {
    if block.len() > 0 {
        drop_leading_blank(drop_trailing_blank(kept))
    } else {
        drop_trailing_blank(kept)
    }
}

pub open spec fn opt_line(prefix: Seq<char>, name: Option<Seq<char>>) -> Seq<Seq<char>> {
    match name {
        Some(n) => seq![prefix + n],
        None => Seq::empty(),
    }
}

/// The new `extends*` lines, in the order `extends`, `extends.dark`,
/// `extends.light`.
pub open spec fn extends_block(
    both: Option<Seq<char>>,
    dark: Option<Seq<char>>,
    light: Option<Seq<char>>,
) -> Seq<Seq<char>> {
    opt_line("extends = "@, both) + opt_line("extends.dark = "@, dark) + opt_line(
        "extends.light = "@,
        light,
    )
}

/// The output lines: the extends block, then the kept base lines, then the
/// sections, with one blank line between non-empty groups (none before the
/// sections when the previous line is already blank).
pub open spec fn assemble(
    block: Seq<Seq<char>>,
    base: Seq<Seq<char>>,
    sections: Seq<Seq<char>>,
) -> Seq<Seq<char>> {
    let with_base = if base.len() > 0 {
        if block.len() > 0 {
            block.push(Seq::empty()) + base
        } else {
            base
        }
    } else {
        block
    };
    if sections.len() > 0 {
        if with_base.len() > 0 && trim(with_base.last()).len() != 0 {
            with_base.push(Seq::empty()) + sections
        } else {
            with_base + sections
        }
    } else {
        with_base
    }
}

/// `lines.join("\n")`.
pub open spec fn join_lines(ls: Seq<Seq<char>>) -> Seq<char>
    decreases ls.len(),
{
    if ls.len() == 0 {
        Seq::empty()
    } else if ls.len() == 1 {
        ls[0]
    } else {
        join_lines(ls.drop_last()) + seq!['\n'] + ls.last()
    }
}

/// The rewritten rc text.
pub open spec fn rewritten(
    existing: Seq<char>,
    both: Option<Seq<char>>,
    dark: Option<Seq<char>>,
    light: Option<Seq<char>>,
) -> Seq<char> {
    let parts = partition(lines(existing));
    let block = extends_block(both, dark, light);
    let out = assemble(block, written_base(parts.0, block), parts.1);
    let joined = join_lines(out);
    if joined.len() > 0 && joined.last() != '\n' {
        joined.push('\n')
    } else {
        joined
    }
}

pub open spec fn opt_view(o: Option<&str>) -> Option<Seq<char>> {
    match o {
        Some(s) => Some(s@),
        None => None,
    }
}

/// Whether the trimmed line `t` assigns one of the `extends*` keys.
fn extends_line(t: &Vec<char>) -> (r: bool)
    ensures
        r == is_extends_line(t@),
{
    proof {
        lemma_index_of(t@, '=');
    }
    match find_char(t, '=') {
        None => {
            assert(!is_extends_line(t@));
            false
        },
        Some(eq) => {
            let key = trim_slice(t, 0, eq);
            assert(t@.subrange(0, eq as int) =~= t@.take(eq as int));
            assert(key@ == trim(t@.take(eq as int)));
            let a = crate::text::eq_str(&key, "extends");
            let b = crate::text::eq_str(&key, "extends.dark");
            let c = crate::text::eq_str(&key, "extends.light");
            assert((a || b || c) == (extends_slot(key@) is Some));
            a || b || c
        },
    }
}

fn push_line(out: &mut Vec<Vec<char>>, prefix: &str, name: Option<&str>)
    ensures
        deep(final(out)@) == deep(old(out)@) + opt_line(prefix@, opt_view(name)),
{
    match name {
        Some(n) => {
            let mut line = chars_of(prefix);
            push_str(&mut line, n);
            out.push(line);
            assert(deep(out@) =~= deep(old(out)@) + opt_line(prefix@, opt_view(name)));
        },
        None => {
            assert(deep(out@) =~= deep(old(out)@) + opt_line(prefix@, opt_view(name)));
        },
    }
}

fn push_line_copy(out: &mut Vec<Vec<char>>, line: &Vec<char>)
    ensures
        deep(final(out)@) == deep(old(out)@).push(line@),
{
    let c = copy_vec(line);
    out.push(c);
    assert(deep(out@) =~= deep(old(out)@).push(line@));
}

fn append_lines(out: &mut Vec<Vec<char>>, more: &Vec<Vec<char>>)
    ensures
        deep(final(out)@) == deep(old(out)@) + deep(more@),
{
    let ghost start = deep(out@);
    let mut i: usize = 0;
    while i < more.len()
        invariant
            i <= more.len(),
            deep(out@) == start + deep(more@).take(i as int),
        decreases more.len() - i,
    {
        assert(deep(more@).take(i + 1) =~= deep(more@).take(i as int).push(more@[i as int]@));
        push_line_copy(out, &more[i]);
        i = i + 1;
    }
    assert(deep(more@).take(more.len() as int) =~= deep(more@));
}

/// The kept base lines and the section lines of `ls` (see `partition`).
fn partition_lines(ls: &Vec<Vec<char>>) -> (r: (Vec<Vec<char>>, Vec<Vec<char>>))
    ensures
        deep(r.0@) == drop_trailing_blank(partition(deep(ls@)).0),
        deep(r.1@) == partition(deep(ls@)).1,
{
    let ghost spec_lines = deep(ls@);
    let mut base_kept: Vec<Vec<char>> = Vec::new();
    let mut section_kept: Vec<Vec<char>> = Vec::new();
    let mut in_base = true;
    let mut i: usize = 0;
    assert(spec_lines.take(0) =~= Seq::<Seq<char>>::empty());
    assert(deep(base_kept@) =~= Seq::<Seq<char>>::empty());
    assert(deep(section_kept@) =~= Seq::<Seq<char>>::empty());
    while i < ls.len()
        invariant
            i <= ls.len(),
            spec_lines == deep(ls@),
            (deep(base_kept@), deep(section_kept@), in_base) == partition(
                spec_lines.take(i as int),
            ),
        decreases ls.len() - i,
    {
        assert(spec_lines.take(i + 1).drop_last() =~= spec_lines.take(i as int));
        assert(spec_lines.take(i + 1).last() == ls@[i as int]@);
        let line = &ls[i];
        let t = trim_vec(line);
        let n = t.len();
        if n > 0 && t[0] == '[' && t[n - 1] == ']' {
            in_base = false;
        }
        if in_base {
            if !extends_line(&t) {
                push_line_copy(&mut base_kept, line);
            }
        } else {
            push_line_copy(&mut section_kept, line);
        }
        i = i + 1;
    }
    assert(spec_lines.take(ls.len() as int) =~= spec_lines);
    let ghost parts = partition(spec_lines);
    // Trim trailing blank lines from base so we don't accumulate empty rows
    // between blocks on repeated applies.
    loop
        invariant
            drop_trailing_blank(deep(base_kept@)) == drop_trailing_blank(parts.0),
        ensures
            deep(base_kept@) == drop_trailing_blank(parts.0),
        decreases base_kept.len(),
    {
        let n = base_kept.len();
        if n == 0 {
            break;
        }
        let (a, b) = trim_bounds(&base_kept[n - 1]);
        if a != b {
            break;
        }
        assert(deep(base_kept@).drop_last() =~= deep(base_kept@.drop_last()));
        base_kept.pop();
    }
    (base_kept, section_kept)
}

/// `ls` without its leading blank lines.
fn without_leading_blank(ls: &Vec<Vec<char>>) -> (r: Vec<Vec<char>>)
    ensures
        deep(r@) == drop_leading_blank(deep(ls@)),
{
    let mut i: usize = 0;
    assert(deep(ls@).skip(0) =~= deep(ls@));
    while i < ls.len()
        invariant
            i <= ls.len(),
            drop_leading_blank(deep(ls@)) == drop_leading_blank(deep(ls@).skip(i as int)),
        ensures
            i <= ls.len(),
            drop_leading_blank(deep(ls@)) == drop_leading_blank(deep(ls@).skip(i as int)),
            i < ls.len() ==> trim(ls@[i as int]@).len() > 0,
        decreases ls.len() - i,
    {
        let (a, b) = trim_bounds(&ls[i]);
        if a != b {
            break;
        }
        assert(deep(ls@).skip(i as int).drop_first() =~= deep(ls@).skip(i + 1));
        assert(deep(ls@).skip(i as int)[0] == ls@[i as int]@);
        i = i + 1;
    }
    let mut out: Vec<Vec<char>> = Vec::new();
    let mut j: usize = i;
    assert(deep(out@) =~= deep(ls@).subrange(i as int, j as int));
    while j < ls.len()
        invariant
            i <= j <= ls.len(),
            deep(out@) == deep(ls@).subrange(i as int, j as int),
        decreases ls.len() - j,
    {
        push_line_copy(&mut out, &ls[j]);
        assert(deep(ls@).subrange(i as int, j + 1) =~= deep(ls@).subrange(i as int, j as int).push(
            ls@[j as int]@,
        ));
        j = j + 1;
    }
    assert(deep(ls@).subrange(i as int, ls.len() as int) =~= deep(ls@).skip(i as int));
    if i < ls.len() {
        assert(deep(ls@).skip(i as int)[0] == ls@[i as int]@);
    } else {
        assert(deep(ls@).skip(i as int).len() == 0);
    }
    assert(drop_leading_blank(deep(ls@).skip(i as int)) == deep(ls@).skip(i as int));
    out
}

/// `lines.join("\n")`, plus a final newline when the text is non-empty and
/// doesn't already end with one.
fn join_with_final_newline(out: &Vec<Vec<char>>) -> (r: Vec<char>)
    ensures
        r@ == (if join_lines(deep(out@)).len() > 0 && join_lines(deep(out@)).last() != '\n' {
            join_lines(deep(out@)).push('\n')
        } else {
            join_lines(deep(out@))
        }),
{
    let mut joined: Vec<char> = Vec::new();
    let mut j: usize = 0;
    let ghost all = deep(out@);
    while j < out.len()
        invariant
            j <= out.len(),
            all == deep(out@),
            joined@ == join_lines(all.take(j as int)),
        decreases out.len() - j,
    {
        assert(all.take(j + 1).drop_last() =~= all.take(j as int));
        if j > 0 {
            joined.push('\n');
        }
        push_all(&mut joined, &out[j]);
        j = j + 1;
    }
    assert(all.take(out.len() as int) =~= all);
    let m = joined.len();
    if m > 0 && joined[m - 1] != '\n' {
        joined.push('\n');
    }
    joined
}

/// Splice the given extends assignments into the existing rc content.
/// Removes any existing top-level extends* lines and writes the new set at
/// the top of the file. All other lines (including the entire `[dark]` /
/// `[light]` sections and any other base-section keys) are preserved
/// verbatim and in order, except blank lines at the ends of the base
/// section: exactly one blank line separates the new block from the base
/// keys and from the sections, so repeated rewrites never pile up empty
/// rows.
pub fn rewrite_extends(
    existing: &str,
    both: Option<&str>,
    dark: Option<&str>,
    light: Option<&str>,
) -> (r: String)
    ensures
        r@ == rewritten(existing@, opt_view(both), opt_view(dark), opt_view(light)),
{
    let chars = chars_of(existing);
    let ls = lines_of(&chars);
    let (base_kept, section_kept) = partition_lines(&ls);
    let mut out: Vec<Vec<char>> = Vec::new();
    push_line(&mut out, "extends = ", both);
    push_line(&mut out, "extends.dark = ", dark);
    push_line(&mut out, "extends.light = ", light);
    assert(deep(out@) =~= extends_block(opt_view(both), opt_view(dark), opt_view(light)));
    let ghost block = deep(out@);
    let base_kept = if out.len() > 0 {
        without_leading_blank(&base_kept)
    } else {
        base_kept
    };
    let ghost base = deep(base_kept@);
    assert(base == written_base(partition(lines(existing@)).0, block));
    let ghost sections = deep(section_kept@);
    if base_kept.len() > 0 {
        if out.len() > 0 {
            out.push(Vec::new());
            assert(deep(out@) =~= block.push(Seq::empty()));
        }
        append_lines(&mut out, &base_kept);
    }
    let ghost with_base = deep(out@);
    if section_kept.len() > 0 {
        let k = out.len();
        let blank_last = if k > 0 {
            let (a, b) = trim_bounds(&out[k - 1]);
            a == b
        } else {
            true
        };
        if !blank_last {
            out.push(Vec::new());
            assert(deep(out@) =~= with_base.push(Seq::empty()));
        }
        append_lines(&mut out, &section_kept);
    }
    assert(deep(out@) == assemble(block, base, sections));
    let joined = join_with_final_newline(&out);
    string_of(&joined)
}

} // verus!
