//! Terminal detection.
//!
//! The OSC protocol works in any conforming terminal, but emission is
//! gated on detection so sessions that haven't been verified end-to-end
//! aren't repainted: some terminals quietly ignore parts of OSC 4 / 10-12,
//! or print the escape bytes as literal output.

use crate::text::{chars_of, eq_str};
use vstd::prelude::*;

verus! {

/// A terminal colorant knows how to drive.
#[derive(Debug, Clone, Copy, PartialEq, Eq, Structural)]
pub enum Terminal {
    Ghostty,
    ITerm2,
}

/// Splitting on `-`: the segments finished so far and the one in progress.
pub open spec fn dash_split(s: Seq<char>) -> (Seq<Seq<char>>, Seq<char>)
    decreases s.len(),
{
    if s.len() == 0 {
        (Seq::empty(), Seq::empty())
    } else {
        let st = dash_split(s.drop_last());
        if s.last() == '-' {
            (st.0.push(st.1), Seq::empty())
        } else {
            (st.0, st.1.push(s.last()))
        }
    }
}

/// `str::split('-')`: every `-`-separated segment, empty ones included.
pub open spec fn dash_segments(s: Seq<char>) -> Seq<Seq<char>> {
    dash_split(s).0.push(dash_split(s).1)
}

/// Which terminal the environment names, checking in priority order:
/// `TERM_PROGRAM` (set by the terminal itself in local sessions),
/// `LC_TERMINAL` (forwarded over SSH by iTerm2), then `TERM`, where
/// Ghostty exports `xterm-ghostty` and which survives multiplexers that
/// strip `TERM_PROGRAM`.
pub open spec fn detected(
    term_program: Option<Seq<char>>,
    lc_terminal: Option<Seq<char>>,
    term: Option<Seq<char>>,
) -> Option<Terminal> {
    if term_program == Some("ghostty"@) {
        Some(Terminal::Ghostty)
    } else if term_program == Some("iTerm.app"@) {
        Some(Terminal::ITerm2)
    } else if lc_terminal == Some("iTerm2"@) {
        Some(Terminal::ITerm2)
    } else if term matches Some(t) && dash_segments(t).contains("ghostty"@) {
        Some(Terminal::Ghostty)
    } else {
        None
    }
}

pub open spec fn opt_str(o: Option<&str>) -> Option<Seq<char>> {
    match o {
        Some(s) => Some(s@),
        None => None,
    }
}

fn has_ghostty_segment(t: &str) -> (r: bool)
    ensures
        r == dash_segments(t@).contains("ghostty"@),
{
    let cs = chars_of(t);
    let mut found = false;
    let mut cur: Vec<char> = Vec::new();
    let mut i: usize = 0;
    while i < cs.len()
        invariant
            i <= cs.len(),
            cs@ == t@,
            cur@ == dash_split(cs@.take(i as int)).1,
            found == dash_split(cs@.take(i as int)).0.contains("ghostty"@),
        decreases cs.len() - i,
    {
        let c = cs[i];
        let ghost before = dash_split(cs@.take(i as int));
        assert(cs@.take(i + 1).drop_last() =~= cs@.take(i as int));
        if c == '-' {
            let hit = eq_str(&cur, "ghostty");
            proof {
                let after = before.0.push(before.1);
                assert forall|x: Seq<char>| after.contains(x) <==> (before.0.contains(x) || x == before.1) by {
                    if after.contains(x) {
                        let k = choose|k: int| 0 <= k < after.len() && after[k] == x;
                        if k < before.0.len() {
                            assert(before.0[k] == x);
                        }
                    }
                    if before.0.contains(x) {
                        let k = choose|k: int| 0 <= k < before.0.len() && before.0[k] == x;
                        assert(after[k] == x);
                    }
                    if x == before.1 {
                        assert(after[before.0.len() as int] == x);
                    }
                }
            }
            found = found || hit;
            cur = Vec::new();
        } else {
            cur.push(c);
        }
        i = i + 1;
    }
    assert(cs@.take(cs.len() as int) =~= t@);
    let last = eq_str(&cur, "ghostty");
    proof {
        let st = dash_split(t@);
        let all = st.0.push(st.1);
        assert forall|x: Seq<char>| all.contains(x) <==> (st.0.contains(x) || x == st.1) by {
            if all.contains(x) {
                let k = choose|k: int| 0 <= k < all.len() && all[k] == x;
                if k < st.0.len() {
                    assert(st.0[k] == x);
                }
            }
            if st.0.contains(x) {
                let k = choose|k: int| 0 <= k < st.0.len() && st.0[k] == x;
                assert(all[k] == x);
            }
            if x == st.1 {
                assert(all[st.0.len() as int] == x);
            }
        }
    }
    found || last
}

/// Detect the surrounding terminal from the values of `TERM_PROGRAM`,
/// `LC_TERMINAL` and `TERM` (`None` for unset or non-Unicode variables).
/// Returns `None` when it is not one we recognize.
pub fn detect_from(term_program: Option<&str>, lc_terminal: Option<&str>, term: Option<&str>) -> (r:
    Option<Terminal>)
    ensures
        r == detected(opt_str(term_program), opt_str(lc_terminal), opt_str(term)),
{
    if let Some(tp) = term_program {
        let v = chars_of(tp);
        if eq_str(&v, "ghostty") {
            return Some(Terminal::Ghostty);
        }
        if eq_str(&v, "iTerm.app") {
            return Some(Terminal::ITerm2);
        }
    }
    if let Some(lc) = lc_terminal {
        let v = chars_of(lc);
        if eq_str(&v, "iTerm2") {
            return Some(Terminal::ITerm2);
        }
    }
    if let Some(t) = term {
        if has_ghostty_segment(t) {
            return Some(Terminal::Ghostty);
        }
    }
    None
}

} // verus!
