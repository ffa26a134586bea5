//! OSC (Operating System Command) escape sequences.
//!
//! The standard xterm-flavored mechanism for setting and resetting
//! terminal colors at runtime:
//! - `OSC 10 ; #rrggbb BEL` — set default foreground
//! - `OSC 11 ; #rrggbb BEL` — set default background
//! - `OSC 12 ; #rrggbb BEL` — set cursor color
//! - `OSC 4 ; N ; #rrggbb BEL` — set palette entry N (0..15)
//! - `OSC 110 BEL` / `OSC 111 BEL` / `OSC 112 BEL` — reset fg/bg/cursor
//! - `OSC 104 ; N BEL` — reset palette entry N
//!
//! iTerm2 only, via OSC 1337:
//! - `OSC 1337 ; SetColors=tab=rrggbb BEL` — set the tab background
//!   (six hex digits, no `#`)
//! - `OSC 1337 ; SetColors=tab=default BEL` — reset the tab color
//!
//! Inside tmux each sequence is wrapped in tmux's DCS passthrough so the
//! outer terminal receives it verbatim. The sequences are built into a
//! `String`; writing it to the terminal is the caller's part.

use crate::text::{
    chars_of, contains_seq, decimal, lemma_contains_middle, lemma_contains_within, push_decimal,
    push_str, string_of,
};
use crate::theme::model::{HexColor, LayerView, ThemeLayer};
use crate::terminal::utils::Terminal;
use vstd::prelude::*;

verus! {

/// One OSC sequence carrying `payload`; inside tmux, wrapped in DCS
/// passthrough with the inner ESC doubled.
pub open spec fn osc(in_tmux: bool, payload: Seq<char>) -> Seq<char> {
    if in_tmux {
        "\x1bPtmux;\x1b\x1b]"@ + payload + "\x07\x1b\\"@
    } else {
        "\x1b]"@ + payload + "\x07"@
    }
}

/// `s` without its leading `#` characters.
pub open spec fn strip_hashes(s: Seq<char>) -> Seq<char>
    decreases s.len(),
{
    if s.len() > 0 && s[0] == '#' {
        strip_hashes(s.drop_first())
    } else {
        s
    }
}

/// The terminal's tab-color payload for `hex`, if it has a tab-color knob.
pub open spec fn tab_payload_of(terminal: Terminal, hex: Seq<char>) -> Option<Seq<char>> {
    match terminal {
        Terminal::ITerm2 => Some("1337;SetColors=tab="@ + strip_hashes(hex)),
        Terminal::Ghostty => None,
    }
}

/// The terminal's tab-reset payload, if it has a tab-color knob.
pub open spec fn tab_reset_of(terminal: Terminal) -> Option<Seq<char>> {
    match terminal {
        Terminal::ITerm2 => Some("1337;SetColors=tab=default"@),
        Terminal::Ghostty => None,
    }
}

pub open spec fn opt_osc(in_tmux: bool, payload: Option<Seq<char>>) -> Seq<char> {
    match payload {
        Some(p) => osc(in_tmux, p),
        None => Seq::empty(),
    }
}

pub open spec fn slot_osc(in_tmux: bool, code: Seq<char>, color: Option<Seq<char>>) -> Seq<char> {
    match color {
        Some(c) => osc(in_tmux, code + c),
        None => Seq::empty(),
    }
}

/// `OSC 4` for palette entries `0..n` that are set, in index order.
pub open spec fn palette_osc(in_tmux: bool, pal: Seq<Option<Seq<char>>>, n: nat) -> Seq<char>
    decreases n,
{
    if n == 0 {
        Seq::empty()
    } else {
        let i = (n - 1) as nat;
        palette_osc(in_tmux, pal, i) + slot_osc(in_tmux, "4;"@ + decimal(i) + seq![';'], pal[i as int])
    }
}

/// Everything `emit` writes for `layer` and an optional tab color.
pub open spec fn emitted(terminal: Terminal, layer: LayerView, tab: Option<Seq<char>>, in_tmux: bool) -> Seq<char> {
    slot_osc(in_tmux, "10;"@, layer.fg) + slot_osc(in_tmux, "11;"@, layer.bg) + slot_osc(
        in_tmux,
        "12;"@,
        layer.cursor,
    ) + palette_osc(in_tmux, layer.palette, 16) + match tab {
        Some(t) => opt_osc(in_tmux, tab_payload_of(terminal, t)),
        None => Seq::empty(),
    }
}

/// `OSC 104` for palette entries `0..n`.
pub open spec fn palette_reset_osc(in_tmux: bool, n: nat) -> Seq<char>
    decreases n,
{
    if n == 0 {
        Seq::empty()
    } else {
        let i = (n - 1) as nat;
        palette_reset_osc(in_tmux, i) + osc(in_tmux, "104;"@ + decimal(i))
    }
}

/// Everything `emit_reset` writes.
pub open spec fn reset_emitted(terminal: Terminal, in_tmux: bool) -> Seq<char> {
    osc(in_tmux, "110"@) + osc(in_tmux, "111"@) + osc(in_tmux, "112"@) + palette_reset_osc(
        in_tmux,
        16,
    ) + opt_osc(in_tmux, tab_reset_of(terminal))
}

/// Append a single OSC payload, wrapped in tmux DCS passthrough when
/// `in_tmux`: `ESC P tmux ; ESC <payload with ESC doubled> ESC \`. The
/// inner payload is `ESC ] <payload> BEL`, so its leading ESC is doubled.
pub fn write_osc(out: &mut String, in_tmux: bool, payload: &str)
    ensures
        final(out)@ == old(out)@ + osc(in_tmux, payload@),
{
    let mut v = chars_of(out.as_str());
    if in_tmux {
        push_str(&mut v, "\x1bPtmux;\x1b\x1b]");
        push_str(&mut v, payload);
        push_str(&mut v, "\x07\x1b\\");
    } else {
        push_str(&mut v, "\x1b]");
        push_str(&mut v, payload);
        push_str(&mut v, "\x07");
    }
    *out = string_of(&v);
}

fn write_slot(out: &mut String, in_tmux: bool, code: &str, color: &Option<HexColor>)
    ensures
        final(out)@ == old(out)@ + slot_osc(in_tmux, code@, crate::theme::model::opt_color(*color)),
{
    if let Some(c) = color {
        let mut p = chars_of(code);
        push_str(&mut p, c.as_str());
        let ps = string_of(&p);
        write_osc(out, in_tmux, ps.as_str());
    } else {
        assert(old(out)@ + Seq::<char>::empty() =~= old(out)@);
    }
}

/// The terminal-specific tab-set payload, or `None` when the terminal has
/// no runtime tab-color knob. `hex` is `#rrggbb`; iTerm2's wire format
/// drops the leading `#`.
pub fn tab_payload(terminal: Terminal, hex: &str) -> (r: Option<String>)
    ensures
        match tab_payload_of(terminal, hex@) {
            Some(p) => r matches Some(s) && s@ == p,
            None => r is None,
        },
{
    match terminal {
        Terminal::ITerm2 => {
            let cs = chars_of(hex);
            let mut k: usize = 0;
            assert(cs@.skip(0) =~= cs@);
            while k < cs.len() && cs[k] == '#'
                invariant
                    k <= cs.len(),
                    cs@ == hex@,
                    strip_hashes(hex@) == strip_hashes(cs@.skip(k as int)),
                decreases cs.len() - k,
            {
                assert(cs@.skip(k as int).drop_first() =~= cs@.skip(k + 1));
                k = k + 1;
            }
            let mut out: Vec<char> = Vec::new();
            push_str(&mut out, "1337;SetColors=tab=");
            let rest = crate::text::slice(&cs, k, cs.len());
            crate::text::push_all(&mut out, &rest);
            assert(rest@ =~= cs@.skip(k as int));
            Some(string_of(&out))
        },
        Terminal::Ghostty => None,
    }
}

/// The terminal-specific tab-reset payload, or `None` when the terminal
/// has no runtime tab-color knob.
pub fn tab_reset_payload(terminal: Terminal) -> (r: Option<&'static str>)
    ensures
        match tab_reset_of(terminal) {
            Some(p) => r matches Some(s) && s@ == p,
            None => r is None,
        },
{
    match terminal {
        Terminal::ITerm2 => Some("1337;SetColors=tab=default"),
        Terminal::Ghostty => None,
    }
}

/// Append the sequences that set every populated field of `theme`, then
/// the tab color when one is given and the terminal has a tab knob.
/// Unset fields are left untouched.
pub fn emit(
    out: &mut String,
    terminal: Terminal,
    theme: &ThemeLayer,
    tab_bg: Option<&HexColor>,
    in_tmux: bool,
)
    ensures
        final(out)@ == old(out)@ + emitted(
            terminal,
            theme@,
            match tab_bg {
                Some(c) => Some(c@),
                None => None,
            },
            in_tmux,
        ),
{
    let ghost start = out@;
    write_slot(out, in_tmux, "10;", &theme.fg);
    write_slot(out, in_tmux, "11;", &theme.bg);
    write_slot(out, in_tmux, "12;", &theme.cursor);
    let ghost head = out@;
    assert(head =~= start + slot_osc(in_tmux, "10;"@, theme@.fg) + slot_osc(in_tmux, "11;"@, theme@.bg)
        + slot_osc(in_tmux, "12;"@, theme@.cursor));
    let mut i: usize = 0;
    while i < 16
        invariant
            i <= 16,
            out@ == head + palette_osc(in_tmux, theme@.palette, i as nat),
        decreases 16 - i,
    {
        let mut code: Vec<char> = Vec::new();
        push_str(&mut code, "4;");
        push_decimal(&mut code, i);
        code.push(';');
        let cs = string_of(&code);
        write_slot(out, in_tmux, cs.as_str(), &theme.palette[i]);
        assert(theme@.palette[i as int] == crate::theme::model::opt_color(theme.palette[i as int]));
        i = i + 1;
        assert(out@ =~= head + palette_osc(in_tmux, theme@.palette, i as nat));
    }
    if let Some(c) = tab_bg {
        if let Some(payload) = tab_payload(terminal, c.as_str()) {
            write_osc(out, in_tmux, payload.as_str());
        }
    }
    assert(out@ =~= start + emitted(
        terminal,
        theme@,
        match tab_bg {
            Some(c) => Some(c@),
            None => None,
        },
        in_tmux,
    ));
}

/// Append the sequences resetting fg, bg, cursor and all 16 palette
/// entries, plus the tab color on terminals that have one.
pub fn emit_reset(out: &mut String, terminal: Terminal, in_tmux: bool)
    ensures
        final(out)@ == old(out)@ + reset_emitted(terminal, in_tmux),
{
    let ghost start = out@;
    write_osc(out, in_tmux, "110");
    write_osc(out, in_tmux, "111");
    write_osc(out, in_tmux, "112");
    let ghost head = out@;
    let mut i: usize = 0;
    while i < 16
        invariant
            i <= 16,
            out@ == head + palette_reset_osc(in_tmux, i as nat),
        decreases 16 - i,
    {
        let mut code: Vec<char> = Vec::new();
        push_str(&mut code, "104;");
        push_decimal(&mut code, i);
        let cs = string_of(&code);
        write_osc(out, in_tmux, cs.as_str());
        i = i + 1;
        assert(out@ =~= head + palette_reset_osc(in_tmux, i as nat));
    }
    if let Some(payload) = tab_reset_payload(terminal) {
        write_osc(out, in_tmux, payload);
    }
    assert(out@ =~= start + reset_emitted(terminal, in_tmux));
}

/// Append only the tab-reset sequence, for terminals with a tab-color
/// knob. `apply` uses it when the tab follows the window but the theme
/// has no background to follow: without it the tab would keep the
/// previous directory's color.
pub fn emit_tab_reset(out: &mut String, terminal: Terminal, in_tmux: bool)
    ensures
        final(out)@ == old(out)@ + opt_osc(in_tmux, tab_reset_of(terminal)),
{
    if let Some(payload) = tab_reset_payload(terminal) {
        write_osc(out, in_tmux, payload);
    } else {
        assert(old(out)@ + Seq::<char>::empty() =~= old(out)@);
    }
}

/// The escape sequence that carries `payload`, as the terminal receives it:
/// `ESC ] payload BEL`, or inside tmux the same wrapped in DCS passthrough
/// with its ESC doubled.
pub open spec fn wire(in_tmux: bool, payload: Seq<char>) -> Seq<char> {
    if in_tmux {
        seq!['\x1b', 'P', 't', 'm', 'u', 'x', ';', '\x1b', '\x1b', ']'] + payload + seq![
            '\x07',
            '\x1b',
            '\\',
        ]
    } else {
        seq!['\x1b', ']'] + payload + seq!['\x07']
    }
}

proof fn lemma_osc_is_wire(in_tmux: bool, payload: Seq<char>)
    ensures
        osc(in_tmux, payload) == wire(in_tmux, payload),
{
    reveal_strlit("\x1bPtmux;\x1b\x1b]");
    reveal_strlit("\x07\x1b\\");
    reveal_strlit("\x1b]");
    reveal_strlit("\x07");
    assert(osc(in_tmux, payload) =~= wire(in_tmux, payload));
}

proof fn lemma_palette_entry(in_tmux: bool, pal: Seq<Option<Seq<char>>>, n: nat, i: nat)
    requires
        i < n,
        pal[i as int] is Some,
    ensures
        contains_seq(
            palette_osc(in_tmux, pal, n),
            wire(in_tmux, seq!['4', ';'] + decimal(i) + seq![';'] + pal[i as int]->0),
        ),
    decreases n,
{
    let k = (n - 1) as nat;
    let c = pal[i as int]->0;
    reveal_strlit("4;");
    assert("4;"@ + decimal(i) + seq![';'] + c =~= seq!['4', ';'] + decimal(i) + seq![';'] + c);
    lemma_osc_is_wire(in_tmux, "4;"@ + decimal(i) + seq![';'] + c);
    if i == k {
        lemma_contains_middle(
            palette_osc(in_tmux, pal, k),
            wire(in_tmux, seq!['4', ';'] + decimal(i) + seq![';'] + c),
            Seq::empty(),
        );
        assert(palette_osc(in_tmux, pal, n) =~= palette_osc(in_tmux, pal, k) + wire(
            in_tmux,
            seq!['4', ';'] + decimal(i) + seq![';'] + c,
        ) + Seq::<char>::empty());
    } else {
        lemma_palette_entry(in_tmux, pal, k, i);
        let rest = slot_osc(in_tmux, "4;"@ + decimal(k) + seq![';'], pal[k as int]);
        lemma_contains_within(
            Seq::empty(),
            palette_osc(in_tmux, pal, k),
            rest,
            wire(in_tmux, seq!['4', ';'] + decimal(i) + seq![';'] + c),
        );
        assert(palette_osc(in_tmux, pal, n) =~= Seq::<char>::empty() + palette_osc(in_tmux, pal, k)
            + rest);
    }
}

proof fn lemma_slot_in(
    in_tmux: bool,
    code: Seq<char>,
    color: Option<Seq<char>>,
    a: Seq<char>,
    b: Seq<char>,
)
    ensures
        color matches Some(c) ==> contains_seq(
            a + slot_osc(in_tmux, code, color) + b,
            wire(in_tmux, code + c),
        ),
{
    if let Some(c) = color {
        lemma_osc_is_wire(in_tmux, code + c);
        lemma_contains_middle(a, wire(in_tmux, code + c), b);
    }
}

proof fn lemma_codes()
    ensures
        "10;"@ == seq!['1', '0', ';'],
        "11;"@ == seq!['1', '1', ';'],
        "12;"@ == seq!['1', '2', ';'],
{
    reveal_strlit("10;");
    reveal_strlit("11;");
    reveal_strlit("12;");
    assert("10;"@ =~= seq!['1', '0', ';']);
    assert("11;"@ =~= seq!['1', '1', ';']);
    assert("12;"@ =~= seq!['1', '2', ';']);
}

/// `emit` applies every color the layer sets, each with its own code:
/// the foreground with `OSC 10`, the background with `OSC 11`, the cursor
/// with `OSC 12` and palette entry `i` with `OSC 4;i` (in tmux, each
/// wrapped for passthrough).
#[verifier::rlimit(50)]
#[verifier::spinoff_prover]
pub proof fn lemma_emit_sets_every_slot(
    terminal: Terminal,
    layer: LayerView,
    tab: Option<Seq<char>>,
    in_tmux: bool,
)
    ensures
        layer.fg matches Some(c) ==> contains_seq(
            emitted(terminal, layer, tab, in_tmux),
            wire(in_tmux, seq!['1', '0', ';'] + c),
        ),
        layer.bg matches Some(c) ==> contains_seq(
            emitted(terminal, layer, tab, in_tmux),
            wire(in_tmux, seq!['1', '1', ';'] + c),
        ),
        layer.cursor matches Some(c) ==> contains_seq(
            emitted(terminal, layer, tab, in_tmux),
            wire(in_tmux, seq!['1', '2', ';'] + c),
        ),
        forall|i: int|
            0 <= i < 16 && i < layer.palette.len() && #[trigger] layer.palette[i] is Some
                ==> contains_seq(
                emitted(terminal, layer, tab, in_tmux),
                wire(in_tmux, seq!['4', ';'] + decimal(i as nat) + seq![';'] + layer.palette[i]->0),
            ),
{
    lemma_codes();
    let f = slot_osc(in_tmux, "10;"@, layer.fg);
    let b = slot_osc(in_tmux, "11;"@, layer.bg);
    let cu = slot_osc(in_tmux, "12;"@, layer.cursor);
    let pal = palette_osc(in_tmux, layer.palette, 16);
    let t = match tab {
        Some(x) => opt_osc(in_tmux, tab_payload_of(terminal, x)),
        None => Seq::empty(),
    };
    let all = emitted(terminal, layer, tab, in_tmux);
    assert(all == f + b + cu + pal + t);
    assert(all =~= Seq::<char>::empty() + f + (b + cu + pal + t));
    lemma_slot_in(in_tmux, "10;"@, layer.fg, Seq::empty(), b + cu + pal + t);
    assert(all =~= f + b + (cu + pal + t));
    lemma_slot_in(in_tmux, "11;"@, layer.bg, f, cu + pal + t);
    assert(all =~= (f + b) + cu + (pal + t));
    lemma_slot_in(in_tmux, "12;"@, layer.cursor, f + b, pal + t);
    assert(all =~= (f + b + cu) + pal + t);
    assert forall|i: int|
        0 <= i < 16 && i < layer.palette.len() && #[trigger] layer.palette[i] is Some
            implies contains_seq(
            all,
            wire(in_tmux, seq!['4', ';'] + decimal(i as nat) + seq![';'] + layer.palette[i]->0),
        ) by {
        lemma_palette_entry(in_tmux, layer.palette, 16, i as nat);
        lemma_contains_within(
            f + b + cu,
            pal,
            t,
            wire(in_tmux, seq!['4', ';'] + decimal(i as nat) + seq![';'] + layer.palette[i]->0),
        );
    }
}

} // verus!
