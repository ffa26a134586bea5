//! zsh integration: the hook snippet that calls `colorant apply` on every
//! directory change and before every prompt.
//!
//! Users install it with `eval "$(colorant init zsh)"`. The hook only
//! invokes the binary, which handles terminal detection, theme resolution
//! and emission itself, so later additions don't require users to
//! re-source their rc files.

use crate::text::{push_str, string_of};
use vstd::prelude::*;

verus! {

/// The snippet up to the binary path.
pub const HOOK_HEAD: &'static str = "# >>> colorant init >>>\nautoload -Uz add-zsh-hook\n\n_colorant_apply() {\n  \"";

/// The snippet after the binary path.
pub const HOOK_TAIL: &'static str = "\" apply >/dev/tty 2>/dev/null || true\n}\n\nadd-zsh-hook chpwd _colorant_apply\nadd-zsh-hook precmd _colorant_apply\n\n_colorant_apply\n# <<< colorant init <<<\n";

/// Build the zsh init snippet around the absolute path to the colorant
/// binary, so the hook keeps working on shells where `PATH` isn't
/// reliable.
pub fn hook(binary: &str) -> (r: String)
    ensures
        r@ == HOOK_HEAD@ + binary@ + HOOK_TAIL@,
{
    let mut out: Vec<char> = Vec::new();
    push_str(&mut out, HOOK_HEAD);
    push_str(&mut out, binary);
    push_str(&mut out, HOOK_TAIL);
    string_of(&out)
}

} // verus!
