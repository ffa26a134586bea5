//! System dark/light mode decisions.
//!
//! Resolution order:
//! 1. `COLORANT_MODE=dark|light` overrides everything (case-insensitive).
//!    Any other value is ignored and falls through to OS detection.
//! 2. macOS: the result of `defaults read -g AppleInterfaceStyle`:
//!    success with `Dark` is dark, any other success is light; a failure
//!    saying the key `does not exist` is light (Apple encodes light mode as
//!    the key's absence); any other failure is unknown.
//! 3. Anything else is `Mode::Unknown`, a meaningful value: the resolver
//!    then applies only the base layer and the global `extends`.
//!
//! Reading the variable and running `defaults` is the binary's part.

use crate::text::{chars_of, contains_chars, eq_str, lower_seq, lower_vec, trim, trim_vec, contains_seq};
use crate::theme::model::Mode;
use vstd::prelude::*;

verus! {

/// The mode a `COLORANT_MODE` value forces, if any.
pub open spec fn forced(value: Seq<char>) -> Option<Mode> {
    if lower_seq(value) == "dark"@ {
        Some(Mode::Dark)
    } else if lower_seq(value) == "light"@ {
        Some(Mode::Light)
    } else {
        None
    }
}

/// The mode `COLORANT_MODE` forces (`None` when unset, non-Unicode, or
/// neither `dark` nor `light` in any ASCII case).
pub fn forced_mode(value: Option<&str>) -> (r: Option<Mode>)
    ensures
        r == match value {
            Some(v) => forced(v@),
            None => None,
        },
{
    match value {
        Some(v) => {
            let lower = lower_vec(&chars_of(v));
            if eq_str(&lower, "dark") {
                Some(Mode::Dark)
            } else if eq_str(&lower, "light") {
                Some(Mode::Light)
            } else {
                None
            }
        },
        None => None,
    }
}

/// What the macOS `defaults read -g AppleInterfaceStyle` outcome means.
pub open spec fn from_defaults(success: bool, stdout: Seq<char>, stderr: Seq<char>) -> Mode {
    if success {
        if lower_seq(trim(stdout)) == "dark"@ {
            Mode::Dark
        } else {
            Mode::Light
        }
    } else if contains_seq(stderr, "does not exist"@) {
        Mode::Light
    } else {
        Mode::Unknown
    }
}

/// Interpret a finished `defaults read -g AppleInterfaceStyle`: whether it
/// exited successfully, and its output and error text.
pub fn mode_from_defaults(success: bool, stdout: &str, stderr: &str) -> (r: Mode)
    ensures
        r == from_defaults(success, stdout@, stderr@),
{
    if success {
        let t = lower_vec(&trim_vec(&chars_of(stdout)));
        if eq_str(&t, "dark") {
            Mode::Dark
        } else {
            Mode::Light
        }
    } else {
        let needle = chars_of("does not exist");
        if contains_chars(&chars_of(stderr), &needle) {
            Mode::Light
        } else {
            Mode::Unknown
        }
    }
}

} // verus!
