//! How setting values are read: one truth table for boolean knobs, and blank
//! values treated as not set.
use vstd::prelude::*;

use crate::text::{eq_str, fold, opt_string_view, opt_view, slice_chars, string_of, trim, folded, chars_of, trim_bounds};

verus! {

/// The one truth table: `1`, `true`, `yes` or `on`, ignoring case and
/// surrounding whitespace.
pub open spec fn spec_truthy(s: Seq<char>) -> bool {
    let f = folded(s);
    f == "1"@ || f == "true"@ || f == "yes"@ || f == "on"@
}

/// Whether a setting value means "true".
pub fn truthy(v: &str) -> (b: bool)
    ensures
        b == spec_truthy(v@),
{
    let f = fold(v);
    eq_str(&f, "1") || eq_str(&f, "true") || eq_str(&f, "yes") || eq_str(&f, "on")
}

/// An explicit negative: `0`, `false`, `no` or `off`, ignoring case and
/// surrounding whitespace.
pub open spec fn spec_falsy(s: Seq<char>) -> bool {
    let f = folded(s);
    f == "0"@ || f == "false"@ || f == "no"@ || f == "off"@
}

/// Whether a setting value is an explicit negative.
pub fn falsy(v: &str) -> (b: bool)
    ensures
        b == spec_falsy(v@),
{
    let f = fold(v);
    eq_str(&f, "0") || eq_str(&f, "false") || eq_str(&f, "no") || eq_str(&f, "off")
}

/// A boolean knob's value: set to a truth value.
pub open spec fn spec_flag(setting: Option<Seq<char>>) -> bool {
    match setting {
        Some(v) => spec_truthy(v),
        None => false,
    }
}

/// A boolean knob: on only when it is set to a truth value.
pub fn env_truthy(setting: Option<&str>) -> (b: bool)
    ensures
        b == match setting {
            Some(v) => spec_truthy(v@),
            None => false,
        },
{
    match setting {
        Some(v) => truthy(v),
        None => false,
    }
}

/// A setting value trimmed, or nothing when it is absent or blank.
pub open spec fn spec_nonblank(v: Option<Seq<char>>) -> Option<Seq<char>> {
    match v {
        Some(s) => if trim(s).len() > 0 {
            Some(trim(s))
        } else {
            None
        },
        None => None,
    }
}

/// The trimmed value of a setting, or `None` when it is absent or blank.
pub fn nonblank(setting: Option<&str>) -> (r: Option<String>)
    ensures
        opt_string_view(r) == spec_nonblank(opt_view(setting)),
{
    match setting {
        None => None,
        Some(s) => {
            let v = chars_of(s);
            let (a, b) = trim_bounds(&v);
            if a == b {
                None
            } else {
                let t = slice_chars(&v, a, b);
                Some(string_of(&t))
            }
        },
    }
}

/// `nonblank` for an owned value.
pub fn nonblank_owned(setting: Option<String>) -> (r: Option<String>)
    ensures
        opt_string_view(r) == spec_nonblank(opt_string_view(setting)),
{
    match setting {
        None => None,
        Some(s) => nonblank(Some(s.as_str())),
    }
}

} // verus!
