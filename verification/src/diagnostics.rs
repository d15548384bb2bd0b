//! What the diagnostics export shows of the effective settings: secrets are
//! recognised by their names and reported by length only.
use vstd::prelude::*;

use crate::text::{ascii_upper, chars_of, contains_str, decimal, decimal_string, has_infix, owned, upper_chars};

verus! {

/// A setting whose name mentions a key, secret, token or password, in any
/// case.
pub open spec fn spec_is_secret_key(key: Seq<char>) -> bool {
    let k = ascii_upper(key);
    has_infix(k, "KEY"@) || has_infix(k, "SECRET"@) || has_infix(k, "TOKEN"@) || has_infix(k, "PASS"@)
}

pub fn is_secret_key(key: &str) -> (b: bool)
    ensures
        b == spec_is_secret_key(key@),
{
    let v = chars_of(key);
    let k = upper_chars(&v);
    contains_str(&k, "KEY") || contains_str(&k, "SECRET") || contains_str(&k, "TOKEN")
        || contains_str(&k, "PASS")
}

/// A secret value replaced by its length in characters.
pub open spec fn spec_redact(value: Seq<char>) -> Seq<char> {
    "<redacted len="@ + decimal(value.len()) + ">"@
}

pub fn redact(value: &str) -> (r: String)
    ensures
        r@ == spec_redact(value@),
{
    let n = value.unicode_len();
    let d = decimal_string(n as u64);
    let mut r = owned("<redacted len=");
    r.append(d.as_str());
    r.append(">");
    r
}

/// One exported setting: secrets redacted, everything else as it is.
pub open spec fn spec_exported(k: Seq<char>, v: Seq<char>) -> Seq<char> {
    if spec_is_secret_key(k) { spec_redact(v) } else { v }
}

/// Route journals left behind by tunnels that did not shut down cleanly.
/// Only Windows keeps them; on this platform there are none.
pub fn journals() -> (j: Vec<String>)
    ensures
        j@.len() == 0,
{
    Vec::new()
}

/// The effective settings as exported: every name kept, in order, each
/// secret value redacted.
pub fn environment(snapshot: Vec<(String, String)>) -> (out: Vec<(String, String)>)
    ensures
        out@.len() == snapshot@.len(),
        forall|i: int| 0 <= i < out@.len() ==> (#[trigger] out@[i]).0@ == snapshot@[i].0@ && out@[i].1@
            == spec_exported(snapshot@[i].0@, snapshot@[i].1@),
{
    let mut out: Vec<(String, String)> = Vec::new();
    let mut i: usize = 0;
    while i < snapshot.len()
        invariant
            i <= snapshot@.len(),
            out@.len() == i,
            forall|j: int| 0 <= j < i ==> (#[trigger] out@[j]).0@ == snapshot@[j].0@ && out@[j].1@
                == spec_exported(snapshot@[j].0@, snapshot@[j].1@),
        decreases snapshot@.len() - i,
    {
        let k = snapshot[i].0.as_str();
        let v = snapshot[i].1.as_str();
        let shown = if is_secret_key(k) { redact(v) } else { owned(v) };
        out.push((owned(k), shown));
        i += 1;
    }
    out
}

} // verus!
