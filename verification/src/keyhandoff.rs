//! The handoff lines the parent writes on the child's stdin: the
//! configuration key, then optionally the driver path.
use vstd::prelude::*;
use base64::Engine;

use crate::error::{AetherError, Result};
use crate::settings::spec_truthy;
use crate::text::{
    chars_of, decimal, decimal_string, join2, opt_view, owned, slice_chars, starts_with_str,
    string_of, trim, trim_bounds,
};

verus! {

/// Prefix of the line that carries the key.
pub const LINE_PREFIX: &'static str = "key ";
/// Prefix of the line that names the driver DLL.
pub const DLL_PREFIX: &'static str = "dll wintun ";
/// Longest driver path accepted, in bytes.
pub const MAX_DLL_PATH_BYTES: usize = 4096;

/// `s` without its trailing carriage returns and line feeds.
pub open spec fn strip_line_end(s: Seq<char>) -> Seq<char>
    decreases s.len(),
{
    if s.len() > 0 && (s.last() == '\r' || s.last() == '\n') {
        strip_line_end(s.drop_last())
    } else {
        s
    }
}

/// The trimmed text after `prefix` on a handoff line, or nothing when the
/// line does not start with it.
pub open spec fn spec_line_value(line: Seq<char>, prefix: Seq<char>) -> Option<Seq<char>> {
    let l = strip_line_end(line);
    if prefix.len() <= l.len() && l.take(prefix.len() as int) == prefix {
        Some(trim(l.skip(prefix.len() as int)))
    } else {
        None
    }
}

/// The trimmed value after `prefix`, or `None` when the line lacks it.
fn line_value(line: &str, prefix: &str) -> (r: Option<Vec<char>>)
    ensures
        match r {
            Some(v) => spec_line_value(line@, prefix@) == Some(v@),
            None => spec_line_value(line@, prefix@) is None,
        },
{
    let v = chars_of(line);
    let mut n = v.len();
    assert(v@.take(n as int) =~= v@);
    while n > 0 && (v[n - 1] == '\r' || v[n - 1] == '\n')
        invariant
            n <= v@.len(),
            strip_line_end(v@) == strip_line_end(v@.take(n as int)),
        decreases n,
    {
        assert(v@.take(n as int).drop_last() =~= v@.take(n - 1));
        n -= 1;
    }
    let l = slice_chars(&v, 0, n);
    assert(l@ =~= v@.take(n as int));
    if !starts_with_str(&l, prefix) {
        return None;
    }
    let p = prefix.unicode_len();
    let rest = slice_chars(&l, p, l.len());
    assert(rest@ =~= l@.skip(p as int));
    let (a, b) = trim_bounds(&rest);
    Some(slice_chars(&rest, a, b))
}

/// How the standard base64 alphabet decodes `s`: the bytes, or the decoder's
/// error message.
pub uninterp spec fn base64_decoded(s: Seq<char>) -> core::result::Result<Seq<u8>, Seq<char>>;

pub open spec fn decoded_view(r: core::result::Result<Vec<u8>, String>) -> core::result::Result<Seq<u8>, Seq<char>> {
    match r {
        Ok(v) => Ok(v@),
        Err(e) => Err(e@),
    }
}

/// `base64::engine::general_purpose::STANDARD.decode`, the error taken by
/// its message.
#[verifier::external_body]
pub(crate) fn base64_decode(s: &str) -> (r: core::result::Result<Vec<u8>, String>)
    ensures
        decoded_view(r) == base64_decoded(s@),
{
    match base64::engine::general_purpose::STANDARD.decode(s) {
        Ok(v) => Ok(v),
        Err(e) => Err(e.to_string()),
    }
}

/// What a decoded key value means: a 32-byte key is accepted as the text it
/// came in, anything else is refused with the reason.
pub open spec fn spec_key_verdict(value: Seq<char>, decoded: core::result::Result<Seq<u8>, Seq<char>>) -> core::result::Result<Seq<char>, Seq<char>> {
    match decoded {
        Err(e) => Err("config key handoff is not valid base64: "@ + e),
        Ok(bytes) => if bytes.len() != 32 {
            Err("config key handoff must be 32 bytes (got "@ + decimal(bytes.len()) + ")"@)
        } else {
            Ok(value)
        },
    }
}

pub open spec fn other_message(r: Result<String>) -> core::result::Result<Seq<char>, Seq<char>> {
    match r {
        Ok(s) => Ok(s@),
        Err(AetherError::Other(m)) => Err(m@),
        Err(_) => Err(seq![]),
    }
}

/// Judges a key value by what it decoded to.
pub fn key_verdict(value: &str, decoded: core::result::Result<Vec<u8>, String>) -> (r: Result<String>)
    ensures
        r is Ok || r matches Err(AetherError::Other(_)),
        other_message(r) == spec_key_verdict(value@, decoded_view(decoded)),
{
    match decoded {
        Err(e) => Err(AetherError::Other(join2("config key handoff is not valid base64: ", e.as_str()))),
        Ok(bytes) => {
            if bytes.len() != 32 {
                let n = decimal_string(bytes.len() as u64);
                let mut m = owned("config key handoff must be 32 bytes (got ");
                m.append(n.as_str());
                m.append(")");
                Err(AetherError::Other(m))
            } else {
                Ok(owned(value))
            }
        },
    }
}

/// The outcome of a key line: refused when the `key ` prefix is missing,
/// else the verdict on the trimmed value and what it decodes to.
pub open spec fn spec_parse_key_line(line: Seq<char>) -> core::result::Result<Seq<char>, Seq<char>> {
    match spec_line_value(line, LINE_PREFIX@) {
        None => Err("expected a `key <base64>` handoff line on stdin"@),
        Some(v) => spec_key_verdict(v, base64_decoded(v)),
    }
}

/// Validates one handoff line and returns the base64 key it carried.
pub fn parse_key_line(line: &str) -> (r: Result<String>)
    ensures
        r is Ok || r matches Err(AetherError::Other(_)),
        other_message(r) == spec_parse_key_line(line@),
{
    match line_value(line, LINE_PREFIX) {
        None => Err(AetherError::Other(owned("expected a `key <base64>` handoff line on stdin"))),
        Some(v) => {
            let value = string_of(&v);
            let decoded = base64_decode(value.as_str());
            key_verdict(value.as_str(), decoded)
        },
    }
}

/// The outcome of a driver line: refused without the `dll wintun ` prefix,
/// or when the path is empty, longer than the limit in UTF-8 bytes, or holds
/// a NUL; else the path as sent.
pub open spec fn spec_parse_dll_line(line: Seq<char>) -> core::result::Result<Seq<char>, Seq<char>> {
    match spec_line_value(line, DLL_PREFIX@) {
        None => Err("expected a `dll wintun <path>` handoff line on stdin"@),
        Some(v) => {
            let n = vstd::utf8::encode_utf8(v).len() as usize;
            if v.len() == 0 || n > MAX_DLL_PATH_BYTES || v.contains('\0') {
                Err("wintun handoff path is empty, over-long ("@ + decimal(n as nat) + " bytes) or contains a NUL"@)
            } else {
                Ok(v)
            }
        },
    }
}

pub fn parse_dll_line(line: &str) -> (r: Result<String>)
    ensures
        r is Ok || r matches Err(AetherError::Other(_)),
        other_message(r) == spec_parse_dll_line(line@),
{
    match line_value(line, DLL_PREFIX) {
        None => Err(AetherError::Other(owned("expected a `dll wintun <path>` handoff line on stdin"))),
        Some(v) => {
            let value = string_of(&v);
            let n = value.as_str().len();
            if v.len() == 0 || n > MAX_DLL_PATH_BYTES || crate::text::contains_char(&v, '\0') {
                let d = decimal_string(n as u64);
                let mut m = owned("wintun handoff path is empty, over-long (");
                m.append(d.as_str());
                m.append(" bytes) or contains a NUL");
                Err(AetherError::Other(m))
            } else {
                Ok(value)
            }
        },
    }
}

/// Whether the key has to be read from stdin: the parent set
/// `AETHER_CONFIG_KEY_STDIN` to a truth value and no key is present already.
pub fn receive_if_requested(request_setting: Option<&str>, key_present: bool) -> (read: bool)
    ensures
        read == (match opt_view(request_setting) {
            Some(v) => spec_truthy(v),
            None => false,
        } && !key_present),
{
    crate::settings::env_truthy(request_setting) && !key_present
}

} // verus!
