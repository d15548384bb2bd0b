//! The HTTP proxy's request-head rules: strict CRLF framing, the end of the
//! header block, and rewriting an absolute-form request target into origin form.
use vstd::prelude::*;
use vstd::utf8::valid_utf8;

use crate::bytes::{copy_range, extend, extend_range};
use crate::error::{AetherError, Result};
use crate::search::{
    find_byte, find_pattern, first_index, first_pat, lemma_first_index_bounds, occurs_at,
};

verus! {

/// Longest header block the proxy reads.
pub const MAX_HEADER: usize = 16384;

/// Every CR is followed by LF, and no LF or NUL stands on its own.
pub open spec fn strict_crlf(s: Seq<u8>) -> bool
    decreases s.len(),
{
    if s.len() == 0 {
        true
    } else if s[0] == 13u8 {
        s.len() >= 2 && s[1] == 10u8 && strict_crlf(s.skip(2))
    } else if s[0] == 10u8 || s[0] == 0u8 {
        false
    } else {
        strict_crlf(s.skip(1))
    }
}

/// One boundary rule: the header block must be CRLF-delimited throughout.
pub fn assert_strict_crlf(block: &[u8]) -> (r: Result<()>)
    ensures
        strict_crlf(block@) <==> r is Ok,
        r is Err ==> r matches Err(AetherError::Other(_)),
{
    let mut i: usize = 0;
    assert(block@.skip(0) =~= block@);
    while i < block.len()
        invariant
            i <= block@.len(),
            strict_crlf(block@) == strict_crlf(block@.skip(i as int)),
        decreases block@.len() - i,
    {
        let ghost s = block@.skip(i as int);
        let b = block[i];
        assert(s[0] == b);
        if b == 13u8 {
            if i + 1 >= block.len() || block[i + 1] != 10u8 {
                return Err(AetherError::Other("HTTP header: bare CR".to_owned()));
            }
            assert(s[1] == block@[i + 1]);
            assert(s.skip(2) =~= block@.skip(i + 2));
            i += 2;
        } else if b == 10u8 {
            return Err(AetherError::Other("HTTP header: bare LF".to_owned()));
        } else if b == 0u8 {
            return Err(AetherError::Other("HTTP header: NUL byte".to_owned()));
        } else {
            assert(s.skip(1) =~= block@.skip(i + 1));
            i += 1;
        }
    }
    assert(block@.skip(i as int) =~= Seq::<u8>::empty());
    Ok(())
}

pub open spec fn crlfcrlf() -> Seq<u8> {
    seq![13u8, 10u8, 13u8, 10u8]
}

pub open spec fn crlf() -> Seq<u8> {
    seq![13u8, 10u8]
}

/// Offset just past the blank line that ends the header block.
pub fn find_header_end(header: &[u8]) -> (r: Option<usize>)
    ensures
        first_pat(header@, crlfcrlf()) < header@.len() ==> r == Some(
            (first_pat(header@, crlfcrlf()) + 4) as usize,
        ),
        first_pat(header@, crlfcrlf()) == header@.len() ==> r is None,
        r matches Some(e) ==> e <= header@.len() && e == first_pat(header@, crlfcrlf()) + 4
            && first_pat(header@, crlfcrlf()) < header@.len(),
        r is None ==> first_pat(header@, crlfcrlf()) >= header@.len(),
{
    let pat: [u8; 4] = [13u8, 10u8, 13u8, 10u8];
    let p: &[u8] = &pat;
    assert(p@ =~= crlfcrlf());
    match find_pattern(header, p) {
        Some(i) => {
            assert(occurs_at(header@, p@, i as int));
            let n = header.len();
            assert(i + 4 <= n);
            Some(i + 4)
        },
        None => None,
    }
}

/// The length of the well-formed scalar that starts at `i`, if one does.
fn first_scalar_len(b: &[u8], i: usize) -> (r: Option<usize>)
    requires
        i < b@.len(),
    ensures
        match r {
            Some(k) => vstd::utf8::valid_first_scalar(b@.skip(i as int))
                && k == vstd::utf8::length_of_first_scalar(b@.skip(i as int)),
            None => !vstd::utf8::valid_first_scalar(b@.skip(i as int)),
        },
{
    let ghost s = b@.skip(i as int);
    let n = b.len() - i;
    let b0 = b[i];
    assert(s[0] == b0);
    if b0 <= 0x7f {
        return Some(1);
    }
    if 0xc0 <= b0 && b0 <= 0xdf {
        if n < 2 {
            return None;
        }
        let b1 = b[i + 1];
        assert(s[1] == b1);
        if !(0x80 <= b1 && b1 <= 0xbf) {
            return None;
        }
        let cp: u32 = (((b0 & 0x1F) as u32) << 6) | ((b1 & 0x3f) as u32);
        assert(cp == vstd::utf8::decode_first_codepoint(s));
        assert(((((b0 & 0x1F) as u32) << 6) | ((b1 & 0x3f) as u32)) <= 0x7ff) by (bit_vector);
        return if 0x80 <= cp { Some(2) } else { None };
    }
    if 0xe0 <= b0 && b0 <= 0xef {
        if n < 3 {
            return None;
        }
        let b1 = b[i + 1];
        let b2 = b[i + 2];
        assert(s[1] == b1 && s[2] == b2);
        if !(0x80 <= b1 && b1 <= 0xbf) || !(0x80 <= b2 && b2 <= 0xbf) {
            return None;
        }
        let cp: u32 = (((b0 & 0x0F) as u32) << 12) | (((b1 & 0x3f) as u32) << 6) | ((b2 & 0x3f) as u32);
        assert(cp == vstd::utf8::decode_first_codepoint(s));
        return if 0x800 <= cp && !(0xD800 <= cp && cp <= 0xDFFF) { Some(3) } else { None };
    }
    if 0xf0 <= b0 && b0 <= 0xf7 {
        if n < 4 {
            return None;
        }
        let b1 = b[i + 1];
        let b2 = b[i + 2];
        let b3 = b[i + 3];
        assert(s[1] == b1 && s[2] == b2 && s[3] == b3);
        if !(0x80 <= b1 && b1 <= 0xbf) || !(0x80 <= b2 && b2 <= 0xbf) || !(0x80 <= b3 && b3 <= 0xbf) {
            return None;
        }
        let cp: u32 = (((b0 & 0x07) as u32) << 18) | (((b1 & 0x3f) as u32) << 12) | (((b2 & 0x3f) as u32) << 6)
            | ((b3 & 0x3f) as u32);
        assert(cp == vstd::utf8::decode_first_codepoint(s));
        return if 0x10000 <= cp && cp <= 0x10ffff && !(0xD800 <= cp && cp <= 0xDFFF) { Some(4) } else { None };
    }
    None
}

/// Whether `b` is well-formed UTF-8.
fn is_utf8(b: &[u8]) -> (r: bool)
    ensures
        r == valid_utf8(b@),
{
    let mut i: usize = 0;
    assert(b@.skip(0) =~= b@);
    while i < b.len()
        invariant
            i <= b@.len(),
            valid_utf8(b@) == valid_utf8(b@.skip(i as int)),
        decreases b@.len() - i,
    {
        let ghost s = b@.skip(i as int);
        match first_scalar_len(b, i) {
            None => {
                return false;
            },
            Some(k) => {
                assert(vstd::utf8::pop_first_scalar(s) =~= b@.skip(i + k));
                i = i + k;
            },
        }
    }
    assert(b@.skip(i as int).len() == 0);
    true
}

/// A control character (Unicode category Cc) starts at `i` of UTF-8 text `s`:
/// an ASCII control byte, or the two-byte encoding of U+0080..U+009F.
pub open spec fn control_at(s: Seq<u8>, i: int) -> bool {
    s[i] < 0x20 || s[i] == 0x7f || (s[i] == 0xc2 && i + 1 < s.len() && 0x80 <= s[i + 1] <= 0x9f)
}

pub open spec fn has_control(s: Seq<u8>) -> bool {
    exists|i: int| 0 <= i < s.len() && control_at(s, i)
}

fn find_control(s: &[u8], a: usize, b: usize) -> (r: bool)
    requires
        a <= b <= s@.len(),
    ensures
        r == has_control(s@.subrange(a as int, b as int)),
{
    let ghost t = s@.subrange(a as int, b as int);
    let mut i = a;
    while i < b
        invariant
            a <= i <= b <= s@.len(),
            t == s@.subrange(a as int, b as int),
            forall|j: int| 0 <= j < i - a ==> !control_at(t, j),
        decreases b - i,
    {
        let c = s[i];
        let ctl = c < 0x20 || c == 0x7f || (c == 0xc2 && i + 1 < b && 0x80 <= s[i + 1] && s[i
            + 1] <= 0x9f);
        assert(t[i - a] == c);
        if i + 1 < b {
            assert(t[i - a + 1] == s@[i + 1]);
        }
        if ctl {
            assert(control_at(t, i - a));
            return true;
        }
        i += 1;
    }
    false
}

/// The byte strings of a request line: method, target, version and whether a
/// fourth space-separated part exists. An absent version reads as `HTTP/1.1`,
/// an absent target as empty.
pub open spec fn request_parts(line: Seq<u8>) -> (Seq<u8>, Seq<u8>, Option<Seq<u8>>, bool) {
    let i1 = first_index(line, 0x20);
    let method = line.take(i1);
    if i1 >= line.len() {
        (method, Seq::empty(), None, false)
    } else {
        let r1 = line.skip(i1 + 1);
        let i2 = first_index(r1, 0x20);
        let target = r1.take(i2);
        if i2 >= r1.len() {
            (method, target, None, false)
        } else {
            let r2 = r1.skip(i2 + 1);
            let i3 = first_index(r2, 0x20);
            (method, target, Some(r2.take(i3)), i3 < r2.len())
        }
    }
}

pub open spec fn ascii_lower_byte(b: u8) -> u8 {
    if 0x41 <= b <= 0x5a {
        (b + 32) as u8
    } else {
        b
    }
}

/// `http://`, compared without regard to ASCII case.
pub open spec fn is_http_scheme(s: Seq<u8>) -> bool {
    s.len() == 7 && ascii_lower_byte(s[0]) == 0x68 && ascii_lower_byte(s[1]) == 0x74
        && ascii_lower_byte(s[2]) == 0x74 && ascii_lower_byte(s[3]) == 0x70 && s[4] == 0x3a && s[5]
        == 0x2f && s[6] == 0x2f
}

/// Slicing `s` at byte 7 is allowed: it is the end, or not inside a character.
pub open spec fn boundary_at_7(s: Seq<u8>) -> bool {
    s.len() < 7 || s.len() == 7 || !(0x80 <= s[7] < 0xc0)
}

/// The origin-form path for the part of an absolute URI after `http://`.
pub open spec fn origin_path(rest: Seq<u8>) -> Seq<u8> {
    let slash = first_index(rest, 0x2f);
    let q = first_index(rest, 0x3f);
    let idx = if slash < q {
        slash
    } else {
        q
    };
    if idx >= rest.len() {
        seq![0x2fu8]
    } else if rest[idx] == 0x3f {
        seq![0x2fu8] + rest.skip(idx)
    } else {
        rest.skip(idx)
    }
}

/// The request line of a header block: everything before its first CRLF.
pub open spec fn request_line_end(header: Seq<u8>) -> Option<int> {
    if first_pat(header, crlf()) < header.len() {
        Some(first_pat(header, crlf()))
    } else {
        None
    }
}

/// Whether `rewrite_absolute_uri` is defined on `header`: the only input it
/// cannot handle is a target whose seventh byte sits inside a character.
pub open spec fn rewrite_defined(header: Seq<u8>) -> bool {
    match request_line_end(header) {
        None => true,
        Some(end) => {
            let line = header.take(end);
            let (method, target, version, extra) = request_parts(line);
            !valid_utf8(line) || has_control(line) || method.len() == 0 || target.len() == 0
                || extra || boundary_at_7(target)
        },
    }
}

/// What `rewrite_absolute_uri` makes of `header`: `None` for an unusable
/// request line, otherwise the header with an absolute `http://` target
/// replaced by its origin form.
pub open spec fn spec_rewrite(header: Seq<u8>) -> Option<Seq<u8>> {
    match request_line_end(header) {
        None => None,
        Some(end) => {
            let line = header.take(end);
            let (method, target, version, extra) = request_parts(line);
            if !valid_utf8(line) || has_control(line) || method.len() == 0 || target.len() == 0
                || extra {
                None
            } else if target.len() >= 7 && is_http_scheme(target.take(7)) {
                let v = match version {
                    Some(v) => v,
                    None => seq![0x48u8, 0x54, 0x54, 0x50, 0x2f, 0x31, 0x2e, 0x31],
                };
                Some(
                    method + seq![0x20u8] + origin_path(target.skip(7)) + seq![0x20u8] + v
                        + header.skip(end),
                )
            } else {
                Some(header)
            }
        },
    }
}

/// Where the parts of a request line lie: the method ends at `.0`, the target
/// spans `.0 + 1 .. .1`, the version spans `.2 .. .3` (empty when absent).
/// `None` when the method or target is empty or a fourth part exists.
#[verifier::rlimit(100)]
fn split_request_line(line: &[u8]) -> (r: Option<(usize, usize, usize, usize)>)
    ensures
        ({
            let (method, target, version, extra) = request_parts(line@);
            match r {
                None => method.len() == 0 || target.len() == 0 || extra,
                Some((i1, i2, vs, ve)) => {
                    &&& method.len() > 0 && target.len() > 0 && !extra
                    &&& 0 < i1 < i2 <= line@.len()
                    &&& method == line@.take(i1 as int)
                    &&& target == line@.subrange(i1 + 1, i2 as int)
                    &&& vs <= ve <= line@.len()
                    &&& match version {
                        None => i2 == line@.len(),
                        Some(v) => i2 < line@.len() && v == line@.subrange(vs as int, ve as int),
                    }
                },
            }
        }),
{
    let end = line.len();
    let ghost l = line@;
    let i1 = find_byte(line, 0, end, 0x20);
    assert(l.subrange(0, end as int) =~= l);
    assert(l.take(i1 as int) =~= l.subrange(0, i1 as int));
    if i1 == 0 || i1 >= end {
        return None;
    }
    let ghost r1 = l.skip(i1 + 1);
    let i2 = find_byte(line, i1 + 1, end, 0x20);
    assert(l.subrange(i1 + 1, end as int) =~= r1);
    assert(r1.take(i2 - i1 - 1) =~= l.subrange(i1 + 1, i2 as int));
    if i2 == i1 + 1 {
        return None;
    }
    if i2 < end {
        let ghost r2 = r1.skip(i2 - i1);
        let i3 = find_byte(line, i2 + 1, end, 0x20);
        assert(l.subrange(i2 + 1, end as int) =~= r2);
        assert(r2.take(i3 - i2 - 1) =~= l.subrange(i2 + 1, i3 as int));
        if i3 < end {
            return None;
        }
        Some((i1, i2, i2 + 1, i3))
    } else {
        Some((i1, i2, end, end))
    }
}

/// Appends the origin-form path for `line[a..b]`, the part of the target after
/// `http://`.
fn push_origin_path(out: &mut Vec<u8>, line: &[u8], a: usize, b: usize)
    requires
        a <= b <= line@.len(),
    ensures
        final(out)@ == old(out)@ + origin_path(line@.subrange(a as int, b as int)),
{
    let ghost rest = line@.subrange(a as int, b as int);
    let slash = find_byte(line, a, b, 0x2f);
    let q = find_byte(line, a, b, 0x3f);
    let idx = if slash < q {
        slash
    } else {
        q
    };
    if idx >= b {
        out.push(0x2f);
    } else if line[idx] == 0x3f {
        out.push(0x2f);
        extend_range(out, line, idx, b);
    } else {
        extend_range(out, line, idx, b);
    }
    proof {
        if idx < b {
            assert(rest[idx - a] == line@[idx as int]);
            assert(line@.subrange(idx as int, b as int) =~= rest.skip(idx - a));
        }
        assert(final(out)@ =~= old(out)@ + origin_path(rest));
    }
}

/// Rewrites an absolute-form target (`GET http://host/path HTTP/1.1`) into the
/// origin form an upstream server expects. Only the request line changes.
#[verifier::rlimit(100)]
pub fn rewrite_absolute_uri(header: Vec<u8>) -> (r: Result<Vec<u8>>)
    requires
        rewrite_defined(header@),
    ensures
        match spec_rewrite(header@) {
            None => r matches Err(AetherError::Other(_)),
            Some(h) => r matches Ok(v) && v@ == h,
        },
{
    let pat: [u8; 2] = [13u8, 10u8];
    let p: &[u8] = &pat;
    assert(p@ =~= crlf());
    let end = match find_pattern(&header, p) {
        Some(e) => e,
        None => {
            return Err(AetherError::Other(invalid_line()));
        },
    };
    let ghost line = header@.take(end as int);
    let line_v = copy_range(&header, 0, end);
    assert(line_v@ =~= line);
    if !is_utf8(&line_v) || find_control(&line_v, 0, end) {
        assert(line_v@.subrange(0, end as int) =~= line);
        return Err(AetherError::Other(invalid_line()));
    }
    assert(line_v@.subrange(0, end as int) =~= line);
    let (i1, i2, vs, ve) = match split_request_line(&line_v) {
        None => {
            return Err(AetherError::Other(invalid_line()));
        },
        Some(p) => p,
    };
    let t_start = i1 + 1;
    let t_len = i2 - t_start;
    if t_len >= 7 && scheme_is_http(&line_v, t_start) {
        proof {
            assert(line.subrange(t_start as int, t_start + 7) =~= line.subrange(
                t_start as int,
                i2 as int,
            ).take(7));
            assert(line.subrange(t_start + 7, i2 as int) =~= line.subrange(
                t_start as int,
                i2 as int,
            ).skip(7));
        }
        let mut out: Vec<u8> = Vec::new();
        extend_range(&mut out, &line_v, 0, i1);
        out.push(0x20);
        push_origin_path(&mut out, &line_v, t_start + 7, i2);
        out.push(0x20);
        if i2 < end {
            extend_range(&mut out, &line_v, vs, ve);
        } else {
            let http11: [u8; 8] = [0x48u8, 0x54, 0x54, 0x50, 0x2f, 0x31, 0x2e, 0x31];
            extend(&mut out, &http11);
            assert(http11@ =~= seq![0x48u8, 0x54, 0x54, 0x50, 0x2f, 0x31, 0x2e, 0x31]);
        }
        extend_range(&mut out, &header, end, header.len());
        proof {
            assert(line_v@.subrange(0, i1 as int) =~= line.take(i1 as int));
            assert(header@.subrange(end as int, header@.len() as int) =~= header@.skip(
                end as int,
            ));
            assert(out@ =~= spec_rewrite(header@).unwrap());
        }
        Ok(out)
    } else {
        proof {
            if t_len >= 7 {
                assert(line.subrange(t_start as int, t_start + 7) =~= line.subrange(
                    t_start as int,
                    i2 as int,
                ).take(7));
            }
        }
        Ok(header)
    }
}

/// Whether `rewrite_absolute_uri` can be called on `header`: false only
/// for a usable request line whose target has its seventh byte inside a
/// character.
pub fn rewrite_is_defined(header: &[u8]) -> (b: bool)
    ensures
        b == rewrite_defined(header@),
{
    let pat: [u8; 2] = [13u8, 10u8];
    let p: &[u8] = &pat;
    assert(p@ =~= crlf());
    let end = match find_pattern(header, p) {
        Some(e) => e,
        None => {
            return true;
        },
    };
    let ghost line = header@.take(end as int);
    let line_v = copy_range(header, 0, end);
    assert(line_v@ =~= line);
    assert(line_v@.subrange(0, end as int) =~= line);
    if !is_utf8(&line_v) || find_control(&line_v, 0, end) {
        return true;
    }
    match split_request_line(&line_v) {
        None => true,
        Some((i1, i2, _vs, _ve)) => {
            let t_start = i1 + 1;
            let t_len = i2 - t_start;
            if t_len <= 7 {
                true
            } else {
                let b = line_v[t_start + 7];
                assert(line.subrange(t_start as int, i2 as int)[7] == line[t_start + 7]);
                !(0x80 <= b && b < 0xc0)
            }
        },
    }
}

fn invalid_line() -> (s: String) {
    "invalid HTTP request line".to_owned()
}

fn lower_byte(b: u8) -> (r: u8)
    ensures
        r == ascii_lower_byte(b),
{
    if 0x41 <= b && b <= 0x5a {
        b + 32
    } else {
        b
    }
}

/// Whether `v[at..at + 7]` is `http://` in any ASCII case.
fn scheme_is_http(v: &[u8], at: usize) -> (r: bool)
    requires
        at + 7 <= v@.len(),
    ensures
        r == is_http_scheme(v@.subrange(at as int, at + 7)),
{
    let ghost s = v@.subrange(at as int, at + 7);
    assert(s[0] == v@[at as int] && s[1] == v@[at + 1] && s[2] == v@[at + 2] && s[3] == v@[at
        + 3] && s[4] == v@[at + 4] && s[5] == v@[at + 5] && s[6] == v@[at + 6]);
    lower_byte(v[at]) == 0x68 && lower_byte(v[at + 1]) == 0x74 && lower_byte(v[at + 2]) == 0x74
        && lower_byte(v[at + 3]) == 0x70 && v[at + 4] == 0x3a && v[at + 5] == 0x2f && v[at + 6]
        == 0x2f
}

/// The text after the last `@` (userinfo dropped), or all of it.
pub open spec fn after_userinfo(s: Seq<char>) -> Seq<char> {
    let k = crate::text::last_index_of(s, '@');
    if k >= 0 { s.skip(k + 1) } else { s }
}

/// The port of a `:port` suffix: none without a colon, the default for an
/// empty port, else the trimmed port, which must read as a `u16`.
pub open spec fn spec_port_after(rest: Seq<char>, default_port: u16) -> core::result::Result<Option<u16>, ()> {
    if rest.len() == 0 || rest[0] != ':' {
        Ok(None)
    } else {
        let p = crate::text::trim(rest.skip(1));
        if p.len() == 0 {
            Ok(Some(default_port))
        } else {
            match crate::text::parse_unsigned(p, 65535) {
                Some(n) => Ok(Some(n as u16)),
                None => Err(()),
            }
        }
    }
}

/// The host and port a proxy request targets, from `host[:port]`,
/// `[v6]:port`, a socket address, or any of these after `user:pass@`; the
/// port is `default_port` when absent or empty. Errors: an unreadable port,
/// or nothing at all.
pub open spec fn spec_parse_authority(value: Seq<char>, default_port: u16) -> core::result::Result<(Seq<char>, u16), Seq<char>> {
    let v = after_userinfo(crate::text::trim(value));
    match crate::ip::spec_socket_host(v) {
        Some(hp) => Ok(hp),
        None => {
            let end = crate::text::first_index_char(v, ']');
            if v.len() > 0 && v[0] == '[' && end < v.len() {
                match spec_port_after(v.skip(end + 1), default_port) {
                    Err(_) => Err("invalid proxy port"@),
                    Ok(Some(p)) => Ok((v.subrange(1, end), p)),
                    Ok(None) => Ok((v.subrange(1, end), default_port)),
                }
            } else {
                let c = crate::text::last_index_of(v, ':');
                if c >= 0 && crate::text::first_index_char(v, ':') == c {
                    let ps = crate::text::trim(v.skip(c + 1));
                    if ps.len() == 0 {
                        Ok((v.take(c), default_port))
                    } else {
                        match crate::text::parse_unsigned(ps, 65535) {
                            Some(n) => Ok((v.take(c), n as u16)),
                            None => Err("invalid proxy port"@),
                        }
                    }
                } else if v.len() == 0 {
                    Err("proxy target missing"@)
                } else {
                    Ok((v, default_port))
                }
            }
        }
    }
}

fn trim_vec(v: &[char]) -> (r: Vec<char>)
    ensures
        r@ == crate::text::trim(v@),
{
    let (a, b) = crate::text::trim_bounds(v);
    crate::text::slice_chars(v, a, b)
}

fn port_after(rest: &Vec<char>, default_port: u16) -> (r: core::result::Result<Option<u16>, ()>)
    ensures
        r == spec_port_after(rest@, default_port),
{
    if rest.len() == 0 || rest[0] != ':' {
        return Ok(None);
    }
    let tail = crate::text::slice_chars(rest, 1, rest.len());
    assert(tail@ =~= rest@.skip(1));
    let p = trim_vec(&tail);
    if p.len() == 0 {
        return Ok(Some(default_port));
    }
    match crate::text::parse_unsigned_chars(&p, 65535) {
        Some(n) => Ok(Some(n as u16)),
        None => Err(()),
    }
}

/// Where a proxy request goes: host text and port (see `spec_parse_authority`).
pub fn parse_authority(value: &str, default_port: u16) -> (r: Result<(String, u16)>)
    ensures
        match spec_parse_authority(value@, default_port) {
            Ok((h, p)) => r matches Ok((rh, rp)) && rh@ == h && rp == p,
            Err(m) => r matches Err(AetherError::Other(e)) && e@ == m,
        },
{
    let t = crate::text::trimmed(value);
    let at = crate::text::rfind_char(&t, '@');
    proof {
        crate::text::lemma_last_index_bounds(t@, '@');
    }
    let v = if at < t.len() {
        let x = crate::text::slice_chars(&t, at + 1, t.len());
        assert(x@ =~= t@.skip(at + 1));
        x
    } else {
        t
    };
    assert(v@ == after_userinfo(crate::text::trim(value@)));
    let vs = crate::text::string_of(&v);
    match crate::ip::socket_host(vs.as_str()) {
        Some(hp) => return Ok(hp),
        None => {},
    }
    let end = crate::text::find_char(&v, ']');
    proof {
        crate::text::lemma_first_index_char(v@, ']');
    }
    if v.len() > 0 && v[0] == '[' && end < v.len() {
        let rest = crate::text::slice_chars(&v, end + 1, v.len());
        assert(rest@ =~= v@.skip(end + 1));
        let host = crate::text::string_of(&crate::text::slice_chars(&v, 1, end));
        return match port_after(&rest, default_port) {
            Err(_) => Err(AetherError::Other(crate::text::owned("invalid proxy port"))),
            Ok(Some(p)) => Ok((host, p)),
            Ok(None) => Ok((host, default_port)),
        };
    }
    let c = crate::text::rfind_char(&v, ':');
    let first = crate::text::find_char(&v, ':');
    proof {
        crate::text::lemma_last_index_bounds(v@, ':');
    }
    if c < v.len() && first == c {
        let host = crate::text::string_of(&crate::text::slice_chars(&v, 0, c));
        assert(v@.subrange(0, c as int) =~= v@.take(c as int));
        let ptail = crate::text::slice_chars(&v, c + 1, v.len());
        assert(ptail@ =~= v@.skip(c + 1));
        let ps = trim_vec(&ptail);
        if ps.len() == 0 {
            return Ok((host, default_port));
        }
        return match crate::text::parse_unsigned_chars(&ps, 65535) {
            Some(n) => Ok((host, n as u16)),
            None => Err(AetherError::Other(crate::text::owned("invalid proxy port"))),
        };
    }
    if v.len() == 0 {
        return Err(AetherError::Other(crate::text::owned("proxy target missing")));
    }
    Ok((vs, default_port))
}

/// The text of valid UTF-8 bytes: `String::from_utf8` on a copy (which
/// cannot fail on valid input).
#[verifier::external_body]
fn utf8_text(b: &[u8]) -> (s: String)
    requires
        valid_utf8(b@),
    ensures
        s@ == vstd::utf8::decode_utf8(b@),
{
    match String::from_utf8(b.to_vec()) {
        Ok(s) => s,
        Err(_) => String::new(),
    }
}

/// How many bytes UTF-8 takes for one character.
pub open spec fn utf8_width(c: char) -> nat {
    let u = c as u32;
    if u < 0x80 { 1 } else if u < 0x800 { 2 } else if u < 0x10000 { 3 } else { 4 }
}

/// How many bytes UTF-8 takes for `s`.
pub open spec fn utf8_len(s: Seq<char>) -> nat
    decreases s.len(),
{
    if s.len() == 0 { 0 } else { utf8_len(s.drop_last()) + utf8_width(s.last()) }
}

/// Longest request line accepted, in bytes.
pub const MAX_REQUEST_LINE: usize = 4096;

/// A line without its trailing `\r`, if it has one.
pub open spec fn strip_cr(l: Seq<char>) -> Seq<char> {
    if l.len() > 0 && l.last() == '\r' { l.drop_last() } else { l }
}

/// The lines of a header block that ends in a line break, as `str::lines`
/// gives them: split at `\n`, each without its `\r`.
pub open spec fn header_lines(text: Seq<char>) -> Seq<Seq<char>> {
    let parts = crate::text::split_on(text, '\n');
    parts.take(parts.len() - 1).map_values(|l: Seq<char>| strip_cr(l))
}

/// The value of the first `Host:` line (name matched without regard to ASCII
/// case, both trimmed).
pub open spec fn host_header(lines: Seq<Seq<char>>) -> Option<Seq<char>>
    decreases lines.len(),
{
    if lines.len() == 0 {
        None
    } else {
        let l = lines[0];
        let k = crate::text::first_index_char(l, ':');
        if k < l.len() && crate::text::ascii_lower(crate::text::trim(l.take(k))) == "host"@ {
            Some(crate::text::trim(l.skip(k + 1)))
        } else {
            host_header(lines.drop_first())
        }
    }
}

/// What a proxy request asks for: a tunnel (`CONNECT`) or a forwarded
/// request, where to, and where the request head ends.
#[derive(Debug, Clone, PartialEq, Eq)]
pub struct ProxyRequest {
    pub connect: bool,
    pub host: String,
    pub port: u16,
    pub header_end: usize,
}

/// The target text of a request: the authority of a `CONNECT`, the part of
/// an `http://` target before its first `/`, or else the `Host` header.
pub open spec fn spec_request_target(text: Seq<char>, parts: Seq<Seq<char>>) -> core::result::Result<(Seq<char>, u16), Seq<char>> {
    let target = parts[1];
    if crate::text::ascii_lower(parts[0]) == "connect"@ {
        Ok((target, 443u16))
    } else if target.len() >= 7 && target.take(7) == "http://"@ {
        let a = target.skip(7);
        Ok((a.take(crate::text::first_index_char(a, '/')), 80u16))
    } else {
        match host_header(header_lines(text)) {
            Some(h) => Ok((h, 80u16)),
            None => Err("HTTP Host header missing"@),
        }
    }
}

/// How a request head reads: its end, its CRLF framing, UTF-8, a request
/// line of three space-separated parts (method, target, `HTTP/1.1` or
/// `HTTP/1.0` in any case) of at most 4096 bytes, and the target's host and
/// port.
/// A framing error is `Err(None)`: its message is the framing check's.
pub open spec fn spec_parse_request_head(header: Seq<u8>) -> core::result::Result<(bool, Seq<char>, u16, int), Option<Seq<char>>> {
    let f = first_pat(header, crlfcrlf());
    if f >= header.len() {
        Err(Some("invalid HTTP header"@))
    } else {
        let end = f + 4;
        let block = header.take(end);
        if !strict_crlf(block) {
            Err(None)
        } else if !valid_utf8(block) {
            Err(Some("invalid HTTP header"@))
        } else {
            let text = vstd::utf8::decode_utf8(block);
            let first = strip_cr(crate::text::split_on(text, '\n')[0]);
            let parts = crate::text::split_on(first, ' ');
            if utf8_len(first) > MAX_REQUEST_LINE {
                Err(Some("HTTP request line too long"@))
            } else if !(parts.len() == 3 && parts[0].len() > 0 && parts[1].len() > 0 && (crate::text::ascii_lower(parts[2])
                == "http/1.1"@ || crate::text::ascii_lower(parts[2]) == "http/1.0"@)) {
                Err(Some("malformed HTTP request line"@))
            } else {
                match spec_request_target(text, parts) {
                    Err(m) => Err(Some(m)),
                    Ok((t, d)) => match spec_parse_authority(t, d) {
                        Ok((h, p)) => Ok((crate::text::ascii_lower(parts[0]) == "connect"@, h, p, end)),
                        Err(m) => Err(Some(m)),
                    },
                }
            }
        }
    }
}

fn strip_cr_vec(l: &Vec<char>) -> (r: Vec<char>)
    ensures
        r@ == strip_cr(l@),
{
    if l.len() > 0 && l[l.len() - 1] == '\r' {
        let r = crate::text::slice_chars(l, 0, l.len() - 1);
        assert(r@ =~= l@.drop_last());
        r
    } else {
        crate::text::slice_chars(l, 0, l.len())
    }
}

/// Whether `s` takes more than `max` bytes as UTF-8.
fn utf8_longer_than(s: &Vec<char>, max: usize) -> (b: bool)
    ensures
        b == (utf8_len(s@) > max),
{
    let mut acc: usize = 0;
    let mut i: usize = 0;
    while i < s.len()
        invariant
            i <= s@.len(),
            acc == utf8_len(s@.take(i as int)),
            acc <= max,
        decreases s@.len() - i,
    {
        assert(s@.take(i + 1).drop_last() =~= s@.take(i as int));
        let u = s[i] as u32;
        let w: usize = if u < 0x80 { 1 } else if u < 0x800 { 2 } else if u < 0x10000 { 3 } else { 4 };
        if w > max - acc {
            proof {
                lemma_utf8_len_prefix(s@, i + 1);
            }
            return true;
        }
        acc = acc + w;
        i += 1;
    }
    assert(s@.take(s@.len() as int) =~= s@);
    false
}

proof fn lemma_utf8_len_prefix(s: Seq<char>, k: int)
    requires
        0 <= k <= s.len(),
    ensures
        utf8_len(s.take(k)) <= utf8_len(s),
    decreases s.len() - k,
{
    if k < s.len() {
        assert(s.take(k + 1).drop_last() =~= s.take(k));
        lemma_utf8_len_prefix(s, k + 1);
    } else {
        assert(s.take(k) =~= s);
    }
}

fn lowered(v: &Vec<char>) -> (r: Vec<char>)
    ensures
        r@ == crate::text::ascii_lower(v@),
{
    let r = crate::text::lower_range(v, 0, v.len());
    assert(v@.subrange(0, v@.len() as int) =~= v@);
    r
}

fn find_host(lines: &Vec<Vec<char>>, count: usize) -> (r: Option<Vec<char>>)
    requires
        count <= lines@.len(),
    ensures
        ({
            let ls = Seq::new(count as nat, |i: int| strip_cr(lines@[i]@));
            match r {
                Some(h) => host_header(ls) == Some(h@),
                None => host_header(ls) is None,
            }
        }),
{
    let ghost ls = Seq::new(count as nat, |i: int| strip_cr(lines@[i]@));
    let mut i: usize = 0;
    assert(ls.skip(0) =~= ls);
    while i < count
        invariant
            count <= lines@.len(),
            i <= count,
            ls == Seq::new(count as nat, |q: int| strip_cr(lines@[q]@)),
            host_header(ls) == host_header(ls.skip(i as int)),
        decreases count - i,
    {
        let l = strip_cr_vec(&lines[i]);
        proof {
            assert(ls.skip(i as int)[0] == l@);
            assert(ls.skip(i as int).drop_first() =~= ls.skip(i + 1));
        }
        let k = crate::text::find_char(&l, ':');
        proof {
            crate::text::lemma_first_index_char(l@, ':');
        }
        if k < l.len() {
            let name = crate::text::slice_chars(&l, 0, k);
            assert(name@ =~= l@.take(k as int));
            let (a, b) = crate::text::trim_bounds(&name);
            let tn = crate::text::slice_chars(&name, a, b);
            let lname = lowered(&tn);
            if crate::text::eq_str(&lname, "host") {
                let value = crate::text::slice_chars(&l, k + 1, l.len());
                assert(value@ =~= l@.skip(k + 1));
                let (c, d) = crate::text::trim_bounds(&value);
                return Some(crate::text::slice_chars(&value, c, d));
            }
        }
        i += 1;
    }
    assert(ls.skip(count as int) =~= Seq::<Seq<char>>::empty());
    None
}

/// Reads a proxy request head (see `spec_parse_request_head`): where the
/// request goes and whether it is a tunnel.
pub fn parse_request_head(header: &[u8]) -> (r: Result<ProxyRequest>)
    ensures
        match spec_parse_request_head(header@) {
            Ok((c, h, p, e)) => r matches Ok(q) && q.connect == c && q.host@ == h && q.port == p && q.header_end == e,
            Err(Some(m)) => r matches Err(AetherError::Other(x)) && x@ == m,
            Err(None) => r matches Err(AetherError::Other(_)),
        },
{
    let end = match find_header_end(header) {
        Some(e) => e,
        None => return Err(AetherError::Other(crate::text::owned("invalid HTTP header"))),
    };
    let block = copy_range(header, 0, end);
    assert(block@ =~= header@.take(end as int));
    match assert_strict_crlf(&block) {
        Ok(()) => {},
        Err(e) => return Err(e),
    }
    if !is_utf8(&block) {
        return Err(AetherError::Other(crate::text::owned("invalid HTTP header")));
    }
    let text = utf8_text(&block);
    let tv = crate::text::chars_of(text.as_str());
    let lines = crate::text::split_chars(&tv, '\n');
    let ghost lv = lines@.map_values(|x: Vec<char>| x@);
    proof {
        crate::text::lemma_split_on_len(tv@, '\n');
    }
    assert(lv[0] == lines@[0]@);
    let first = strip_cr_vec(&lines[0]);
    if utf8_longer_than(&first, MAX_REQUEST_LINE) {
        return Err(AetherError::Other(crate::text::owned("HTTP request line too long")));
    }
    let parts = crate::text::split_chars(&first, ' ');
    let ghost pv = parts@.map_values(|x: Vec<char>| x@);
    if parts.len() != 3 {
        return Err(AetherError::Other(crate::text::owned("malformed HTTP request line")));
    }
    assert(pv[0] == parts@[0]@ && pv[1] == parts@[1]@ && pv[2] == parts@[2]@);
    let method = lowered(&parts[0]);
    let version = lowered(&parts[2]);
    if parts[0].len() == 0 || parts[1].len() == 0 || !(crate::text::eq_str(&version, "http/1.1")
        || crate::text::eq_str(&version, "http/1.0")) {
        return Err(AetherError::Other(crate::text::owned("malformed HTTP request line")));
    }
    let connect = crate::text::eq_str(&method, "connect");
    let target = &parts[1];
    let (t, d): (Vec<char>, u16) = if connect {
        (crate::text::slice_chars(target, 0, target.len()), 443)
    } else if crate::text::starts_with_str(target, "http://") {
        proof {
            reveal_strlit("http://");
        }
        let a = crate::text::slice_chars(target, 7, target.len());
        assert(a@ =~= target@.skip(7));
        let k = crate::text::find_char(&a, '/');
        proof {
            crate::text::lemma_first_index_char(a@, '/');
        }
        (crate::text::slice_chars(&a, 0, k), 80)
    } else {
        let n = lines.len() - 1;
        let host = find_host(&lines, n);
        proof {
            let ls = Seq::new(n as nat, |i: int| strip_cr(lines@[i]@));
            assert(ls =~= header_lines(tv@));
        }
        match host {
            Some(h) => (h, 80),
            None => return Err(AetherError::Other(crate::text::owned("HTTP Host header missing"))),
        }
    };
    proof {
        assert(target@.subrange(0, target@.len() as int) =~= target@);
    }
    let ts = crate::text::string_of(&t);
    match parse_authority(ts.as_str(), d) {
        Ok((host, port)) => Ok(ProxyRequest { connect, host, port, header_end: end }),
        Err(e) => Err(e),
    }
}

/// Clients served at once; a client over the limit is not accepted.
pub const MAX_CLIENTS: usize = 256;
/// The longest one proxied session may last, in seconds.
pub const MAX_SESSION_SECS: u64 = 14400;
/// How long the upstream connect may take, in seconds.
pub const UPSTREAM_CONNECT_SECS: u64 = 20;

pub const REPLY_ESTABLISHED: &'static str = "HTTP/1.1 200 Connection Established\r\n\r\n";
pub const REPLY_BAD_GATEWAY: &'static str = "HTTP/1.1 502 Bad Gateway\r\nConnection: close\r\n\r\n";
pub const REPLY_GATEWAY_TIMEOUT: &'static str = "HTTP/1.1 504 Gateway Timeout\r\nConnection: close\r\n\r\n";
pub const REPLY_BAD_REQUEST: &'static str = "HTTP/1.1 400 Bad Request\r\nConnection: close\r\n\r\n";

/// Where a proxied request failed after its head was read.
#[derive(Debug, Clone, Copy, PartialEq, Eq, Structural)]
pub enum ProxyFailure {
    /// The host name did not resolve through the tunnel.
    Resolve,
    /// The upstream connect was refused.
    Connect,
    /// The upstream connect did not finish in time.
    Timeout,
    /// A plain request could not be rewritten for the upstream.
    Rewrite,
}

/// The answer the client gets: a failure to resolve or to connect is a 502
/// alike, a slow connect a 504, an unrewritable request a 400.
pub fn failure_reply(f: ProxyFailure) -> (r: &'static str)
    ensures
        r@ == (match f {
            ProxyFailure::Resolve | ProxyFailure::Connect => REPLY_BAD_GATEWAY@,
            ProxyFailure::Timeout => REPLY_GATEWAY_TIMEOUT@,
            ProxyFailure::Rewrite => REPLY_BAD_REQUEST@,
        }),
{
    match f {
        ProxyFailure::Resolve | ProxyFailure::Connect => REPLY_BAD_GATEWAY,
        ProxyFailure::Timeout => REPLY_GATEWAY_TIMEOUT,
        ProxyFailure::Rewrite => REPLY_BAD_REQUEST,
    }
}

/// The bytes a tunnelled (CONNECT) request forwards once the 200 is sent:
/// whatever the client pipelined after its header block, if anything.
pub fn early_data(buffer: &[u8], header_end: usize) -> (r: Option<Vec<u8>>)
    requires
        header_end <= buffer@.len(),
    ensures
        header_end < buffer@.len() ==> (r matches Some(v) && v@ == buffer@.skip(header_end as int)),
        header_end == buffer@.len() ==> r is None,
{
    if header_end < buffer.len() {
        let v = crate::bytes::copy_range(buffer, header_end, buffer.len());
        assert(v@ =~= buffer@.skip(header_end as int));
        Some(v)
    } else {
        None
    }
}


/// `http://`, lower case.
pub open spec fn http_scheme_bytes() -> Seq<u8> {
    seq![0x68u8, 0x74, 0x74, 0x70, 0x3a, 0x2f, 0x2f]
}

pub open spec fn lacks(s: Seq<u8>, c: u8) -> bool {
    forall|i: int| 0 <= i < s.len() ==> s[i] != c
}

proof fn lemma_target_origin(host: Seq<u8>, path: Seq<u8>)
    requires
        lacks(host, 0x2f),
        lacks(host, 0x3f),
        path.len() == 0 || path[0] == 0x2f || path[0] == 0x3f,
    ensures
        origin_path(host + path) == (if path.len() == 0 {
            seq![0x2fu8]
        } else if path[0] == 0x3f {
            seq![0x2fu8] + path
        } else {
            path
        }),
{
    let r = host + path;
    let h = host.len() as int;
    lemma_first_index_bounds(r, 0x2f);
    lemma_first_index_bounds(r, 0x3f);
    let slash = first_index(r, 0x2f);
    let q = first_index(r, 0x3f);
    assert forall|j: int| 0 <= j < h implies r[j] != 0x2f && r[j] != 0x3f by {
        assert(r[j] == host[j]);
    }
    if path.len() == 0 {
        assert(slash >= r.len()) by {
            if slash < r.len() {
                assert(r[slash] != 0x2f);
            }
        }
        assert(q >= r.len()) by {
            if q < r.len() {
                assert(r[q] != 0x3f);
            }
        }
    } else {
        assert(r[h] == path[0]);
        if path[0] == 0x2f {
            crate::search::lemma_first_index(r, 0x2f, h);
            assert(q > h) by {
                if q <= h {
                    if q < h {
                        assert(r[q] != 0x3f);
                    }
                }
            }
            assert(r.skip(h) =~= path);
        } else {
            crate::search::lemma_first_index(r, 0x3f, h);
            assert(slash > h) by {
                if slash <= h {
                    if slash < h {
                        assert(r[slash] != 0x2f);
                    }
                }
            }
            assert(r.skip(h) =~= path);
        }
    }
}

proof fn lemma_line_end(line: Seq<u8>, rest: Seq<u8>)
    requires
        !has_control(line),
    ensures
        request_line_end(line + crlf() + rest) == Some(line.len() as int),
        (line + crlf() + rest).take(line.len() as int) == line,
        (line + crlf() + rest).skip(line.len() as int) == crlf() + rest,
{
    let header = line + crlf() + rest;
    let l = line.len() as int;
    assert forall|j: int| 0 <= j < l implies !occurs_at(header, crlf(), j) by {
        if occurs_at(header, crlf(), j) {
            assert(header.subrange(j, j + 2)[0] == header[j]);
            assert(header[j] == line[j]);
            assert(control_at(line, j));
        }
    }
    assert(header.subrange(l, l + 2) =~= crlf());
    crate::search::lemma_first_pat(header, crlf(), l);
    assert(header.take(l) =~= line);
    assert(header.skip(l) =~= crlf() + rest);
}

proof fn lemma_line_parts(method: Seq<u8>, target: Seq<u8>, version: Seq<u8>)
    requires
        lacks(method, 0x20),
        lacks(target, 0x20),
        lacks(version, 0x20),
    ensures
        request_parts(method + seq![0x20u8] + target + seq![0x20u8] + version) == (method, target, Some(version), false),
{
    let line = method + seq![0x20u8] + target + seq![0x20u8] + version;
    let m = method.len() as int;
    assert forall|j: int| 0 <= j < m implies line[j] != 0x20 by {
        assert(line[j] == method[j]);
    }
    crate::search::lemma_first_index(line, 0x20, m);
    let r1 = line.skip(m + 1);
    assert(r1 =~= target + seq![0x20u8] + version);
    let t = target.len() as int;
    assert forall|j: int| 0 <= j < t implies r1[j] != 0x20 by {
        assert(r1[j] == target[j]);
    }
    crate::search::lemma_first_index(r1, 0x20, t);
    assert(r1.take(t) =~= target);
    let r2 = r1.skip(t + 1);
    assert(r2 =~= version);
    crate::search::lemma_first_index(r2, 0x20, r2.len() as int);
    assert(r2.take(r2.len() as int) =~= version);
    assert(line.take(m) =~= method);
}

/// Rewriting an absolute-form request changes only its target: for a
/// request line `method SP http://host path SP version` (no spaces inside
/// the parts, no control characters, valid UTF-8), the result is `method SP
/// origin SP version` followed by the rest of the header exactly as it was,
/// the origin being the path (`/` when it is empty, `/` put before a bare
/// query).
pub proof fn lemma_rewrite_changes_only_the_target(
    method: Seq<u8>,
    host: Seq<u8>,
    path: Seq<u8>,
    version: Seq<u8>,
    rest: Seq<u8>,
)
    requires
        method.len() > 0,
        lacks(method, 0x20),
        lacks(host, 0x20),
        lacks(path, 0x20),
        lacks(version, 0x20),
        lacks(host, 0x2f),
        lacks(host, 0x3f),
        path.len() == 0 || path[0] == 0x2f || path[0] == 0x3f,
        valid_utf8(method + seq![0x20u8] + http_scheme_bytes() + host + path + seq![0x20u8] + version),
        !has_control(method + seq![0x20u8] + http_scheme_bytes() + host + path + seq![0x20u8] + version),
    ensures
        spec_rewrite(method + seq![0x20u8] + http_scheme_bytes() + host + path + seq![0x20u8] + version + crlf() + rest)
            == Some(method + seq![0x20u8] + (if path.len() == 0 {
                seq![0x2fu8]
            } else if path[0] == 0x3f {
                seq![0x2fu8] + path
            } else {
                path
            }) + seq![0x20u8] + version + crlf() + rest),
{
    let target = http_scheme_bytes() + host + path;
    let line = method + seq![0x20u8] + target + seq![0x20u8] + version;
    assert(line =~= method + seq![0x20u8] + http_scheme_bytes() + host + path + seq![0x20u8] + version);
    assert(line + crlf() + rest =~= method + seq![0x20u8] + http_scheme_bytes() + host + path + seq![0x20u8] + version + crlf() + rest);
    lemma_line_end(line, rest);
    assert forall|j: int| 0 <= j < target.len() implies target[j] != 0x20 by {
        if j >= 7 {
            if j < 7 + host.len() {
                assert(target[j] == host[j - 7]);
            } else {
                assert(target[j] == path[j - 7 - host.len()]);
            }
        }
    }
    lemma_line_parts(method, target, version);
    assert(target.take(7) =~= http_scheme_bytes());
    assert(is_http_scheme(target.take(7)));
    assert(target.skip(7) =~= host + path);
    lemma_target_origin(host, path);
}


/// A request already in origin form (its target starts with `/`) passes
/// through untouched, header and all.
pub proof fn lemma_origin_form_passes_through(method: Seq<u8>, target: Seq<u8>, version: Seq<u8>, rest: Seq<u8>)
    requires
        method.len() > 0,
        target.len() > 0,
        target[0] == 0x2f,
        lacks(method, 0x20),
        lacks(target, 0x20),
        lacks(version, 0x20),
        valid_utf8(method + seq![0x20u8] + target + seq![0x20u8] + version),
        !has_control(method + seq![0x20u8] + target + seq![0x20u8] + version),
    ensures
        spec_rewrite(method + seq![0x20u8] + target + seq![0x20u8] + version + crlf() + rest)
            == Some(method + seq![0x20u8] + target + seq![0x20u8] + version + crlf() + rest),
{
    let line = method + seq![0x20u8] + target + seq![0x20u8] + version;
    lemma_line_end(line, rest);
    lemma_line_parts(method, target, version);
    if target.len() >= 7 {
        assert(target.take(7)[0] == 0x2f);
        assert(ascii_lower_byte(0x2f) != 0x68);
    }
}

} // verus!
