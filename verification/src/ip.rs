//! IP address literals, read the way the standard library reads them:
//! dotted-decimal IPv4 (four decimal octets of one to three digits, no
//! leading zero, each at most 255) and IPv6 (colon-separated hex groups, one
//! `::` for a run of zero groups, an IPv4 address in the last 32 bits).
use vstd::prelude::*;

use crate::text::{
    all_digits, chars_of, decimal, digits_value, first_index_char, is_digit, lemma_first_index_char, slice_chars,
    split_chars, split_on, string_of,
};

verus! {

/// The value of one octet, when `t` spells one.
pub open spec fn spec_octet(t: Seq<char>) -> Option<u8> {
    if 1 <= t.len() <= 3 && all_digits(t) && !(t.len() > 1 && t[0] == '0') && digits_value(t) <= 255 {
        Some(digits_value(t) as u8)
    } else {
        None
    }
}

/// The four octets `s` spells, if it is an IPv4 address.
pub open spec fn spec_parse_ipv4(s: Seq<char>) -> Option<Seq<u8>> {
    let parts = split_on(s, '.');
    if parts.len() == 4 && spec_octet(parts[0]) is Some && spec_octet(parts[1]) is Some
        && spec_octet(parts[2]) is Some && spec_octet(parts[3]) is Some {
        Some(seq![spec_octet(parts[0])->0, spec_octet(parts[1])->0, spec_octet(parts[2])->0, spec_octet(parts[3])->0])
    } else {
        None
    }
}

fn octet(t: &Vec<char>) -> (r: Option<u8>)
    ensures
        r == spec_octet(t@),
{
    let n = t.len();
    if n < 1 || n > 3 {
        return None;
    }
    let mut acc: u32 = 0;
    let mut i: usize = 0;
    while i < n
        invariant
            n == t@.len(),
            1 <= n <= 3,
            i <= n,
            all_digits(t@.take(i as int)),
            acc == digits_value(t@.take(i as int)),
            acc < 1000,
        decreases n - i,
    {
        let c = t[i];
        if !('0' <= c && c <= '9') {
            assert(!is_digit(t@[i as int]));
            return None;
        }
        proof {
            assert(t@.take(i + 1).drop_last() =~= t@.take(i as int));
            assert(acc * 10 + 9 < 10000) by (nonlinear_arith) requires acc < 1000;
        }
        acc = acc * 10 + (c as u32 - '0' as u32);
        proof {
            if i + 1 <= 3 {
                lemma_small_value(t@.take(i + 1));
            }
        }
        i += 1;
    }
    assert(t@.take(n as int) =~= t@);
    if n > 1 && t[0] == '0' {
        return None;
    }
    if acc > 255 {
        return None;
    }
    Some(acc as u8)
}

pub open spec fn pow10(n: nat) -> int
    decreases n,
{
    if n == 0 { 1 } else { 10 * pow10((n - 1) as nat) }
}

proof fn lemma_digits_bound(s: Seq<char>)
    requires
        all_digits(s),
    ensures
        digits_value(s) < pow10(s.len()),
    decreases s.len(),
{
    if s.len() > 0 {
        let p = s.drop_last();
        assert(all_digits(p)) by {
            assert forall|i: int| 0 <= i < p.len() implies is_digit(#[trigger] p[i]) by {
                assert(p[i] == s[i]);
            }
        }
        lemma_digits_bound(p);
        assert(is_digit(s[s.len() - 1]));
        let d = ((s.last() as u32) - ('0' as u32)) as int;
        assert(0 <= d <= 9);
        let a = digits_value(p) as int;
        let b = pow10(p.len());
        assert(a * 10 + d < b * 10) by (nonlinear_arith)
            requires a < b, 0 <= d <= 9, a >= 0;
    }
}

proof fn lemma_small_value(s: Seq<char>)
    requires
        s.len() <= 3,
        all_digits(s),
    ensures
        digits_value(s) < 1000,
{
    lemma_digits_bound(s);
    reveal_with_fuel(pow10, 4);
}

/// Parses a dotted-decimal IPv4 address.
pub fn parse_ipv4(s: &str) -> (r: Option<[u8; 4]>)
    ensures
        match r {
            Some(o) => spec_parse_ipv4(s@) == Some(o@),
            None => spec_parse_ipv4(s@) is None,
        },
{
    let v = chars_of(s);
    let parts = split_chars(&v, '.');
    let ghost pv = parts@.map_values(|x: Vec<char>| x@);
    if parts.len() != 4 {
        return None;
    }
    assert(pv[0] == parts@[0]@ && pv[1] == parts@[1]@ && pv[2] == parts@[2]@ && pv[3] == parts@[3]@);
    let a = match octet(&parts[0]) { Some(x) => x, None => return None };
    let b = match octet(&parts[1]) { Some(x) => x, None => return None };
    let c = match octet(&parts[2]) { Some(x) => x, None => return None };
    let d = match octet(&parts[3]) { Some(x) => x, None => return None };
    let o = [a, b, c, d];
    assert(o@ =~= seq![a, b, c, d]);
    Some(o)
}

/// The address as one big-endian number.
pub open spec fn spec_ipv4_u32(o: Seq<u8>) -> int {
    o[0] * 16777216 + o[1] * 65536 + o[2] * 256 + o[3]
}

pub fn ipv4_to_u32(o: [u8; 4]) -> (r: u32)
    ensures
        r == spec_ipv4_u32(o@),
{
    proof {
        assert((o[0] as u32) * 16777216 + (o[1] as u32) * 65536 + (o[2] as u32) * 256 + (o[3] as u32) <= 0xffff_ffff) by (nonlinear_arith)
            requires o[0] <= 255, o[1] <= 255, o[2] <= 255, o[3] <= 255;
    }
    (o[0] as u32) * 16777216 + (o[1] as u32) * 65536 + (o[2] as u32) * 256 + (o[3] as u32)
}

/// The four octets of a big-endian number.
pub fn u32_to_ipv4(x: u32) -> (o: [u8; 4])
    ensures
        spec_ipv4_u32(o@) == x,
        o@ == seq![(x / 16777216) as u8, ((x / 65536) % 256) as u8, ((x / 256) % 256) as u8, (x % 256) as u8],
{
    let o = [(x / 16777216) as u8, ((x / 65536) % 256) as u8, ((x / 256) % 256) as u8, (x % 256) as u8];
    proof {
        let a = x / 16777216;
        let b = (x / 65536) % 256;
        let c = (x / 256) % 256;
        let d = x % 256;
        assert(a * 16777216 + b * 65536 + c * 256 + d == x) by (nonlinear_arith)
            requires a == x / 16777216, b == (x / 65536) % 256, c == (x / 256) % 256, d == x % 256;
    }
    assert(o@ =~= seq![(x / 16777216) as u8, ((x / 65536) % 256) as u8, ((x / 256) % 256) as u8, (x % 256) as u8]);
    o
}

pub open spec fn is_hex_digit(c: char) -> bool {
    ('0' <= c && c <= '9') || ('a' <= c && c <= 'f') || ('A' <= c && c <= 'F')
}

pub open spec fn hex_digit_value(c: char) -> nat {
    if '0' <= c && c <= '9' {
        ((c as int) - ('0' as int)) as nat
    } else if 'a' <= c && c <= 'f' {
        ((c as int) - ('a' as int) + 10) as nat
    } else {
        ((c as int) - ('A' as int) + 10) as nat
    }
}

/// Value of a run of hex digits.
pub open spec fn hex_value(s: Seq<char>) -> nat
    decreases s.len(),
{
    if s.len() == 0 {
        0
    } else {
        hex_value(s.drop_last()) * 16 + hex_digit_value(s.last())
    }
}

/// The value of one IPv6 group: one to four hex digits.
pub open spec fn spec_group(t: Seq<char>) -> Option<u16> {
    if 1 <= t.len() <= 4 && forall|i: int| 0 <= i < t.len() ==> is_hex_digit(#[trigger] t[i]) {
        Some(hex_value(t) as u16)
    } else {
        None
    }
}

/// The values of a list of groups, if every one is a group.
pub open spec fn spec_groups(parts: Seq<Seq<char>>) -> Option<Seq<u16>>
    decreases parts.len(),
{
    if parts.len() == 0 {
        Some(seq![])
    } else {
        match (spec_groups(parts.drop_last()), spec_group(parts.last())) {
            (Some(g), Some(x)) => Some(g.push(x)),
            _ => None,
        }
    }
}

/// The 16-bit words of colon-separated groups (none for empty text); with
/// `v4_tail`, the last piece may instead be an IPv4 address, worth two words.
pub open spec fn spec_words(s: Seq<char>, v4_tail: bool) -> Option<Seq<u16>> {
    if s.len() == 0 {
        Some(seq![])
    } else {
        let parts = split_on(s, ':');
        match spec_parse_ipv4(parts.last()) {
            Some(o) if v4_tail => match spec_groups(parts.drop_last()) {
                Some(g) => Some(g + seq![(o[0] as int * 256 + o[1]) as u16, (o[2] as int * 256 + o[3]) as u16]),
                None => None,
            },
            _ => spec_groups(parts),
        }
    }
}

/// Index of the first `::`, or the length.
pub open spec fn double_colon(s: Seq<char>) -> int
    decreases s.len(),
{
    if s.len() < 2 {
        s.len() as int
    } else if s[0] == ':' && s[1] == ':' {
        0
    } else {
        1 + double_colon(s.drop_first())
    }
}

/// The eight words `s` spells, if it is an IPv6 address: eight groups (the
/// last two may be an IPv4 address), or groups before and after one `::`
/// that stands for at least one zero group (only the part after it may end
/// in an IPv4 address).
pub open spec fn spec_parse_ipv6(s: Seq<char>) -> Option<Seq<u16>> {
    let k = double_colon(s);
    if k < s.len() {
        match (spec_words(s.take(k), false), spec_words(s.skip(k + 2), true)) {
            (Some(h), Some(t)) => if h.len() + t.len() <= 7 {
                Some(h + Seq::new((8 - h.len() - t.len()) as nat, |i: int| 0u16) + t)
            } else {
                None
            },
            _ => None,
        }
    } else if s.len() == 0 {
        None
    } else {
        match spec_words(s, true) {
            Some(w) => if w.len() == 8 { Some(w) } else { None },
            None => None,
        }
    }
}

proof fn lemma_double_colon(s: Seq<char>)
    ensures
        0 <= double_colon(s) <= s.len(),
        double_colon(s) < s.len() ==> double_colon(s) + 1 < s.len() && s[double_colon(s)] == ':'
            && s[double_colon(s) + 1] == ':',
        forall|i: int| 0 <= i < double_colon(s) && i + 1 < s.len() ==> !(#[trigger] s[i] == ':' && s[i + 1] == ':'),
    decreases s.len(),
{
    if s.len() >= 2 && !(s[0] == ':' && s[1] == ':') {
        let t = s.drop_first();
        lemma_double_colon(t);
        assert forall|i: int| 0 <= i < double_colon(s) && i + 1 < s.len() implies !(#[trigger] s[i] == ':' && s[i + 1] == ':') by {
            if i > 0 {
                assert(s[i] == t[i - 1] && s[i + 1] == t[i]);
            }
        }
    }
}

fn find_double_colon(v: &Vec<char>) -> (k: usize)
    ensures
        k == double_colon(v@),
{
    let n = v.len();
    let mut i: usize = 0;
    while i < n && i + 1 < n && !(v[i] == ':' && v[i + 1] == ':')
        invariant
            n == v@.len(),
            i <= n,
            forall|j: int| 0 <= j < i && j + 1 < n ==> !(#[trigger] v@[j] == ':' && v@[j + 1] == ':'),
        decreases n - i,
    {
        i += 1;
    }
    proof {
        lemma_double_colon(v@);
        let f = double_colon(v@);
        if f < i && f < n {
            assert(v@[f] == ':' && v@[f + 1] == ':');
        }
        if i + 1 < n && i < f {
            assert(!(v@[i as int] == ':' && v@[i + 1] == ':'));
        }
    }
    if i < n && i + 1 < n { i } else { n }
}

/// `16^n`.
pub open spec fn pow16(n: nat) -> int
    decreases n,
{
    if n == 0 { 1 } else { 16 * pow16((n - 1) as nat) }
}

fn group(t: &Vec<char>) -> (r: Option<u16>)
    ensures
        r == spec_group(t@),
{
    let n = t.len();
    if n < 1 || n > 4 {
        return None;
    }
    let mut acc: u32 = 0;
    let mut i: usize = 0;
    while i < n
        invariant
            n == t@.len(),
            1 <= n <= 4,
            i <= n,
            forall|j: int| 0 <= j < i ==> is_hex_digit(#[trigger] t@[j]),
            acc == hex_value(t@.take(i as int)),
            acc < pow16(i as nat),
            pow16(i as nat) <= 65536,
        decreases n - i,
    {
        let c = t[i];
        let d: u32 = if '0' <= c && c <= '9' {
            c as u32 - '0' as u32
        } else if 'a' <= c && c <= 'f' {
            c as u32 - 'a' as u32 + 10
        } else if 'A' <= c && c <= 'F' {
            c as u32 - 'A' as u32 + 10
        } else {
            assert(!is_hex_digit(t@[i as int]));
            return None;
        };
        proof {
            let u = t@.take(i + 1);
            assert(u.drop_last() =~= t@.take(i as int));
            let b = pow16(i as nat);
            assert(pow16((i + 1) as nat) == 16 * b);
            assert(acc * 16 + d < b * 16) by (nonlinear_arith)
                requires acc < b, d < 16;
            assert(pow16((i + 1) as nat) <= 65536) by {
                reveal_with_fuel(pow16, 5);
            }
        }
        acc = acc * 16 + d;
        i += 1;
    }
    assert(t@.take(n as int) =~= t@);
    Some(acc as u16)
}

fn groups(parts: &Vec<Vec<char>>, count: usize) -> (r: Option<Vec<u16>>)
    requires
        count <= parts@.len(),
    ensures
        match r {
            Some(g) => spec_groups(parts@.map_values(|x: Vec<char>| x@).take(count as int)) == Some(g@),
            None => spec_groups(parts@.map_values(|x: Vec<char>| x@).take(count as int)) is None,
        },
{
    let ghost pv = parts@.map_values(|x: Vec<char>| x@);
    let mut out: Vec<u16> = Vec::new();
    let mut i: usize = 0;
    while i < count
        invariant
            count <= parts@.len(),
            pv == parts@.map_values(|x: Vec<char>| x@),
            i <= count,
            spec_groups(pv.take(i as int)) == Some(out@),
        decreases count - i,
    {
        assert(pv.take(i + 1).drop_last() =~= pv.take(i as int));
        assert(pv.take(i + 1).last() == parts@[i as int]@);
        match group(&parts[i]) {
            Some(x) => out.push(x),
            None => {
                proof {
                    assert(spec_groups(pv.take(i + 1)) is None);
                    assert(pv.take(count as int).take(i + 1) =~= pv.take(i + 1));
                    lemma_groups_none_extends(pv.take(count as int), i + 1);
                }
                return None;
            },
        }
        i += 1;
    }
    Some(out)
}

proof fn lemma_groups_none_extends(parts: Seq<Seq<char>>, k: int)
    requires
        0 <= k <= parts.len(),
        spec_groups(parts.take(k)) is None,
    ensures
        spec_groups(parts) is None,
    decreases parts.len() - k,
{
    if k < parts.len() {
        assert(parts.take(k + 1).drop_last() =~= parts.take(k));
        lemma_groups_none_extends(parts, k + 1);
    } else {
        assert(parts.take(k) =~= parts);
    }
}

fn words(v: &Vec<char>, v4_tail: bool) -> (r: Option<Vec<u16>>)
    ensures
        match r {
            Some(w) => spec_words(v@, v4_tail) == Some(w@),
            None => spec_words(v@, v4_tail) is None,
        },
{
    if v.len() == 0 {
        return Some(Vec::new());
    }
    let parts = split_chars(v, ':');
    let ghost pv = parts@.map_values(|x: Vec<char>| x@);
    proof {
        crate::text::lemma_split_on_len(v@, ':');
    }
    let n = parts.len();
    assert(pv.last() == parts@[n - 1]@);
    let last = string_of(&parts[n - 1]);
    let v4 = if v4_tail { parse_ipv4(last.as_str()) } else { None };
    match v4 {
        Some(o) => {
            assert(pv.drop_last() =~= pv.take(n - 1));
            match groups(&parts, n - 1) {
                Some(mut g) => {
                    let hi = (o[0] as u16) * 256 + o[1] as u16;
                    let lo = (o[2] as u16) * 256 + o[3] as u16;
                    let ghost g0 = g@;
                    g.push(hi);
                    g.push(lo);
                    assert(g@ =~= g0 + seq![(o@[0] as int * 256 + o@[1]) as u16, (o@[2] as int * 256 + o@[3]) as u16]);
                    Some(g)
                },
                None => None,
            }
        },
        None => {
            assert(pv.take(n as int) =~= pv);
            groups(&parts, n)
        },
    }
}

/// Parses an IPv6 address literal into its eight 16-bit words.
pub fn parse_ipv6(s: &str) -> (r: Option<[u16; 8]>)
    ensures
        match r {
            Some(w) => spec_parse_ipv6(s@) == Some(w@),
            None => spec_parse_ipv6(s@) is None,
        },
{
    let v = chars_of(s);
    let k = find_double_colon(&v);
    proof {
        lemma_double_colon(v@);
    }
    if k < v.len() {
        let head = slice_chars(&v, 0, k);
        assert(head@ =~= v@.take(k as int));
        let tail = slice_chars(&v, k + 2, v.len());
        assert(tail@ =~= v@.skip(k + 2));
        let h = match words(&head, false) { Some(x) => x, None => return None };
        let t = match words(&tail, true) { Some(x) => x, None => return None };
        if h.len() > 7 || t.len() > 7 - h.len() {
            return None;
        }
        let mut w: [u16; 8] = [0u16; 8];
        let mut i: usize = 0;
        while i < h.len()
            invariant
                h@.len() + t@.len() <= 7,
                i <= h@.len(),
                w@.len() == 8,
                forall|j: int| 0 <= j < i ==> w@[j] == h@[j],
                forall|j: int| i <= j < 8 ==> w@[j] == 0,
            decreases h@.len() - i,
        {
            w.set(i, h[i]);
            i += 1;
        }
        let off = 8 - t.len();
        let mut j: usize = 0;
        while j < t.len()
            invariant
                h@.len() + t@.len() <= 7,
                off == 8 - t@.len(),
                j <= t@.len(),
                w@.len() == 8,
                forall|q: int| 0 <= q < h@.len() ==> w@[q] == h@[q],
                forall|q: int| h@.len() <= q < off ==> w@[q] == 0,
                forall|q: int| 0 <= q < j ==> w@[off + q] == t@[q],
                forall|q: int| off + j <= q < 8 ==> w@[q] == 0,
            decreases t@.len() - j,
        {
            w.set(off + j, t[j]);
            j += 1;
        }
        assert(w@ =~= h@ + Seq::new((8 - h@.len() - t@.len()) as nat, |i: int| 0u16) + t@);
        Some(w)
    } else {
        if v.len() == 0 {
            return None;
        }
        match words(&v, true) {
            Some(x) => {
                if x.len() != 8 {
                    return None;
                }
                let w: [u16; 8] = [x[0], x[1], x[2], x[3], x[4], x[5], x[6], x[7]];
                assert(w@ =~= x@);
                Some(w)
            },
            None => None,
        }
    }
}

/// A socket address as plain values: the family, the IP as an integer (an
/// IPv4 address in the low 32 bits, big-endian order), the port, and the
/// IPv6 scope id (0 for IPv4).
#[derive(Debug, Clone, Copy, PartialEq, Eq, Structural)]
pub struct SockAddr {
    pub v6: bool,
    pub ip: u128,
    pub port: u16,
    pub scope_id: u32,
}

/// Eight 16-bit words as one big-endian number.
pub open spec fn words_value(w: Seq<u16>) -> int
    decreases w.len(),
{
    if w.len() == 0 { 0 } else { words_value(w.drop_last()) * 65536 + w.last() }
}

pub open spec fn pow65536(n: nat) -> int
    decreases n,
{
    if n == 0 { 1 } else { 65536 * pow65536((n - 1) as nat) }
}

pub fn words_to_u128(w: [u16; 8]) -> (r: u128)
    ensures
        r == words_value(w@),
{
    let mut acc: u128 = 0;
    let mut i: usize = 0;
    while i < 8
        invariant
            i <= 8,
            w@.len() == 8,
            acc == words_value(w@.take(i as int)),
            acc < pow65536(i as nat),
            pow65536(i as nat) <= 0x1_0000_0000_0000_0000_0000_0000_0000_0000,
        decreases 8 - i,
    {
        proof {
            assert(w@.take(i + 1).drop_last() =~= w@.take(i as int));
            let b = pow65536(i as nat);
            let x = w@[i as int];
            assert(pow65536((i + 1) as nat) == 65536 * b);
            assert(acc * 65536 + x < b * 65536) by (nonlinear_arith)
                requires acc < b, x < 65536;
            assert(pow65536((i + 1) as nat) <= 0x1_0000_0000_0000_0000_0000_0000_0000_0000) by {
                reveal_with_fuel(pow65536, 9);
            }
        }
        acc = acc * 65536 + w[i] as u128;
        i += 1;
    }
    assert(w@.take(8) =~= w@);
    acc
}

/// A decimal number of at least one digit (leading zeros allowed, no sign)
/// that is at most `max`.
pub open spec fn spec_decimal_at_most(t: Seq<char>, max: nat) -> Option<nat> {
    if t.len() > 0 && all_digits(t) && digits_value(t) <= max {
        Some(digits_value(t))
    } else {
        None
    }
}

/// A socket address as the standard library reads it: `a.b.c.d:port`, or
/// `[ipv6]:port` with an optional `%scope` after the address, the port and
/// scope plain decimal.
pub open spec fn spec_parse_socket_addr(s: Seq<char>) -> Option<SockAddr> {
    let k = first_index_char(s, ':');
    if k < s.len() && spec_parse_ipv4(s.take(k)) is Some && spec_decimal_at_most(s.skip(k + 1), 65535) is Some {
        let o = spec_parse_ipv4(s.take(k))->0;
        Some(SockAddr {
            v6: false,
            ip: spec_ipv4_u32(o) as u128,
            port: spec_decimal_at_most(s.skip(k + 1), 65535)->0 as u16,
            scope_id: 0,
        })
    } else if s.len() > 0 && s[0] == '[' {
        let e = first_index_char(s, ']');
        if e + 1 < s.len() && s[e + 1] == ':' {
            let inside = s.subrange(1, e);
            let pct = first_index_char(inside, '%');
            let scope = if pct < inside.len() {
                spec_decimal_at_most(inside.skip(pct + 1), u32::MAX as nat)
            } else {
                Some(0nat)
            };
            match (spec_parse_ipv6(inside.take(pct)), scope, spec_decimal_at_most(s.skip(e + 2), 65535)) {
                (Some(w), Some(sc), Some(p)) => Some(SockAddr { v6: true, ip: words_value(w) as u128, port: p as u16, scope_id: sc as u32 }),
                _ => None,
            }
        } else {
            None
        }
    } else {
        None
    }
}

fn decimal_at_most(v: &[char], max: u64) -> (r: Option<u64>)
    ensures
        match r {
            Some(n) => spec_decimal_at_most(v@, max as nat) == Some(n as nat),
            None => spec_decimal_at_most(v@, max as nat) is None,
        },
{
    if v.len() == 0 || v[0] == '+' {
        proof {
            if v@.len() > 0 {
                assert(!is_digit(v@[0]));
            }
        }
        return None;
    }
    let r = crate::text::parse_unsigned_chars(v, max);
    proof {
        assert(crate::text::unsigned_body(v@) == v@);
    }
    r
}

/// Parses a socket address the way the standard library does.
pub fn parse_socket_addr(s: &str) -> (r: Option<SockAddr>)
    ensures
        r == spec_parse_socket_addr(s@),
{
    let v = chars_of(s);
    let k = crate::text::find_char(&v, ':');
    proof {
        lemma_first_index_char(v@, ':');
    }
    if k < v.len() {
        let host = string_of(&slice_chars(&v, 0, k));
        assert(host@ =~= v@.take(k as int));
        let port_text = slice_chars(&v, k + 1, v.len());
        assert(port_text@ =~= v@.skip(k + 1));
        match (parse_ipv4(host.as_str()), decimal_at_most(&port_text, 65535)) {
            (Some(o), Some(p)) => {
                return Some(SockAddr { v6: false, ip: ipv4_to_u32(o) as u128, port: p as u16, scope_id: 0 });
            },
            _ => {},
        }
    }
    if v.len() == 0 || v[0] != '[' {
        return None;
    }
    let e = crate::text::find_char(&v, ']');
    proof {
        lemma_first_index_char(v@, ']');
    }
    if e >= v.len() || e + 1 >= v.len() || v[e + 1] != ':' {
        return None;
    }
    let inside = slice_chars(&v, 1, e);
    let pct = crate::text::find_char(&inside, '%');
    proof {
        lemma_first_index_char(inside@, '%');
    }
    let scope: Option<u64> = if pct < inside.len() {
        let sc = slice_chars(&inside, pct + 1, inside.len());
        assert(sc@ =~= inside@.skip(pct + 1));
        decimal_at_most(&sc, 0xffff_ffff)
    } else {
        Some(0)
    };
    let addr = string_of(&slice_chars(&inside, 0, pct));
    assert(addr@ =~= inside@.take(pct as int));
    let port_text = slice_chars(&v, e + 2, v.len());
    assert(port_text@ =~= v@.skip(e + 2));
    match (parse_ipv6(addr.as_str()), scope, decimal_at_most(&port_text, 65535)) {
        (Some(w), Some(sc), Some(p)) => Some(SockAddr { v6: true, ip: words_to_u128(w), port: p as u16, scope_id: sc as u32 }),
        _ => None,
    }
}

pub open spec fn hex_char(d: int) -> char {
    if d < 10 { ((('0' as int) + d) as u32) as char } else { ((('a' as int) + d - 10) as u32) as char }
}

/// Lowercase hex digits of `x`, no leading zeros.
pub open spec fn hex_text(x: nat) -> Seq<char>
    decreases x,
{
    if x < 16 { seq![hex_char(x as int)] } else { hex_text(x / 16).push(hex_char((x % 16) as int)) }
}

/// Groups in hex joined by `:`.
pub open spec fn join_groups(w: Seq<u16>) -> Seq<char>
    decreases w.len(),
{
    if w.len() == 0 {
        seq![]
    } else if w.len() == 1 {
        hex_text(w[0] as nat)
    } else {
        join_groups(w.drop_last()) + seq![':'] + hex_text(w.last() as nat)
    }
}

/// How many zero groups run from index `i` on.
pub open spec fn zero_run(w: Seq<u16>, i: int) -> nat
    decreases w.len() - i,
{
    if 0 <= i < w.len() && w[i] == 0 { 1 + zero_run(w, i + 1) } else { 0 }
}

/// The first longest run of zero groups among the first `n` start
/// positions, as start and length.
pub open spec fn longest_zero_run(w: Seq<u16>, n: nat) -> (int, nat)
    decreases n,
{
    if n == 0 {
        (0, 0)
    } else {
        let b = longest_zero_run(w, (n - 1) as nat);
        let r = zero_run(w, n - 1);
        if r > b.1 { (n - 1, r) } else { b }
    }
}

/// Dotted-decimal text of four octets.
pub open spec fn dotted(o: Seq<u8>) -> Seq<char> {
    decimal(o[0] as nat) + seq!['.'] + decimal(o[1] as nat) + seq!['.'] + decimal(o[2] as nat) + seq!['.']
        + decimal(o[3] as nat)
}

/// The canonical text of an IPv6 address (RFC 5952): lowercase hex groups
/// without leading zeros, the first longest run of two or more zero groups
/// written `::`, and an IPv4-mapped address written `::ffff:a.b.c.d`.
pub open spec fn ipv6_text(w: Seq<u16>) -> Seq<char> {
    if w[0] == 0 && w[1] == 0 && w[2] == 0 && w[3] == 0 && w[4] == 0 && w[5] == 0xffff {
        "::ffff:"@ + dotted(seq![(w[6] / 256) as u8, (w[6] % 256) as u8, (w[7] / 256) as u8, (w[7] % 256) as u8])
    } else {
        let z = longest_zero_run(w, 8);
        if z.1 > 1 {
            join_groups(w.take(z.0)) + "::"@ + join_groups(w.skip(z.0 + z.1))
        } else {
            join_groups(w)
        }
    }
}

fn hex_chars(x: u16) -> (r: Vec<char>)
    ensures
        r@ == hex_text(x as nat),
    decreases x,
{
    let d = x % 16;
    let c: char = if d < 10 { (48u8 + d as u8) as char } else { (87u8 + d as u8) as char };
    proof {
        assert(c == hex_char(d as int));
    }
    if x < 16 {
        let mut r: Vec<char> = Vec::new();
        r.push(c);
        assert(r@ =~= seq![hex_char(x as int)]);
        r
    } else {
        let mut r = hex_chars(x / 16);
        r.push(c);
        r
    }
}

fn join_groups_exec(w: &Vec<u16>, a: usize, b: usize) -> (r: Vec<char>)
    requires
        a <= b <= w@.len(),
    ensures
        r@ == join_groups(w@.subrange(a as int, b as int)),
{
    let mut r: Vec<char> = Vec::new();
    let mut i = a;
    assert(w@.subrange(a as int, a as int) =~= Seq::<u16>::empty());
    while i < b
        invariant
            a <= i <= b <= w@.len(),
            r@ == join_groups(w@.subrange(a as int, i as int)),
        decreases b - i,
    {
        let ghost pre = w@.subrange(a as int, i as int);
        let ghost nxt = w@.subrange(a as int, i + 1);
        assert(nxt.drop_last() =~= pre);
        assert(nxt.last() == w@[i as int]);
        let h = hex_chars(w[i]);
        if i > a {
            r.push(':');
        }
        let mut hh = h;
        r.append(&mut hh);
        proof {
            if i == a {
                assert(nxt.len() == 1);
                assert(r@ =~= hex_text(w@[i as int] as nat));
            } else {
                assert(r@ =~= join_groups(pre) + seq![':'] + hex_text(w@[i as int] as nat));
            }
        }
        i += 1;
    }
    r
}

fn zero_run_at(w: &Vec<u16>, i: usize) -> (n: usize)
    requires
        i <= w@.len(),
    ensures
        n == zero_run(w@, i as int),
        n <= w@.len() - i,
    decreases w@.len() - i,
{
    if i < w.len() && w[i] == 0 {
        1 + zero_run_at(w, i + 1)
    } else {
        0
    }
}

fn push_decimal(out: &mut Vec<char>, n: u8)
    ensures
        final(out)@ == old(out)@ + decimal(n as nat),
{
    let t = crate::text::decimal_string(n as u64);
    let v = chars_of(t.as_str());
    let mut vv = v;
    out.append(&mut vv);
}

/// The canonical text of an IPv6 address.
pub fn ipv6_string(w: [u16; 8]) -> (r: String)
    ensures
        r@ == ipv6_text(w@),
{
    let wv: Vec<u16> = vec![w[0], w[1], w[2], w[3], w[4], w[5], w[6], w[7]];
    assert(wv@ =~= w@);
    let mut out: Vec<char> = Vec::new();
    if w[0] == 0 && w[1] == 0 && w[2] == 0 && w[3] == 0 && w[4] == 0 && w[5] == 0xffff {
        out.push(':');
        out.push(':');
        out.push('f');
        out.push('f');
        out.push('f');
        out.push('f');
        out.push(':');
        let o = [(w[6] / 256) as u8, (w[6] % 256) as u8, (w[7] / 256) as u8, (w[7] % 256) as u8];
        push_decimal(&mut out, o[0]);
        out.push('.');
        push_decimal(&mut out, o[1]);
        out.push('.');
        push_decimal(&mut out, o[2]);
        out.push('.');
        push_decimal(&mut out, o[3]);
        proof {
            reveal_strlit("::ffff:");
            assert(out@ =~= "::ffff:"@ + dotted(seq![o[0], o[1], o[2], o[3]]));
        }
        return string_of(&out);
    }
    let mut best_start: usize = 0;
    let mut best_len: usize = 0;
    let mut n: usize = 0;
    while n < 8
        invariant
            wv@ == w@,
            n <= 8,
            (best_start as int, best_len as nat) == longest_zero_run(w@, n as nat),
            best_start + best_len <= 8,
        decreases 8 - n,
    {
        let r = zero_run_at(&wv, n);
        if r > best_len {
            best_start = n;
            best_len = r;
        }
        n += 1;
    }
    if best_len > 1 {
        let mut head = join_groups_exec(&wv, 0, best_start);
        let mut tail = join_groups_exec(&wv, best_start + best_len, 8);
        assert(wv@.subrange(0, best_start as int) =~= w@.take(best_start as int));
        assert(wv@.subrange((best_start + best_len) as int, 8) =~= w@.skip((best_start + best_len) as int));
        out.append(&mut head);
        out.push(':');
        out.push(':');
        out.append(&mut tail);
        proof {
            reveal_strlit("::");
            assert(out@ =~= join_groups(w@.take(best_start as int)) + "::"@ + join_groups(w@.skip((best_start + best_len) as int)));
        }
    } else {
        let mut all = join_groups_exec(&wv, 0, 8);
        assert(wv@.subrange(0, 8) =~= w@);
        out.append(&mut all);
    }
    string_of(&out)
}

/// The host and port of a socket address, the host written the way the
/// standard library writes an IP address.
pub open spec fn spec_socket_host(s: Seq<char>) -> Option<(Seq<char>, u16)> {
    let k = first_index_char(s, ':');
    if k < s.len() && spec_parse_ipv4(s.take(k)) is Some && spec_decimal_at_most(s.skip(k + 1), 65535) is Some {
        Some((dotted(spec_parse_ipv4(s.take(k))->0), spec_decimal_at_most(s.skip(k + 1), 65535)->0 as u16))
    } else {
        match spec_parse_socket_addr(s) {
            Some(a) => {
                let e = first_index_char(s, ']');
                let inside = s.subrange(1, e);
                let w = spec_parse_ipv6(inside.take(first_index_char(inside, '%')))->0;
                Some((ipv6_text(w), a.port))
            },
            None => None,
        }
    }
}

/// The host text and port of a socket address, if `s` is one.
pub fn socket_host(s: &str) -> (r: Option<(String, u16)>)
    ensures
        match r {
            Some((h, p)) => spec_socket_host(s@) == Some((h@, p)),
            None => spec_socket_host(s@) is None,
        },
{
    let v = chars_of(s);
    let k = crate::text::find_char(&v, ':');
    proof {
        lemma_first_index_char(v@, ':');
    }
    if k < v.len() {
        let host = string_of(&slice_chars(&v, 0, k));
        assert(host@ =~= v@.take(k as int));
        let port_text = slice_chars(&v, k + 1, v.len());
        assert(port_text@ =~= v@.skip(k + 1));
        match (parse_ipv4(host.as_str()), decimal_at_most(&port_text, 65535)) {
            (Some(o), Some(p)) => {
                let mut out: Vec<char> = Vec::new();
                push_decimal(&mut out, o[0]);
                out.push('.');
                push_decimal(&mut out, o[1]);
                out.push('.');
                push_decimal(&mut out, o[2]);
                out.push('.');
                push_decimal(&mut out, o[3]);
                assert(out@ =~= dotted(o@));
                return Some((string_of(&out), p as u16));
            },
            _ => {},
        }
    }
    match parse_socket_addr(s) {
        None => None,
        Some(a) => {
            let e = crate::text::find_char(&v, ']');
            proof {
                lemma_first_index_char(v@, ']');
            }
            let inside = slice_chars(&v, 1, e);
            let pct = crate::text::find_char(&inside, '%');
            proof {
                lemma_first_index_char(inside@, '%');
            }
            let addr = string_of(&slice_chars(&inside, 0, pct));
            assert(addr@ =~= inside@.take(pct as int));
            match parse_ipv6(addr.as_str()) {
                Some(w) => Some((ipv6_string(w), a.port)),
                None => None,
            }
        },
    }
}

/// How the standard library writes a socket address: `a.b.c.d:port`, or
/// `[ipv6]:port` with `%scope` inside the brackets when the scope is not 0.
pub open spec fn spec_socket_display(s: Seq<char>) -> Option<Seq<char>> {
    match spec_socket_host(s) {
        None => None,
        Some((h, p)) => {
            let a = spec_parse_socket_addr(s)->0;
            if !a.v6 {
                Some(h + seq![':'] + decimal(p as nat))
            } else if a.scope_id == 0 {
                Some(seq!['['] + h + seq![']', ':'] + decimal(p as nat))
            } else {
                Some(seq!['['] + h + seq!['%'] + decimal(a.scope_id as nat) + seq![']', ':'] + decimal(p as nat))
            }
        },
    }
}

/// The text of a socket address as the standard library writes it, if `s`
/// is one.
pub fn socket_display(s: &str) -> (r: Option<String>)
    ensures
        match r {
            Some(t) => spec_socket_display(s@) == Some(t@),
            None => spec_socket_display(s@) is None,
        },
{
    let (h, p) = match socket_host(s) {
        Some(hp) => hp,
        None => return None,
    };
    let a = match parse_socket_addr(s) {
        Some(a) => a,
        None => return None,
    };
    let hv = chars_of(h.as_str());
    let mut out: Vec<char> = Vec::new();
    let port = crate::text::decimal_string(p as u64);
    let pv = chars_of(port.as_str());
    if !a.v6 {
        let mut x = hv;
        out.append(&mut x);
        out.push(':');
        let mut y = pv;
        out.append(&mut y);
        assert(out@ =~= h@ + seq![':'] + decimal(p as nat));
    } else {
        out.push('[');
        let mut x = hv;
        out.append(&mut x);
        if a.scope_id != 0 {
            out.push('%');
            let sc = crate::text::decimal_string(a.scope_id as u64);
            let mut z = chars_of(sc.as_str());
            out.append(&mut z);
        }
        out.push(']');
        out.push(':');
        let mut y = pv;
        out.append(&mut y);
        proof {
            if a.scope_id == 0 {
                assert(out@ =~= seq!['['] + h@ + seq![']', ':'] + decimal(p as nat));
            } else {
                assert(out@ =~= seq!['['] + h@ + seq!['%'] + decimal(a.scope_id as nat) + seq![']', ':'] + decimal(p as nat));
            }
        }
    }
    Some(string_of(&out))
}

/// The eight 16-bit words of a 128-bit address, most significant first.
pub open spec fn words_of(x: u128) -> Seq<u16> {
    seq![
        (x >> 112u128) as u16, (x >> 96u128) as u16, (x >> 80u128) as u16, (x >> 64u128) as u16,
        (x >> 48u128) as u16, (x >> 32u128) as u16, (x >> 16u128) as u16, x as u16,
    ]
}

/// The four octets of the low 32 bits of `x`, most significant first.
pub open spec fn octets_of(x: u128) -> Seq<u8> {
    seq![(x >> 24u128) as u8, (x >> 16u128) as u8, (x >> 8u128) as u8, x as u8]
}

/// How the standard library writes a socket address: `a.b.c.d:port`, or
/// `[ipv6]:port` with `%scope` inside the brackets when the scope is not 0.
pub open spec fn spec_sockaddr_text(a: SockAddr) -> Seq<char> {
    if !a.v6 {
        dotted(octets_of(a.ip)) + seq![':'] + decimal(a.port as nat)
    } else if a.scope_id == 0 {
        seq!['['] + ipv6_text(words_of(a.ip)) + seq![']', ':'] + decimal(a.port as nat)
    } else {
        seq!['['] + ipv6_text(words_of(a.ip)) + seq!['%'] + decimal(a.scope_id as nat) + seq![']', ':']
            + decimal(a.port as nat)
    }
}

/// The text of a socket address.
pub fn sockaddr_text(a: SockAddr) -> (r: String)
    ensures
        r@ == spec_sockaddr_text(a),
{
    let x = a.ip;
    let mut out: Vec<char> = Vec::new();
    if !a.v6 {
        let o = [(x >> 24u128) as u8, (x >> 16u128) as u8, (x >> 8u128) as u8, x as u8];
        push_decimal(&mut out, o[0]);
        out.push('.');
        push_decimal(&mut out, o[1]);
        out.push('.');
        push_decimal(&mut out, o[2]);
        out.push('.');
        push_decimal(&mut out, o[3]);
        assert(out@ =~= dotted(octets_of(x)));
    } else {
        let w: [u16; 8] = [
            (x >> 112u128) as u16, (x >> 96u128) as u16, (x >> 80u128) as u16, (x >> 64u128) as u16,
            (x >> 48u128) as u16, (x >> 32u128) as u16, (x >> 16u128) as u16, x as u16,
        ];
        assert(w@ =~= words_of(x));
        let h = ipv6_string(w);
        out.push('[');
        let mut hv = chars_of(h.as_str());
        out.append(&mut hv);
        if a.scope_id != 0 {
            out.push('%');
            let sc = crate::text::decimal_string(a.scope_id as u64);
            let mut z = chars_of(sc.as_str());
            out.append(&mut z);
        }
        out.push(']');
    }
    out.push(':');
    let pt = crate::text::decimal_string(a.port as u64);
    let mut pv = chars_of(pt.as_str());
    out.append(&mut pv);
    proof {
        if a.v6 {
            if a.scope_id == 0 {
                assert(out@ =~= seq!['['] + ipv6_text(words_of(a.ip)) + seq![']', ':'] + decimal(a.port as nat));
            } else {
                assert(out@ =~= seq!['['] + ipv6_text(words_of(a.ip)) + seq!['%'] + decimal(a.scope_id as nat)
                    + seq![']', ':'] + decimal(a.port as nat));
            }
        } else {
            assert(out@ =~= dotted(octets_of(a.ip)) + seq![':'] + decimal(a.port as nat));
        }
    }
    string_of(&out)
}

} // verus!
