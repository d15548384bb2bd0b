//! DNS wire format: reading names, and pulling the `ech` SvcParam out of an
//! HTTPS-record answer that must match the question that was asked.
use vstd::prelude::*;
use vstd::string::StringSliceAdditionalSpecFns;

use crate::bytes::{be16, copy_range, get_be16, push_be16, read_be16};
use crate::ip::{parse_ipv4, spec_parse_ipv4};
use crate::text::{opt_view, trim};
use crate::text::push_chars;

verus! {

pub const RR_HTTPS: u16 = 65;
pub const SVCPARAM_ECH: u16 = 5;

/// The text `String::from_utf8_lossy` makes of `b`: the bytes decoded as UTF-8,
/// each invalid sequence replaced by U+FFFD.
pub uninterp spec fn utf8_lossy(b: Seq<u8>) -> Seq<char>;

/// `String::from_utf8_lossy(b).into_owned()`: valid UTF-8 comes back as
/// the text it encodes.
#[verifier::external_body]
pub(crate) fn lossy_string(b: &[u8]) -> (s: String)
    ensures
        s@ == utf8_lossy(b@),
        vstd::utf8::valid_utf8(b@) ==> s@ == vstd::utf8::decode_utf8(b@),
{
    String::from_utf8_lossy(b).into_owned()
}

/// The labels of the uncompressed name at `pos`, or `None` when a label runs
/// past the buffer or a compression pointer appears.
pub open spec fn spec_labels(buf: Seq<u8>, pos: int) -> Option<Seq<Seq<u8>>>
    decreases buf.len() - pos,
{
    if pos < 0 || pos >= buf.len() {
        None
    } else {
        let len = buf[pos];
        if len & 0xc0 == 0xc0 {
            None
        } else if len == 0 {
            Some(Seq::empty())
        } else {
            let end = pos + 1 + len;
            if end > buf.len() {
                None
            } else {
                match spec_labels(buf, end) {
                    None => None,
                    Some(rest) => Some(seq![buf.subrange(pos + 1, end)] + rest),
                }
            }
        }
    }
}

/// Texts joined with `.` between them.
pub open spec fn join_dot(parts: Seq<Seq<char>>) -> Seq<char>
    decreases parts.len(),
{
    if parts.len() == 0 {
        Seq::empty()
    } else if parts.len() == 1 {
        parts[0]
    } else {
        join_dot(parts.drop_last()) + seq!['.'] + parts.last()
    }
}

/// The text of one label: what its bytes encode when they are valid UTF-8
/// (as every ASCII label is), else the lossy decoding.
pub open spec fn label_text(b: Seq<u8>) -> Seq<char> {
    if vstd::utf8::valid_utf8(b) { vstd::utf8::decode_utf8(b) } else { utf8_lossy(b) }
}

/// The name `read_name` reports for the labels `l`.
pub open spec fn name_text(l: Seq<Seq<u8>>) -> Seq<char> {
    join_dot(l.map_values(|b: Seq<u8>| label_text(b)))
}

/// Label bytes joined with the byte `.` between them.
pub open spec fn join_dot_bytes(parts: Seq<Seq<u8>>) -> Seq<u8>
    decreases parts.len(),
{
    if parts.len() == 0 {
        Seq::empty()
    } else if parts.len() == 1 {
        parts[0]
    } else {
        join_dot_bytes(parts.drop_last()) + seq![46u8] + parts.last()
    }
}

proof fn lemma_encode_concat(a: Seq<char>, b: Seq<char>)
    ensures
        vstd::utf8::encode_utf8(a + b) == vstd::utf8::encode_utf8(a) + vstd::utf8::encode_utf8(b),
    decreases a.len(),
{
    if a.len() > 0 {
        lemma_encode_concat(a.drop_first(), b);
        assert((a + b).drop_first() =~= a.drop_first() + b);
        assert((a + b)[0] == a[0]);
    } else {
        assert(a + b =~= b);
    }
}

/// When every label is valid UTF-8 the name `read_name` reports encodes to
/// the labels' own bytes joined with dots.
pub proof fn lemma_name_text_bytes(l: Seq<Seq<u8>>)
    requires
        forall|i: int| 0 <= i < l.len() ==> vstd::utf8::valid_utf8(#[trigger] l[i]),
    ensures
        vstd::utf8::encode_utf8(name_text(l)) == join_dot_bytes(l),
    decreases l.len(),
{
    let t = l.map_values(|b: Seq<u8>| label_text(b));
    if l.len() == 1 {
        vstd::utf8::decode_utf8_encode_utf8(l[0]);
    } else if l.len() > 1 {
        let p = l.drop_last();
        assert(t.drop_last() =~= p.map_values(|b: Seq<u8>| label_text(b)));
        assert forall|i: int| 0 <= i < p.len() implies vstd::utf8::valid_utf8(#[trigger] p[i]) by {
            assert(p[i] == l[i]);
        }
        lemma_name_text_bytes(p);
        let dot = seq!['.'];
        lemma_encode_concat(join_dot(t.drop_last()), dot);
        lemma_encode_concat(join_dot(t.drop_last()) + dot, t.last());
        assert(vstd::utf8::encode_utf8(dot) =~= seq![46u8]) by {
            assert(dot.drop_first() =~= Seq::<char>::empty());
            assert(dot[0] as u32 == 46u32);
            assert(((46u32 & 0x7Fu32) as u8) == 46u8) by (bit_vector);
            assert(vstd::utf8::encode_scalar(46u32) =~= seq![46u8]);
            assert(vstd::utf8::encode_utf8(Seq::<char>::empty()) =~= Seq::<u8>::empty());
        }
        assert(t.last() == label_text(l.last()));
        vstd::utf8::decode_utf8_encode_utf8(l.last());
    }
}

/// Decode an uncompressed wire name. Question-section names are never
/// compressed, so a pointer here is a forged or malformed reply.
pub fn read_name(buf: &[u8], pos: usize) -> (r: Option<String>)
    ensures
        match spec_labels(buf@, pos as int) {
            None => r is None,
            Some(l) => r matches Some(s) && s@ == name_text(l),
        },
{
    let mut parts: Vec<String> = Vec::new();
    let mut p = pos;
    let ghost labels: Seq<Seq<u8>> = Seq::empty();
    loop
        invariant
            pos <= p,
            spec_labels(buf@, pos as int) == match spec_labels(buf@, p as int) {
                None => None,
                Some(rest) => Some(labels + rest),
            },
            parts@.len() == labels.len(),
            forall|i: int| 0 <= i < labels.len() ==> #[trigger] parts@[i]@ == label_text(labels[i]),
        ensures
            spec_labels(buf@, pos as int) == Some(labels),
            parts@.len() == labels.len(),
            forall|i: int| 0 <= i < labels.len() ==> #[trigger] parts@[i]@ == label_text(labels[i]),
        decreases buf@.len() - p,
    {
        if p >= buf.len() {
            return None;
        }
        let len = buf[p];
        if len & 0xc0 == 0xc0 {
            return None;
        }
        if len == 0 {
            assert(labels + Seq::<Seq<u8>>::empty() =~= labels);
            break;
        }
        let start = p + 1;
        if buf.len() - start < len as usize {
            return None;
        }
        let end = start + len as usize;
        let label = copy_range(buf, start, end);
        parts.push(lossy_string(&label));
        proof {
            let rest = spec_labels(buf@, end as int);
            if let Some(t) = rest {
                assert(labels + (seq![label@] + t) =~= labels.push(label@) + t);
            }
            labels = labels.push(label@);
        }
        p = end;
    }
    let ghost texts = labels.map_values(|b: Seq<u8>| label_text(b));
    let mut out = String::new();
    let mut i: usize = 0;
    while i < parts.len()
        invariant
            i <= parts@.len(),
            parts@.len() == labels.len(),
            texts == labels.map_values(|b: Seq<u8>| label_text(b)),
            forall|k: int| 0 <= k < labels.len() ==> #[trigger] parts@[k]@ == label_text(labels[k]),
            out@ == join_dot(texts.take(i as int)),
        decreases parts@.len() - i,
    {
        let ghost prev = out@;
        if i > 0 {
            push_chars(&mut out, &['.']);
        }
        let t = parts[i].as_str();
        out.append(t);
        proof {
            assert(texts.take(i + 1).drop_last() =~= texts.take(i as int));
            assert(texts[i as int] == parts@[i as int]@);
            if i == 0 {
                assert(texts.take(1) =~= seq![texts[0]]);
                assert(out@ =~= join_dot(texts.take(1)));
            } else {
                assert(['.']@ =~= seq!['.']);
                assert(out@ =~= join_dot(texts.take(i + 1)));
            }
        }
        i += 1;
    }
    assert(texts.take(parts@.len() as int) =~= texts);
    assert(out@ == name_text(labels));
    Some(out)
}

/// Where the name at `pos` ends: after the terminating zero label, or after a
/// two-byte compression pointer.
pub open spec fn spec_skip_name(buf: Seq<u8>, pos: int) -> Option<int>
    decreases buf.len() - pos,
{
    if pos < 0 || pos >= buf.len() {
        None
    } else {
        let len = buf[pos];
        if len & 0xc0 == 0xc0 {
            Some(pos + 2)
        } else if len == 0 {
            Some(pos + 1)
        } else if pos + 1 + len >= buf.len() {
            None
        } else {
            spec_skip_name(buf, pos + 1 + len)
        }
    }
}

pub proof fn lemma_skip_name_bounds(buf: Seq<u8>, pos: int)
    ensures
        spec_skip_name(buf, pos) matches Some(e) ==> pos < e <= buf.len() + 1,
    decreases buf.len() - pos,
{
    if 0 <= pos < buf.len() {
        let len = buf[pos];
        if len & 0xc0 != 0xc0 && len != 0 && pos + 1 + len < buf.len() {
            lemma_skip_name_bounds(buf, pos + 1 + len);
        }
    }
}

pub fn skip_name(buf: &[u8], pos: usize) -> (r: Option<usize>)
    requires
        buf@.len() + 256 <= usize::MAX,
    ensures
        match spec_skip_name(buf@, pos as int) {
            None => r is None,
            Some(e) => r matches Some(x) && x as int == e && pos < e <= buf@.len() + 1,
        },
{
    proof {
        lemma_skip_name_bounds(buf@, pos as int);
    }
    let mut p = pos;
    loop
        invariant
            buf@.len() + 256 <= usize::MAX,
            spec_skip_name(buf@, pos as int) == spec_skip_name(buf@, p as int),
            spec_skip_name(buf@, pos as int) matches Some(e) ==> pos < e <= buf@.len() + 1,
        decreases buf@.len() - p,
    {
        if p >= buf.len() {
            return None;
        }
        let len = buf[p];
        if len & 0xc0 == 0xc0 {
            return Some(p + 2);
        }
        if len == 0 {
            return Some(p + 1);
        }
        if buf.len() - p <= 1 + len as usize {
            return None;
        }
        p = p + 1 + len as usize;
    }
}

pub open spec fn lower_byte_spec(b: u8) -> u8 {
    if 0x41 <= b <= 0x5a {
        (b + 32) as u8
    } else {
        b
    }
}

/// Equal up to ASCII case, byte for byte (`eq_ignore_ascii_case`).
pub open spec fn ascii_ieq(a: Seq<u8>, b: Seq<u8>) -> bool {
    a.len() == b.len() && forall|i: int| 0 <= i < a.len() ==> lower_byte_spec(a[i]) == lower_byte_spec(b[i])
}

fn ieq_bytes(a: &[u8], b: &[u8]) -> (r: bool)
    ensures
        r == ascii_ieq(a@, b@),
{
    if a.len() != b.len() {
        return false;
    }
    let mut i: usize = 0;
    while i < a.len()
        invariant
            a@.len() == b@.len(),
            i <= a@.len(),
            forall|j: int| 0 <= j < i ==> lower_byte_spec(a@[j]) == lower_byte_spec(b@[j]),
        decreases a@.len() - i,
    {
        let x = a[i];
        let y = b[i];
        let lx = if 0x41 <= x && x <= 0x5a {
            x + 32
        } else {
            x
        };
        let ly = if 0x41 <= y && y <= 0x5a {
            y + 32
        } else {
            y
        };
        if lx != ly {
            return false;
        }
        i += 1;
    }
    true
}

/// The `ech` parameters in the SvcParams after the target name, up to `end`.
pub open spec fn spec_svc_loop(msg: Seq<u8>, p: int, end: int) -> Option<Seq<u8>>
    decreases end - p,
{
    if p + 4 > end {
        None
    } else {
        let key = get_be16(msg, p);
        let len = get_be16(msg, p + 2) as int;
        let q = p + 4;
        if q + len > end {
            None
        } else if key == SVCPARAM_ECH {
            Some(msg.subrange(q, q + len))
        } else {
            spec_svc_loop(msg, q + len, end)
        }
    }
}

/// The `ech` SvcParam value in the HTTPS rdata at `start` of length `rdlen`.
pub open spec fn spec_svcparams_ech(msg: Seq<u8>, start: int, rdlen: int) -> Option<Seq<u8>> {
    let end = start + rdlen;
    if start + 2 > end {
        None
    } else {
        match spec_skip_name(msg, start + 2) {
            None => None,
            Some(p) => spec_svc_loop(msg, p, end),
        }
    }
}

pub fn parse_svcparams_ech(msg: &[u8], rdata_start: usize, rdlen: usize) -> (r: Option<Vec<u8>>)
    requires
        rdata_start + rdlen <= msg@.len(),
        msg@.len() + 256 <= usize::MAX,
    ensures
        match spec_svcparams_ech(msg@, rdata_start as int, rdlen as int) {
            None => r is None,
            Some(v) => r matches Some(x) && x@ == v,
        },
{
    let end = rdata_start + rdlen;
    if rdata_start + 2 > end {
        return None;
    }
    let mut p = match skip_name(msg, rdata_start + 2) {
        None => {
            return None;
        },
        Some(p) => p,
    };
    while p <= end && end - p >= 4
        invariant
            end <= msg@.len(),
            msg@.len() + 256 <= usize::MAX,
            p <= msg@.len() + 1,
            spec_svcparams_ech(msg@, rdata_start as int, rdlen as int) == spec_svc_loop(
                msg@,
                p as int,
                end as int,
            ),
        decreases end - p,
    {
        let key = read_be16(msg, p);
        let len = read_be16(msg, p + 2) as usize;
        let q = p + 4;
        if q > end || end - q < len {
            return None;
        }
        if key == SVCPARAM_ECH {
            return Some(copy_range(msg, q, q + len));
        }
        p = q + len;
    }
    None
}

/// Answers left to read: the first HTTPS record that carries an `ech`
/// parameter, scanning `n` resource records from `pos`.
pub open spec fn spec_answers(msg: Seq<u8>, pos: int, n: nat) -> Option<Seq<u8>>
    decreases n,
{
    if n == 0 {
        None
    } else {
        match spec_skip_name(msg, pos) {
            None => None,
            Some(p2) => {
                if p2 + 10 > msg.len() {
                    None
                } else {
                    let rtype = get_be16(msg, p2);
                    let rdlen = get_be16(msg, p2 + 8) as int;
                    let p = p2 + 10;
                    if p + rdlen > msg.len() {
                        None
                    } else if rtype == RR_HTTPS && spec_svcparams_ech(msg, p, rdlen) is Some {
                        spec_svcparams_ech(msg, p, rdlen)
                    } else {
                        spec_answers(msg, p + rdlen, (n - 1) as nat)
                    }
                }
            },
        }
    }
}

/// Whether the question labels `l` spell `name`, ignoring ASCII case: on
/// the labels' own bytes joined with dots when they are valid UTF-8, else on
/// the encoding of their lossy text.
pub open spec fn question_is(l: Seq<Seq<u8>>, name: Seq<u8>) -> bool {
    if forall|i: int| 0 <= i < l.len() ==> vstd::utf8::valid_utf8(#[trigger] l[i]) {
        ascii_ieq(join_dot_bytes(l), name)
    } else {
        ascii_ieq(vstd::utf8::encode_utf8(name_text(l)), name)
    }
}

/// The ECHConfigList an HTTPS-record reply carries for the question `(qid,
/// name)`: the reply must be a complete, successful standard answer to exactly
/// that question.
pub open spec fn spec_https_ech(msg: Seq<u8>, qid: u16, name: Seq<u8>) -> Option<Seq<u8>> {
    if msg.len() < 12 || get_be16(msg, 0) != qid {
        None
    } else {
        let flags = get_be16(msg, 2);
        let qr = flags & 0x8000u16 != 0;
        let opcode = (flags >> 11u16) & 0x0fu16;
        let tc = flags & 0x0200u16 != 0;
        let rcode = flags & 0x000fu16;
        if !qr || opcode != 0 || tc || rcode != 0 || get_be16(msg, 4) != 1 {
            None
        } else {
            match spec_labels(msg, 12) {
                None => None,
                Some(l) => if !question_is(l, name) {
                    None
                } else {
                    match spec_skip_name(msg, 12) {
                        None => None,
                        Some(pos) => if pos + 4 > msg.len() || get_be16(msg, pos) != RR_HTTPS {
                            None
                        } else {
                            spec_answers(msg, pos + 4, get_be16(msg, 6) as nat)
                        },
                    }
                },
            }
        }
    }
}

/// Read the HTTPS RR and pull out the `ech` SvcParam, after checking that the
/// reply answers the request: transaction id, `QR`, opcode, `TC`, rcode, and
/// the echoed question name and type.
pub fn parse_https_ech(msg: &[u8], qid: u16, name: &str) -> (r: Option<Vec<u8>>)
    requires
        msg@.len() + 256 <= usize::MAX,
    ensures
        match spec_https_ech(msg@, qid, name.spec_bytes()) {
            None => r is None,
            Some(v) => r matches Some(x) && x@ == v,
        },
{
    if msg.len() < 12 {
        return None;
    }
    if read_be16(msg, 0) != qid {
        return None;
    }
    let flags = read_be16(msg, 2);
    let qr = flags & 0x8000 != 0;
    let opcode = (flags >> 11) & 0x0f;
    let tc = flags & 0x0200 != 0;
    if !qr || opcode != 0 {
        return None;
    }
    if tc {
        return None;
    }
    let rcode = flags & 0x000f;
    if rcode != 0 {
        return None;
    }
    let qd = read_be16(msg, 4);
    let an = read_be16(msg, 6);
    if qd != 1 {
        return None;
    }
    let asked = match read_name(msg, 12) {
        None => {
            return None;
        },
        Some(a) => a,
    };
    proof {
        let l = spec_labels(msg@, 12)->0;
        if forall|i: int| 0 <= i < l.len() ==> vstd::utf8::valid_utf8(#[trigger] l[i]) {
            lemma_name_text_bytes(l);
        }
    }
    if !ieq_bytes(asked.as_str().as_bytes(), name.as_bytes()) {
        return None;
    }
    let mut pos = match skip_name(msg, 12) {
        None => {
            return None;
        },
        Some(p) => p,
    };
    if pos > msg.len() || msg.len() - pos < 4 {
        return None;
    }
    let qtype = read_be16(msg, pos);
    if qtype != RR_HTTPS {
        return None;
    }
    pos += 4;
    let mut left = an;
    while left > 0
        invariant
            msg@.len() + 256 <= usize::MAX,
            pos <= msg@.len(),
            spec_https_ech(msg@, qid, name.spec_bytes()) == spec_answers(msg@, pos as int, left as nat),
        decreases left,
    {
        let p2 = match skip_name(msg, pos) {
            None => {
                return None;
            },
            Some(p) => p,
        };
        if p2 > msg.len() || msg.len() - p2 < 10 {
            return None;
        }
        let rtype = read_be16(msg, p2);
        let rdlen = read_be16(msg, p2 + 8) as usize;
        let p = p2 + 10;
        if msg.len() - p < rdlen {
            return None;
        }
        if rtype == RR_HTTPS {
            if let Some(ech) = parse_svcparams_ech(msg, p, rdlen) {
                return Some(ech);
            }
        }
        pos = p + rdlen;
        left -= 1;
    }
    None
}

/// Sum of the big-endian 16-bit words of `h` from `i` (even), skipping the
/// checksum field at offset 10; an odd last byte counts as a high byte.
pub open spec fn csum_sum(h: Seq<u8>, i: int) -> nat
    decreases h.len() - i,
{
    if i + 1 >= h.len() {
        if 0 <= i < h.len() {
            (h[i] as nat) * 256
        } else {
            0
        }
    } else if i == 10 {
        csum_sum(h, i + 2)
    } else {
        get_be16(h, i) as nat + csum_sum(h, i + 2)
    }
}

pub open spec fn fold_once(s: nat) -> nat {
    s % 65536 + s / 65536
}

/// End-around carry of a one's-complement sum that fits in 32 bits.
pub open spec fn fold16(s: nat) -> nat {
    if s < 65536 {
        s
    } else if fold_once(s) < 65536 {
        fold_once(s)
    } else {
        fold_once(fold_once(s))
    }
}

/// The IPv4 header checksum of `header` (checksum field read as zero).
pub open spec fn spec_ipv4_checksum(header: Seq<u8>) -> u16 {
    (65535 - fold16(csum_sum(header, 0))) as u16
}

/// Compute the IPv4 header checksum (the checksum field at offset 10..12 is
/// treated as zero during computation).
pub fn ipv4_checksum(header: &[u8]) -> (r: u16)
    requires
        header@.len() <= 131072,
    ensures
        r == spec_ipv4_checksum(header@),
{
    let mut sum: u32 = 0;
    let mut i: usize = 0;
    while i + 1 < header.len()
        invariant
            header@.len() <= 131072,
            i <= header@.len() + 1,
            i % 2 == 0,
            2 * sum <= 65535 * i,
            sum + csum_sum(header@, i as int) == csum_sum(header@, 0),
        decreases header@.len() - i,
    {
        if i == 10 {
            i += 2;
            continue;
        }
        sum += read_be16(header, i) as u32;
        i += 2;
    }
    if i < header.len() {
        let b: u8 = header[i];
        assert(((b as u32) << 8u32) == (b as u32) * 256) by (bit_vector);
        sum += (b as u32) << 8;
    }
    assert(sum == csum_sum(header@, 0));
    let ghost total = sum as nat;
    while (sum >> 16) != 0
        invariant
            fold16(sum as nat) == fold16(total),
        decreases sum,
    {
        let s0 = sum;
        assert(s0 >> 16u32 == s0 / 65536 && s0 & 0xffffu32 == s0 % 65536) by (bit_vector);
        sum = (sum & 0xffff) + (sum >> 16);
        assert(sum as nat == fold_once(s0 as nat));
    }
    assert(sum >> 16u32 == 0 ==> sum < 65536) by (bit_vector);
    let r = !(sum as u16);
    assert(sum < 65536 ==> !(sum as u16) == (65535 - sum) as u16) by (bit_vector);
    r
}

/// An inbound IPv4 datagram is a UDP reply from `resolver`'s port 53 with
/// the reply marker set: the high bit of the byte four past the IP header,
/// which the outbound probe (and so an echo of it, even one rewritten to
/// come from the resolver's port) leaves clear.
pub open spec fn spec_is_dns_reply(pkt: Seq<u8>, resolver: Seq<u8>) -> bool {
    let ihl = ((pkt[0] & 0x0f) as int) * 4;
    pkt.len() >= 28 && pkt[0] >> 4u8 == 4 && ihl >= 20 && pkt.len() >= ihl + 8 && pkt[9] == 17
        && pkt.subrange(12, 16) == resolver && get_be16(pkt, ihl) == 53 && pkt[ihl + 4] & 0x80 != 0
}

/// Whether an inbound IPv4 datagram is a UDP DNS reply from `resolver`.
pub fn is_dns_reply(pkt: &[u8], resolver: [u8; 4]) -> (r: bool)
    ensures
        r == spec_is_dns_reply(pkt@, resolver@),
{
    if pkt.len() < 28 || pkt[0] >> 4 != 4 {
        return false;
    }
    let ihl = ((pkt[0] & 0x0f) as usize) * 4;
    if ihl < 20 || pkt.len() < ihl + 8 || pkt[9] != 17 {
        return false;
    }
    if pkt[12] != resolver[0] || pkt[13] != resolver[1] || pkt[14] != resolver[2] || pkt[15]
        != resolver[3] {
        assert(pkt@.subrange(12, 16)[0] == pkt@[12]);
        assert(pkt@.subrange(12, 16)[1] == pkt@[13]);
        assert(pkt@.subrange(12, 16)[2] == pkt@[14]);
        assert(pkt@.subrange(12, 16)[3] == pkt@[15]);
        return false;
    }
    assert(pkt@.subrange(12, 16) =~= resolver@);
    read_be16(pkt, ihl) == 53 && pkt[ihl + 4] & 0x80 != 0
}

/// The resolver the data-plane probe targets: the `AETHER_DATAPLANE_PROBE_IP`
/// setting when it is an IPv4 address (surrounding whitespace ignored), else
/// 8.8.8.8.
pub fn dataplane_probe_target(setting: Option<&str>) -> (r: [u8; 4])
    ensures
        match opt_view(setting) {
            Some(v) => match spec_parse_ipv4(trim(v)) {
                Some(o) => r@ == o,
                None => r@ == seq![8u8, 8, 8, 8],
            },
            None => r@ == seq![8u8, 8, 8, 8],
        },
{
    let dflt: [u8; 4] = [8, 8, 8, 8];
    assert(dflt@ =~= seq![8u8, 8, 8, 8]);
    match setting {
        None => dflt,
        Some(v) => {
            let t = crate::text::string_of(&crate::text::trimmed(v));
            match parse_ipv4(t.as_str()) {
                Some(o) => o,
                None => dflt,
            }
        },
    }
}

/// The DNS query the probe carries: an A query for cloudflare.com.
pub open spec fn probe_query(id: u16) -> Seq<u8> {
    be16(id) + seq![0x01u8, 0x00, 0x00, 0x01, 0x00, 0x00, 0x00, 0x00, 0x00, 0x00]
        + seq![10u8, 99, 108, 111, 117, 100, 102, 108, 97, 114, 101]
        + seq![3u8, 99, 111, 109, 0] + seq![0x00u8, 0x01, 0x00, 0x01]
}

/// The IPv4 header of the probe, checksum field zero.
pub open spec fn probe_header(src: Seq<u8>, resolver: Seq<u8>, ident: u16) -> Seq<u8> {
    seq![0x45u8, 0x00] + be16(60) + be16(ident) + seq![0x00u8, 0x00, 64, 17, 0x00, 0x00] + src + resolver
}

/// The probe: an IPv4/UDP datagram from `src` to `resolver` port 53 with a
/// valid header checksum, carrying the query.
pub open spec fn spec_dataplane_probe(src: Seq<u8>, resolver: Seq<u8>, id: u16, ident: u16, sport: u16) -> Seq<u8> {
    let h = probe_header(src, resolver, ident);
    let c = spec_ipv4_checksum(h);
    h.take(10) + be16(c) + h.skip(12) + be16(sport) + be16(53) + be16(40) + seq![0x00u8, 0x00]
        + probe_query(id)
}

/// The probe for given random draws; the source port is 40000 plus the
/// draw modulo 20000.
pub fn dataplane_probe_with(src: [u8; 4], resolver: [u8; 4], id: u16, ident: u16, port_draw: u16) -> (pkt: Vec<u8>)
    ensures
        pkt@ == spec_dataplane_probe(src@, resolver@, id, ident, (40000 + port_draw % 20000) as u16),
{
    let mut dns: Vec<u8> = Vec::new();
    push_be16(&mut dns, id);
    let flags: [u8; 10] = [0x01, 0x00, 0x00, 0x01, 0x00, 0x00, 0x00, 0x00, 0x00, 0x00];
    crate::bytes::extend(&mut dns, &flags);
    let name: [u8; 16] = [10, 99, 108, 111, 117, 100, 102, 108, 97, 114, 101, 3, 99, 111, 109, 0];
    crate::bytes::extend(&mut dns, &name);
    let qtype: [u8; 4] = [0x00, 0x01, 0x00, 0x01];
    crate::bytes::extend(&mut dns, &qtype);
    assert(dns@ =~= probe_query(id));
    let mut pkt: Vec<u8> = Vec::new();
    pkt.push(0x45);
    pkt.push(0x00);
    push_be16(&mut pkt, 60);
    push_be16(&mut pkt, ident);
    let mid: [u8; 6] = [0x00, 0x00, 64, 17, 0x00, 0x00];
    crate::bytes::extend(&mut pkt, &mid);
    crate::bytes::extend(&mut pkt, &src);
    crate::bytes::extend(&mut pkt, &resolver);
    assert(pkt@ =~= probe_header(src@, resolver@, ident));
    let ghost h = pkt@;
    let csum = ipv4_checksum(&pkt);
    pkt.set(10, (csum >> 8) as u8);
    pkt.set(11, (csum & 0xff) as u8);
    assert(pkt@ =~= h.take(10) + be16(csum) + h.skip(12));
    let sport: u16 = 40000 + port_draw % 20000;
    push_be16(&mut pkt, sport);
    push_be16(&mut pkt, 53);
    push_be16(&mut pkt, 40);
    pkt.push(0);
    pkt.push(0);
    crate::bytes::extend(&mut pkt, &dns);
    assert(pkt@ =~= spec_dataplane_probe(src@, resolver@, id, ident, sport));
    pkt
}

/// A fresh probe: random query id, IP identification and source port.
pub fn build_dataplane_probe(src: [u8; 4], resolver: [u8; 4]) -> (pkt: Vec<u8>)
    ensures
        exists|id: u16, ident: u16, sport: u16|
            40000 <= sport < 60000 && pkt@ == spec_dataplane_probe(src@, resolver@, id, ident, sport),
{
    let id = crate::rng::random_u16();
    let ident = crate::rng::random_u16();
    let draw = crate::rng::random_u16();
    dataplane_probe_with(src, resolver, id, ident, draw)
}

/// The outbound probe is never mistaken for the reply it asks for.
pub proof fn lemma_probe_is_not_a_reply(src: Seq<u8>, resolver: Seq<u8>, id: u16, ident: u16, sport: u16)
    requires
        src.len() == 4,
        resolver.len() == 4,
    ensures
        !spec_is_dns_reply(spec_dataplane_probe(src, resolver, id, ident, sport), resolver),
{
    let p = spec_dataplane_probe(src, resolver, id, ident, sport);
    let h = probe_header(src, resolver, ident);
    assert(p[0] == 0x45u8);
    assert((0x45u8 & 0x0f) == 5u8) by (bit_vector);
    assert(h.len() == 20);
    let c = spec_ipv4_checksum(h);
    let front = h.take(10) + be16(c) + h.skip(12) + be16(sport) + be16(53);
    assert(front.len() == 24);
    assert(p[24] == be16(40)[0]);
    assert(((40u16 >> 8u16) as u8) == 0u8) by (bit_vector);
    assert((0u8 & 0x80) == 0u8) by (bit_vector);
}


/// An echo of the probe stays no reply even when its source address and
/// source port are rewritten to the resolver's: only the reply marker makes
/// a datagram from the resolver's port 53 count.
pub proof fn lemma_spoofed_echo_is_not_a_reply(
    src: Seq<u8>,
    resolver: Seq<u8>,
    id: u16,
    ident: u16,
    sport: u16,
    spoof: Seq<u8>,
)
    requires
        src.len() == 4,
        resolver.len() == 4,
        spoof.len() == spec_dataplane_probe(src, resolver, id, ident, sport).len(),
        forall|i: int| 0 <= i < spoof.len() && !(12 <= i < 16) && !(20 <= i < 22)
            ==> spoof[i] == #[trigger] spec_dataplane_probe(src, resolver, id, ident, sport)[i],
    ensures
        !spec_is_dns_reply(spoof, resolver),
        spoof.len() >= 28 && spoof[0] == 0x45 && spoof[9] == 17
            ==> spec_is_dns_reply(spoof.update(24, spoof[24] | 0x80), resolver)
                == (spoof.subrange(12, 16) == resolver && get_be16(spoof, 20) == 53),
{
    let p = spec_dataplane_probe(src, resolver, id, ident, sport);
    lemma_probe_is_not_a_reply(src, resolver, id, ident, sport);
    let h = probe_header(src, resolver, ident);
    assert(h.len() == 20);
    let c = spec_ipv4_checksum(h);
    let front = h.take(10) + be16(c) + h.skip(12) + be16(sport) + be16(53);
    assert(front.len() == 24);
    assert(p[24] == be16(40)[0]);
    assert(p[0] == 0x45u8);
    assert(spoof[0] == p[0] && spoof[24] == p[24]);
    assert((0x45u8 & 0x0f) == 5u8) by (bit_vector);
    assert(((40u16 >> 8u16) as u8) == 0u8) by (bit_vector);
    assert((0u8 & 0x80) == 0u8) by (bit_vector);
    if spoof.len() >= 28 && spoof[0] == 0x45 && spoof[9] == 17 {
        let r = spoof.update(24, spoof[24] | 0x80);
        assert(r.subrange(12, 16) =~= spoof.subrange(12, 16));
        assert(r[20] == spoof[20] && r[21] == spoof[21]);
        assert((0u8 | 0x80u8) == 0x80u8) by (bit_vector);
        assert(r[24] == 0x80u8);
        assert((0x80u8 & 0x80) != 0u8) by (bit_vector);
        assert(r[0] == spoof[0] && r[9] == spoof[9] && r.len() == spoof.len());
        assert(get_be16(r, 20) == get_be16(spoof, 20));
        let ihl = ((r[0] & 0x0f) as int) * 4;
        assert(ihl == 20);
        assert((0x45u8 >> 4u8) == 4u8) by (bit_vector);
        assert(r[ihl + 4] & 0x80 != 0);
        assert(spec_is_dns_reply(r, resolver) == (r.subrange(12, 16) == resolver && get_be16(r, ihl) == 53));
    }
}


/// SvcParams as an HTTPS record writes them: each key, the length of its
/// value and the value, in order.
pub open spec fn svc_params_bytes(ps: Seq<(u16, Seq<u8>)>) -> Seq<u8>
    decreases ps.len(),
{
    if ps.len() == 0 {
        seq![]
    } else {
        be16(ps[0].0) + be16(ps[0].1.len() as u16) + ps[0].1 + svc_params_bytes(ps.drop_first())
    }
}

proof fn lemma_be16_reads_back(x: u16, s: Seq<u8>, i: int)
    requires
        0 <= i,
        i + 2 <= s.len(),
        s[i] == be16(x)[0],
        s[i + 1] == be16(x)[1],
    ensures
        get_be16(s, i) == x,
{
    assert(((((x >> 8u16) as u8) as u16) << 8u16) | ((((x & 0xff) as u16) as u8) as u16) == x) by (bit_vector);
}

proof fn lemma_svc_loop_finds_ech(msg: Seq<u8>, p: int, end: int, ps: Seq<(u16, Seq<u8>)>, j: int)
    requires
        0 <= p,
        p + svc_params_bytes(ps).len() <= end <= msg.len(),
        msg.subrange(p, p + svc_params_bytes(ps).len()) == svc_params_bytes(ps),
        forall|i: int| 0 <= i < ps.len() ==> (#[trigger] ps[i]).1.len() < 0x1_0000,
        0 <= j < ps.len(),
        ps[j].0 == SVCPARAM_ECH,
        forall|i: int| 0 <= i < j ==> (#[trigger] ps[i]).0 != SVCPARAM_ECH,
    ensures
        spec_svc_loop(msg, p, end) == Some(ps[j].1),
    decreases j,
{
    let b = svc_params_bytes(ps);
    let k = ps[0].0;
    let v = ps[0].1;
    let rest = svc_params_bytes(ps.drop_first());
    assert(b =~= be16(k) + be16(v.len() as u16) + v + rest);
    let len = v.len() as int;
    assert(msg[p] == b[0] && msg[p + 1] == b[1] && msg[p + 2] == b[2] && msg[p + 3] == b[3]) by {
        assert(msg.subrange(p, p + b.len())[0] == msg[p]);
        assert(msg.subrange(p, p + b.len())[1] == msg[p + 1]);
        assert(msg.subrange(p, p + b.len())[2] == msg[p + 2]);
        assert(msg.subrange(p, p + b.len())[3] == msg[p + 3]);
    }
    lemma_be16_reads_back(k, msg, p);
    lemma_be16_reads_back(v.len() as u16, msg, p + 2);
    assert((v.len() as u16) as int == len);
    let q = p + 4;
    assert(msg.subrange(q, q + len) =~= v) by {
        assert forall|t: int| 0 <= t < len implies msg.subrange(q, q + len)[t] == v[t] by {
            assert(msg.subrange(p, p + b.len())[4 + t] == msg[q + t]);
            assert(b[4 + t] == v[t]);
        }
    }
    if j > 0 {
        let tail = ps.drop_first();
        assert(ps[0].0 != SVCPARAM_ECH);
        let p2 = q + len;
        assert(msg.subrange(p2, p2 + rest.len()) =~= rest) by {
            assert forall|t: int| 0 <= t < rest.len() implies msg.subrange(p2, p2 + rest.len())[t] == rest[t] by {
                assert(msg.subrange(p, p + b.len())[4 + len + t] == msg[p2 + t]);
                assert(b[4 + len + t] == rest[t]);
            }
        }
        assert forall|i: int| 0 <= i < tail.len() implies (#[trigger] tail[i]).1.len() < 0x1_0000 by {
            assert(tail[i] == ps[i + 1]);
        }
        assert forall|i: int| 0 <= i < j - 1 implies (#[trigger] tail[i]).0 != SVCPARAM_ECH by {
            assert(tail[i] == ps[i + 1]);
        }
        assert(tail[j - 1] == ps[j]);
        lemma_svc_loop_finds_ech(msg, p2, end, tail, j - 1);
    }
}

/// An HTTPS record whose rdata is a priority, the root target name and
/// SvcParams yields the value of its first `ech` parameter, whatever
/// parameters come before it (within the rdata).
pub proof fn lemma_https_rdata_yields_ech(msg: Seq<u8>, start: int, priority: u16, ps: Seq<(u16, Seq<u8>)>, j: int)
    requires
        0 <= start,
        start + 3 + svc_params_bytes(ps).len() <= msg.len(),
        msg.subrange(start, start + 3 + svc_params_bytes(ps).len()) == be16(priority) + seq![0u8] + svc_params_bytes(ps),
        forall|i: int| 0 <= i < ps.len() ==> (#[trigger] ps[i]).1.len() < 0x1_0000,
        0 <= j < ps.len(),
        ps[j].0 == SVCPARAM_ECH,
        forall|i: int| 0 <= i < j ==> (#[trigger] ps[i]).0 != SVCPARAM_ECH,
    ensures
        spec_svcparams_ech(msg, start, 3 + svc_params_bytes(ps).len() as int) == Some(ps[j].1),
{
    let b = svc_params_bytes(ps);
    let rd = be16(priority) + seq![0u8] + b;
    assert(msg.subrange(start, start + rd.len())[2] == msg[start + 2]);
    assert(rd[2] == 0u8);
    assert((0u8 & 0xc0) != 0xc0u8) by (bit_vector);
    assert(spec_skip_name(msg, start + 2) == Some(start + 3));
    assert(msg.subrange(start + 3, start + 3 + b.len()) =~= b) by {
        assert forall|t: int| 0 <= t < b.len() implies msg.subrange(start + 3, start + 3 + b.len())[t] == b[t] by {
            assert(msg.subrange(start, start + rd.len())[3 + t] == msg[start + 3 + t]);
            assert(rd[3 + t] == b[t]);
        }
    }
    lemma_svc_loop_finds_ech(msg, start + 3, start + 3 + b.len(), ps, j);
}

} // verus!
