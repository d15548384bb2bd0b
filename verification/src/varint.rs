//! QUIC variable-length integers (RFC 9000 §16): the two top bits of the first
//! byte give the encoded length (1, 2, 4 or 8 bytes), the rest is the value in
//! network byte order.
use vstd::prelude::*;

verus! {

/// Largest value a QUIC varint can carry.
pub const VARINT_MAX: u64 = 0x3fff_ffff_ffff_ffff;

/// Encoded length the shortest encoding of `v` needs.
pub open spec fn spec_varint_len(v: u64) -> nat {
    if v < 64 {
        1
    } else if v < 16384 {
        2
    } else if v < 1_073_741_824 {
        4
    } else {
        8
    }
}

/// The shortest encoding of `v` (meaningful for `v <= VARINT_MAX`).
pub open spec fn spec_varint_encode(v: u64) -> Seq<u8> {
    if v < 64 {
        seq![v as u8]
    } else if v < 16384 {
        seq![((v >> 8u64) | 0x40) as u8, (v & 0xff) as u8]
    } else if v < 1_073_741_824 {
        seq![
            ((v >> 24u64) | 0x80) as u8,
            ((v >> 16u64) & 0xff) as u8,
            ((v >> 8u64) & 0xff) as u8,
            (v & 0xff) as u8,
        ]
    } else {
        seq![
            ((v >> 56u64) | 0xc0) as u8,
            ((v >> 48u64) & 0xff) as u8,
            ((v >> 40u64) & 0xff) as u8,
            ((v >> 32u64) & 0xff) as u8,
            ((v >> 24u64) & 0xff) as u8,
            ((v >> 16u64) & 0xff) as u8,
            ((v >> 8u64) & 0xff) as u8,
            (v & 0xff) as u8,
        ]
    }
}

/// Length announced by a first byte.
pub open spec fn spec_prefix_len(b: u8) -> nat {
    if b < 0x40 {
        1
    } else if b < 0x80 {
        2
    } else if b < 0xc0 {
        4
    } else {
        8
    }
}

/// Big-endian value of `n` bytes at the front of `s`, the first byte masked to
/// its six value bits.
pub open spec fn spec_varint_value(s: Seq<u8>, n: nat) -> u64 {
    let b0 = (s[0] & 0x3f) as u64;
    if n == 1 {
        b0
    } else if n == 2 {
        (b0 << 8u64) | (s[1] as u64)
    } else if n == 4 {
        (b0 << 24u64) | ((s[1] as u64) << 16u64) | ((s[2] as u64) << 8u64) | (s[3] as u64)
    } else {
        (b0 << 56u64) | ((s[1] as u64) << 48u64) | ((s[2] as u64) << 40u64) | ((s[3] as u64)
            << 32u64) | ((s[4] as u64) << 24u64) | ((s[5] as u64) << 16u64) | ((s[6] as u64)
            << 8u64) | (s[7] as u64)
    }
}

/// Decoding the varint at the front of `s`: its value and encoded length, or
/// `None` when `s` is too short to hold it.
pub open spec fn spec_varint_decode(s: Seq<u8>) -> Option<(u64, nat)> {
    if s.len() == 0 {
        None
    } else {
        let n = spec_prefix_len(s[0]);
        if s.len() < n {
            None
        } else {
            Some((spec_varint_value(s, n), n))
        }
    }
}

/// Appends the shortest varint encoding of `v` to `out`.
pub fn put_varint(out: &mut Vec<u8>, v: u64)
    requires
        v <= VARINT_MAX,
    ensures
        final(out)@ == old(out)@ + spec_varint_encode(v),
{
    if v < 64 {
        out.push(v as u8);
    } else if v < 16384 {
        out.push(((v >> 8) | 0x40) as u8);
        out.push((v & 0xff) as u8);
    } else if v < 1_073_741_824 {
        out.push(((v >> 24) | 0x80) as u8);
        out.push(((v >> 16) & 0xff) as u8);
        out.push(((v >> 8) & 0xff) as u8);
        out.push((v & 0xff) as u8);
    } else {
        out.push(((v >> 56) | 0xc0) as u8);
        out.push(((v >> 48) & 0xff) as u8);
        out.push(((v >> 40) & 0xff) as u8);
        out.push(((v >> 32) & 0xff) as u8);
        out.push(((v >> 24) & 0xff) as u8);
        out.push(((v >> 16) & 0xff) as u8);
        out.push(((v >> 8) & 0xff) as u8);
        out.push((v & 0xff) as u8);
    }
    assert(final(out)@ =~= old(out)@ + spec_varint_encode(v));
}

/// Reads the varint that starts at `pos`: its value and the position after it,
/// or `None` when the bytes run out first.
pub fn get_varint(buf: &[u8], pos: usize) -> (r: Option<(u64, usize)>)
    requires
        pos <= buf@.len(),
    ensures
        match spec_varint_decode(buf@.skip(pos as int)) {
            None => r is None,
            Some((v, n)) => r == Some((v, (pos + n) as usize)),
        },
{
    let ghost s = buf@.skip(pos as int);
    if pos >= buf.len() {
        return None;
    }
    let b0 = buf[pos];
    let n: usize = if b0 < 0x40 {
        1
    } else if b0 < 0x80 {
        2
    } else if b0 < 0xc0 {
        4
    } else {
        8
    };
    assert(s[0] == b0);
    if buf.len() - pos < n {
        return None;
    }
    let first = (b0 & 0x3f) as u64;
    let v: u64 = if n == 1 {
        first
    } else if n == 2 {
        (first << 8) | (buf[pos + 1] as u64)
    } else if n == 4 {
        (first << 24) | ((buf[pos + 1] as u64) << 16) | ((buf[pos + 2] as u64) << 8) | (buf[pos
            + 3] as u64)
    } else {
        (first << 56) | ((buf[pos + 1] as u64) << 48) | ((buf[pos + 2] as u64) << 40) | ((buf[pos
            + 3] as u64) << 32) | ((buf[pos + 4] as u64) << 24) | ((buf[pos + 5] as u64) << 16)
            | ((buf[pos + 6] as u64) << 8) | (buf[pos + 7] as u64)
    };
    assert(v == spec_varint_value(s, n as nat));
    Some((v, pos + n))
}

/// Encoded length of the shortest varint for `v`.
pub fn varint_len(v: u64) -> (n: usize)
    ensures
        n == spec_varint_len(v),
{
    if v < 64 {
        1
    } else if v < 16384 {
        2
    } else if v < 1_073_741_824 {
        4
    } else {
        8
    }
}

/// What an encoding claims its own length to be is the length it has.
pub proof fn lemma_varint_encode_len(v: u64)
    ensures
        spec_varint_encode(v).len() == spec_varint_len(v),
        spec_varint_encode(v).len() >= 1,
{
}

/// Decoding the encoding of `v`, whatever follows it, gives back `v` and the
/// encoding's length.
pub proof fn lemma_varint_roundtrip(v: u64, rest: Seq<u8>)
    requires
        v <= VARINT_MAX,
    ensures
        spec_varint_decode(spec_varint_encode(v) + rest) == Some((v, spec_varint_len(v))),
{
    let e = spec_varint_encode(v);
    let s = e + rest;
    assert(s[0] == e[0]);
    if v < 64 {
        assert(v < 64 ==> (v as u8) < 0x40 && ((v as u8) & 0x3f) as u64 == v) by (bit_vector);
    } else if v < 16384 {
        assert(s[1] == e[1]);
        assert(64 <= v < 16384 ==> 0x40 <= (((v >> 8u64) | 0x40) as u8) < 0x80 && (((((v
            >> 8u64) | 0x40) as u8) & 0x3f) as u64) << 8u64 | (((v & 0xff) as u8) as u64) == v)
            by (bit_vector);
    } else if v < 1_073_741_824 {
        assert(s[1] == e[1] && s[2] == e[2] && s[3] == e[3]);
        assert(16384 <= v < 1_073_741_824 ==> 0x80 <= (((v >> 24u64) | 0x80) as u8) < 0xc0 && (((((
        (v >> 24u64) | 0x80) as u8) & 0x3f) as u64) << 24u64) | (((((v >> 16u64) & 0xff) as u8)
            as u64) << 16u64) | (((((v >> 8u64) & 0xff) as u8) as u64) << 8u64) | (((v & 0xff)
            as u8) as u64) == v) by (bit_vector);
    } else {
        assert(s[1] == e[1] && s[2] == e[2] && s[3] == e[3] && s[4] == e[4] && s[5] == e[5]
            && s[6] == e[6] && s[7] == e[7]);
        assert(1_073_741_824 <= v <= 0x3fff_ffff_ffff_ffff ==> 0xc0 <= (((v >> 56u64) | 0xc0)
            as u8) && (((((v >> 56u64) | 0xc0) as u8) & 0x3f) as u64) << 56u64 | (((((v >> 48u64)
            & 0xff) as u8) as u64) << 48u64) | (((((v >> 40u64) & 0xff) as u8) as u64) << 40u64)
            | (((((v >> 32u64) & 0xff) as u8) as u64) << 32u64) | (((((v >> 24u64) & 0xff) as u8)
            as u64) << 24u64) | (((((v >> 16u64) & 0xff) as u8) as u64) << 16u64) | (((((v
            >> 8u64) & 0xff) as u8) as u64) << 8u64) | (((v & 0xff) as u8) as u64) == v)
            by (bit_vector);
    }
}

} // verus!
