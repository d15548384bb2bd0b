//! CONNECT-IP (RFC 9484) framing: HTTP datagrams carrying IP packets, and the
//! capsule stream (RFC 9297) with its address and route capsules.
use vstd::prelude::*;

use crate::bytes::{copy_range, extend};
use crate::error::{AetherError, Result};
use crate::text::{decimal_string, fold, eq_str, join2, folded, opt_view};
use crate::varint::{
    get_varint, lemma_varint_encode_len, lemma_varint_roundtrip, put_varint, spec_varint_decode,
    spec_varint_encode, spec_varint_len, VARINT_MAX,
};

verus! {

pub const CAPSULE_ADDRESS_ASSIGN: u64 = 0x01;
pub const CAPSULE_ADDRESS_REQUEST: u64 = 0x02;
pub const CAPSULE_ROUTE_ADVERTISEMENT: u64 = 0x03;
pub const CAPSULE_DATAGRAM: u64 = 0x00;
/// The context id under which CONNECT-IP carries whole IP packets.
pub const CONNECT_IP_CONTEXT_ID: u64 = 0;
/// Longest capsule value a parser accepts before discarding the stream.
pub const MAX_CAPSULE_LEN: u64 = 4194304;

#[derive(Debug, Clone)]
pub struct AssignedAddress {
    pub ip_version: u8,
    pub address: Vec<u8>,
    pub prefix_len: u8,
}

impl View for AssignedAddress {
    type V = (u8, Seq<u8>, u8);

    open spec fn view(&self) -> (u8, Seq<u8>, u8) {
        (self.ip_version, self.address@, self.prefix_len)
    }
}

#[derive(Debug, Clone)]
pub struct RouteAdvertisement {
    pub ip_version: u8,
    pub start: Vec<u8>,
    pub end: Vec<u8>,
    pub protocol: u8,
}

impl View for RouteAdvertisement {
    type V = (u8, Seq<u8>, Seq<u8>, u8);

    open spec fn view(&self) -> (u8, Seq<u8>, Seq<u8>, u8) {
        (self.ip_version, self.start@, self.end@, self.protocol)
    }
}

#[derive(Debug, Clone)]
pub enum Capsule {
    AddressAssign(Vec<AssignedAddress>),
    AddressRequest,
    Datagram(Vec<u8>),
    RouteAdvertisement(Vec<RouteAdvertisement>),
    Unknown,
}

/// A capsule as plain data.
pub enum CapsuleView {
    AddressAssign(Seq<(u8, Seq<u8>, u8)>),
    AddressRequest,
    Datagram(Seq<u8>),
    RouteAdvertisement(Seq<(u8, Seq<u8>, Seq<u8>, u8)>),
    Unknown,
}

impl View for Capsule {
    type V = CapsuleView;

    open spec fn view(&self) -> CapsuleView {
        match self {
            Capsule::AddressAssign(a) => CapsuleView::AddressAssign(
                a@.map_values(|x: AssignedAddress| x@),
            ),
            Capsule::AddressRequest => CapsuleView::AddressRequest,
            Capsule::Datagram(d) => CapsuleView::Datagram(d@),
            Capsule::RouteAdvertisement(r) => CapsuleView::RouteAdvertisement(
                r@.map_values(|x: RouteAdvertisement| x@),
            ),
            Capsule::Unknown => CapsuleView::Unknown,
        }
    }
}

/// Address length for an IP version byte, or `None` for anything but 4 and 6.
pub open spec fn spec_addr_len(version: u8) -> Option<int> {
    if version == 4 {
        Some(4)
    } else if version == 6 {
        Some(16)
    } else {
        None
    }
}

/// ADDRESS_ASSIGN value: repeated (request id, ip version, address, prefix).
pub open spec fn spec_address_assign(s: Seq<u8>) -> Option<Seq<(u8, Seq<u8>, u8)>>
    decreases s.len(),
{
    if s.len() == 0 {
        Some(seq![])
    } else {
        match spec_varint_decode(s) {
            None => None,
            Some((_, n)) => {
                let r = s.skip(n as int);
                if r.len() < 1 {
                    None
                } else {
                    match spec_addr_len(r[0]) {
                        None => None,
                        Some(alen) => {
                            if r.len() < alen + 2 {
                                None
                            } else {
                                match spec_address_assign(r.skip(alen + 2)) {
                                    None => None,
                                    Some(rest) => Some(
                                        seq![(r[0], r.subrange(1, alen + 1), r[alen + 1])] + rest,
                                    ),
                                }
                            }
                        }
                    }
                }
            }
        }
    }
}

/// ROUTE_ADVERTISEMENT value: repeated (ip version, start, end, protocol).
pub open spec fn spec_route_advertisement(s: Seq<u8>) -> Option<
    Seq<(u8, Seq<u8>, Seq<u8>, u8)>,
>
    decreases s.len(),
{
    if s.len() == 0 {
        Some(seq![])
    } else {
        match spec_addr_len(s[0]) {
            None => None,
            Some(alen) => {
                if s.len() < 2 * alen + 2 {
                    None
                } else {
                    match spec_route_advertisement(s.skip(2 * alen + 2)) {
                        None => None,
                        Some(rest) => Some(
                            seq![
                                (
                                    s[0],
                                    s.subrange(1, alen + 1),
                                    s.subrange(alen + 1, 2 * alen + 1),
                                    s[2 * alen + 1],
                                ),
                            ] + rest,
                        ),
                    }
                }
            }
        }
    }
}

/// How the front of a capsule stream reads.
pub enum Frame {
    /// Not a whole capsule yet.
    NeedMore,
    /// The announced length exceeds `MAX_CAPSULE_LEN`.
    TooLarge,
    /// A whole capsule of `consumed` bytes.
    Whole { kind: u64, value: Seq<u8>, consumed: nat },
}

pub open spec fn spec_frame(buf: Seq<u8>) -> Frame {
    match spec_varint_decode(buf) {
        None => Frame::NeedMore,
        Some((kind, n1)) => match spec_varint_decode(buf.skip(n1 as int)) {
            None => Frame::NeedMore,
            Some((len, n2)) => {
                if len > MAX_CAPSULE_LEN {
                    Frame::TooLarge
                } else if buf.len() - n1 - n2 < len {
                    Frame::NeedMore
                } else {
                    Frame::Whole {
                        kind,
                        value: buf.subrange(n1 + n2 as int, n1 + n2 + len),
                        consumed: (n1 + n2 + len) as nat,
                    }
                }
            },
        },
    }
}

/// The capsule a whole frame decodes to, or `None` when its value is malformed.
pub open spec fn spec_capsule(kind: u64, value: Seq<u8>) -> Option<CapsuleView> {
    if kind == CAPSULE_ADDRESS_ASSIGN {
        match spec_address_assign(value) {
            None => None,
            Some(a) => Some(CapsuleView::AddressAssign(a)),
        }
    } else if kind == CAPSULE_ADDRESS_REQUEST {
        Some(CapsuleView::AddressRequest)
    } else if kind == CAPSULE_ROUTE_ADVERTISEMENT {
        match spec_route_advertisement(value) {
            None => None,
            Some(r) => Some(CapsuleView::RouteAdvertisement(r)),
        }
    } else if kind == CAPSULE_DATAGRAM {
        Some(CapsuleView::Datagram(value))
    } else {
        Some(CapsuleView::Unknown)
    }
}

/// A capsule on the wire: type, length, value.
pub open spec fn spec_encode_capsule(kind: u64, value: Seq<u8>) -> Seq<u8> {
    spec_varint_encode(kind) + spec_varint_encode(value.len() as u64) + value
}

/// An HTTP datagram carrying one IP packet for the request on `stream_id`.
pub open spec fn spec_encode_ip_datagram(stream_id: u64, ip_packet: Seq<u8>) -> Seq<u8> {
    spec_varint_encode(stream_id / 4) + spec_varint_encode(CONNECT_IP_CONTEXT_ID) + ip_packet
}

/// What an inbound HTTP datagram holds for the request on `stream_id`: an
/// error when a varint is cut short, `None` when it belongs to another stream
/// or context, otherwise the IP packet.
pub open spec fn spec_decode_ip_datagram(d: Seq<u8>, stream_id: u64) -> Option<Option<Seq<u8>>> {
    match spec_varint_decode(d) {
        None => None,
        Some((qsid, n1)) => if qsid != stream_id / 4 {
            Some(None)
        } else {
            match spec_varint_decode(d.skip(n1 as int)) {
                None => None,
                Some((ctx, n2)) => if ctx != CONNECT_IP_CONTEXT_ID {
                    Some(None)
                } else {
                    Some(Some(d.skip(n1 + n2 as int)))
                },
            }
        },
    }
}

/// Request-header recipe for the H3 CONNECT-IP request.
#[derive(Debug, Clone, Copy, PartialEq, Eq)]
pub enum H3HeaderMode {
    /// Classic CONNECT with the `cf-connect-proto` / `pq-enabled` headers.
    Cf,
    /// RFC 9484 extended CONNECT.
    Standard,
    /// Both header sets at once.
    Both,
}

pub open spec fn spec_header_mode(setting: Option<Seq<char>>) -> H3HeaderMode {
    match setting {
        None => H3HeaderMode::Standard,
        Some(s) => if folded(s) == "cf"@ {
            H3HeaderMode::Cf
        } else if folded(s) == "both"@ {
            H3HeaderMode::Both
        } else {
            H3HeaderMode::Standard
        },
    }
}

impl H3HeaderMode {
    /// The recipe named by the `AETHER_MASQUE_H3_HEADERS` setting; `standard`
    /// unless it says `cf` or `both`.
    pub fn from_env(setting: Option<&str>) -> (m: H3HeaderMode)
        ensures
            m == spec_header_mode(opt_view(setting)),
    {
        match setting {
            None => H3HeaderMode::Standard,
            Some(s) => {
                let f = fold(s);
                if eq_str(&f, "cf") {
                    H3HeaderMode::Cf
                } else if eq_str(&f, "both") {
                    H3HeaderMode::Both
                } else {
                    H3HeaderMode::Standard
                }
            },
        }
    }
}

/// How the H3 data plane carries IP packets.
#[derive(Debug, Clone, Copy, PartialEq, Eq)]
pub enum H3DgramMode {
    Quic,
    Capsule,
    Auto,
}

pub open spec fn spec_dgram_mode(v: Option<Seq<char>>) -> H3DgramMode {
    match v {
        None => H3DgramMode::Auto,
        Some(s) => spec_dgram_name(folded(s)),
    }
}

pub open spec fn spec_dgram_name(f: Seq<char>) -> H3DgramMode {
    if f == "quic"@ || f == "datagram"@ || f == "dgram"@ {
        H3DgramMode::Quic
    } else if f == "capsule"@ || f == "stream"@ {
        H3DgramMode::Capsule
    } else {
        H3DgramMode::Auto
    }
}

impl H3DgramMode {
    /// The mode named by the `AETHER_MASQUE_H3_DGRAM` setting.
    pub fn from_env(setting: Option<&str>) -> (m: H3DgramMode)
        ensures
            m == spec_dgram_mode(opt_view(setting)),
    {
        Self::parse(setting)
    }

    pub fn parse(v: Option<&str>) -> (m: H3DgramMode)
        ensures
            m == spec_dgram_mode(opt_view(v)),
    {
        let f = match v {
            None => {
                return H3DgramMode::Auto;
            },
            Some(s) => fold(s),
        };
        if eq_str(&f, "quic") || eq_str(&f, "datagram") || eq_str(&f, "dgram") {
            H3DgramMode::Quic
        } else if eq_str(&f, "capsule") || eq_str(&f, "stream") {
            H3DgramMode::Capsule
        } else {
            H3DgramMode::Auto
        }
    }

    /// Whether IP packets travel as DATAGRAM capsules on the request stream.
    pub fn use_capsule(self, dgram_enabled_by_peer: bool) -> (r: bool)
        ensures
            r == match self {
                H3DgramMode::Quic => false,
                H3DgramMode::Capsule => true,
                H3DgramMode::Auto => !dgram_enabled_by_peer,
            },
    {
        match self {
            H3DgramMode::Quic => false,
            H3DgramMode::Capsule => true,
            H3DgramMode::Auto => !dgram_enabled_by_peer,
        }
    }

    pub fn label(self) -> (r: &'static str)
        ensures
            r@ == match self {
                H3DgramMode::Quic => "quic"@,
                H3DgramMode::Capsule => "capsule"@,
                H3DgramMode::Auto => "auto"@,
            },
    {
        match self {
            H3DgramMode::Quic => "quic",
            H3DgramMode::Capsule => "capsule",
            H3DgramMode::Auto => "auto",
        }
    }
}

pub fn quarter_stream_id(stream_id: u64) -> (r: u64)
    ensures
        r == stream_id / 4,
{
    stream_id / 4
}

/// Frames one IP packet as an HTTP datagram for the request on `stream_id`.
pub fn encode_ip_datagram(stream_id: u64, ip_packet: &[u8]) -> (r: Result<Vec<u8>>)
    ensures
        r matches Ok(v) && v@ == spec_encode_ip_datagram(stream_id, ip_packet@),
{
    let qsid = quarter_stream_id(stream_id);
    let mut out: Vec<u8> = Vec::new();
    put_varint(&mut out, qsid);
    put_varint(&mut out, CONNECT_IP_CONTEXT_ID);
    extend(&mut out, ip_packet);
    assert(out@ =~= spec_encode_ip_datagram(stream_id, ip_packet@));
    Ok(out)
}

/// The IP packet an HTTP datagram carries for the request on `expect_stream_id`.
pub fn decode_ip_datagram(datagram: &[u8], expect_stream_id: u64) -> (r: Result<Option<Vec<u8>>>)
    ensures
        match spec_decode_ip_datagram(datagram@, expect_stream_id) {
            None => r matches Err(AetherError::Capsule(_)),
            Some(None) => r matches Ok(None),
            Some(Some(p)) => r matches Ok(Some(v)) && v@ == p,
        },
{
    assert(datagram@.skip(0) =~= datagram@);
    let (qsid, p1) = match get_varint(datagram, 0) {
        None => {
            return Err(AetherError::Capsule(buffer_too_short()));
        },
        Some(x) => x,
    };
    if qsid != quarter_stream_id(expect_stream_id) {
        return Ok(None);
    }
    let (ctx, p2) = match get_varint(datagram, p1) {
        None => {
            return Err(AetherError::Capsule(buffer_too_short()));
        },
        Some(x) => x,
    };
    if ctx != CONNECT_IP_CONTEXT_ID {
        return Ok(None);
    }
    let payload = copy_range(datagram, p2, datagram.len());
    assert(payload@ =~= datagram@.skip(p2 as int));
    Ok(Some(payload))
}

fn buffer_too_short() -> (s: String)
    ensures
        s@ == "BufferTooShortError"@,
{
    "BufferTooShortError".to_owned()
}

/// A capsule of type `kind` with `value` as its payload.
pub fn encode_capsule(kind: u64, value: &[u8]) -> (r: Vec<u8>)
    requires
        kind <= VARINT_MAX,
        value@.len() <= VARINT_MAX,
    ensures
        r@ == spec_encode_capsule(kind, value@),
{
    let mut out: Vec<u8> = Vec::new();
    put_varint(&mut out, kind);
    put_varint(&mut out, value.len() as u64);
    extend(&mut out, value);
    assert(out@ =~= spec_encode_capsule(kind, value@));
    out
}

/// A DATAGRAM capsule carrying one IP packet.
pub fn encode_datagram_capsule(ip_packet: &[u8]) -> (r: Vec<u8>)
    requires
        ip_packet@.len() <= VARINT_MAX,
    ensures
        r@ == spec_encode_capsule(CAPSULE_DATAGRAM, ip_packet@),
{
    encode_capsule(CAPSULE_DATAGRAM, ip_packet)
}

/// Incremental reader of a capsule stream.
pub struct CapsuleParser {
    buf: Vec<u8>,
}

impl View for CapsuleParser {
    type V = Seq<u8>;

    closed spec fn view(&self) -> Seq<u8> {
        self.buf@
    }
}

impl CapsuleParser {
    pub fn new() -> (p: Self)
        ensures
            p@ == Seq::<u8>::empty(),
    {
        CapsuleParser { buf: Vec::new() }
    }

    /// Appends bytes read from the stream.
    pub fn push(&mut self, data: &[u8])
        ensures
            final(self)@ == old(self)@ + data@,
    {
        extend(&mut self.buf, data);
    }

    /// The next whole capsule, if one has arrived. A whole frame is consumed even
    /// when its value turns out malformed; an over-long frame discards the buffer.
    pub fn next(&mut self) -> (r: Result<Option<Capsule>>)
        ensures
            match spec_frame(old(self)@) {
                Frame::NeedMore => r matches Ok(None) && final(self)@ == old(self)@,
                Frame::TooLarge => r matches Err(AetherError::Capsule(_)) && final(self)@
                    == Seq::<u8>::empty(),
                Frame::Whole { kind, value, consumed } => {
                    &&& final(self)@ == old(self)@.skip(consumed as int)
                    &&& match spec_capsule(kind, value) {
                        None => r matches Err(AetherError::Capsule(_)),
                        Some(c) => r matches Ok(Some(x)) && x@ == c,
                    }
                },
            },
    {
        let ghost b0 = self.buf@;
        assert(self.buf@.skip(0) =~= self.buf@);
        let (kind, p1) = match get_varint(&self.buf, 0) {
            None => {
                return Ok(None);
            },
            Some(x) => x,
        };
        let (len, p2) = match get_varint(&self.buf, p1) {
            None => {
                return Ok(None);
            },
            Some(x) => x,
        };
        if len > MAX_CAPSULE_LEN {
            self.buf.clear();
            return Err(AetherError::Capsule(join2("capsule too large: ", decimal_string(len).as_str())));
        }
        let len = len as usize;
        if self.buf.len() - p2 < len {
            return Ok(None);
        }
        let value = copy_range(&self.buf, p2, p2 + len);
        let consumed = p2 + len;
        let n = self.buf.len();
        self.buf = copy_range(&self.buf, consumed, n);
        assert(self.buf@ =~= b0.skip(consumed as int));
        if kind == CAPSULE_ADDRESS_ASSIGN {
            let a = parse_address_assign(&value)?;
            Ok(Some(Capsule::AddressAssign(a)))
        } else if kind == CAPSULE_ADDRESS_REQUEST {
            Ok(Some(Capsule::AddressRequest))
        } else if kind == CAPSULE_ROUTE_ADVERTISEMENT {
            let r = parse_route_advertisement(&value)?;
            Ok(Some(Capsule::RouteAdvertisement(r)))
        } else if kind == CAPSULE_DATAGRAM {
            Ok(Some(Capsule::Datagram(value)))
        } else {
            Ok(Some(Capsule::Unknown))
        }
    }
}

/// The error text for an address entry of an unknown IP version.
fn bad_ip_version(v: u8) -> (s: String)
    ensures
        s@ == "bad ip version "@ + crate::text::decimal(v as nat),
{
    join2("bad ip version ", decimal_string(v as u64).as_str())
}

/// Reads the repeated entries of an ADDRESS_ASSIGN capsule.
pub fn parse_address_assign(value: &[u8]) -> (r: Result<Vec<AssignedAddress>>)
    ensures
        match spec_address_assign(value@) {
            None => r matches Err(AetherError::Capsule(_)),
            Some(a) => r matches Ok(v) && v@.map_values(|x: AssignedAddress| x@) == a,
        },
{
    let mut out: Vec<AssignedAddress> = Vec::new();
    let mut pos: usize = 0;
    proof {
        assert(value@.skip(0) =~= value@);
        assert(out@.map_values(|x: AssignedAddress| x@) =~= Seq::empty());
        if let Some(a) = spec_address_assign(value@) {
            assert(Seq::<(u8, Seq<u8>, u8)>::empty() + a =~= a);
        }
    }
    while pos < value.len()
        invariant
            pos <= value@.len(),
            spec_address_assign(value@) == match spec_address_assign(value@.skip(pos as int)) {
                None => None,
                Some(rest) => Some(out@.map_values(|x: AssignedAddress| x@) + rest),
            },
        decreases value@.len() - pos,
    {
        let ghost s = value@.skip(pos as int);
        let (_, p1) = match get_varint(value, pos) {
            None => {
                return Err(AetherError::Capsule(buffer_too_short()));
            },
            Some(x) => x,
        };
        let ghost r = s.skip((p1 - pos) as int);
        assert(r =~= value@.skip(p1 as int));
        if p1 >= value.len() {
            return Err(AetherError::Capsule(buffer_too_short()));
        }
        let ip_version = value[p1];
        assert(r[0] == ip_version);
        let alen: usize = if ip_version == 4 {
            4
        } else if ip_version == 6 {
            16
        } else {
            return Err(AetherError::Capsule(bad_ip_version(ip_version)));
        };
        if value.len() - p1 < alen + 2 {
            return Err(AetherError::Capsule(buffer_too_short()));
        }
        let address = copy_range(value, p1 + 1, p1 + 1 + alen);
        let prefix_len = value[p1 + 1 + alen];
        let ghost before = out@.map_values(|x: AssignedAddress| x@);
        let entry = AssignedAddress { ip_version, address, prefix_len };
        out.push(entry);
        proof {
            assert(r.subrange(1, alen + 1) =~= address@);
            assert(r[alen + 1] == prefix_len);
            assert(r.skip(alen + 2) =~= value@.skip(p1 + alen + 2));
            assert(out@.map_values(|x: AssignedAddress| x@) =~= before.push(entry@));
            let tail = spec_address_assign(value@.skip(p1 + alen + 2));
            if let Some(t) = tail {
                assert(before + (seq![entry@] + t) =~= before.push(entry@) + t);
            }
        }
        pos = p1 + 1 + alen + 1;
    }
    proof {
        assert(value@.skip(pos as int) =~= Seq::<u8>::empty());
        assert(out@.map_values(|x: AssignedAddress| x@) + Seq::empty() =~= out@.map_values(
            |x: AssignedAddress| x@,
        ));
    }
    Ok(out)
}

/// Reads the repeated entries of a ROUTE_ADVERTISEMENT capsule.
pub fn parse_route_advertisement(value: &[u8]) -> (r: Result<Vec<RouteAdvertisement>>)
    ensures
        match spec_route_advertisement(value@) {
            None => r matches Err(AetherError::Capsule(_)),
            Some(a) => r matches Ok(v) && v@.map_values(|x: RouteAdvertisement| x@) == a,
        },
{
    let mut out: Vec<RouteAdvertisement> = Vec::new();
    let mut pos: usize = 0;
    proof {
        assert(value@.skip(0) =~= value@);
        assert(out@.map_values(|x: RouteAdvertisement| x@) =~= Seq::empty());
        if let Some(a) = spec_route_advertisement(value@) {
            assert(Seq::<(u8, Seq<u8>, Seq<u8>, u8)>::empty() + a =~= a);
        }
    }
    while pos < value.len()
        invariant
            pos <= value@.len(),
            spec_route_advertisement(value@) == match spec_route_advertisement(
                value@.skip(pos as int),
            ) {
                None => None,
                Some(rest) => Some(out@.map_values(|x: RouteAdvertisement| x@) + rest),
            },
        decreases value@.len() - pos,
    {
        let ghost s = value@.skip(pos as int);
        let ip_version = value[pos];
        assert(s[0] == ip_version);
        let alen: usize = if ip_version == 4 {
            4
        } else if ip_version == 6 {
            16
        } else {
            return Err(AetherError::Capsule(bad_ip_version(ip_version)));
        };
        if value.len() - pos < 2 * alen + 2 {
            return Err(AetherError::Capsule(buffer_too_short()));
        }
        let start = copy_range(value, pos + 1, pos + 1 + alen);
        let end = copy_range(value, pos + 1 + alen, pos + 1 + 2 * alen);
        let protocol = value[pos + 1 + 2 * alen];
        let ghost before = out@.map_values(|x: RouteAdvertisement| x@);
        let entry = RouteAdvertisement { ip_version, start, end, protocol };
        out.push(entry);
        proof {
            assert(s.subrange(1, alen + 1) =~= start@);
            assert(s.subrange(alen + 1, 2 * alen + 1) =~= end@);
            assert(s[2 * alen + 1] == protocol);
            assert(s.skip(2 * alen + 2) =~= value@.skip(pos + 2 * alen + 2));
            assert(out@.map_values(|x: RouteAdvertisement| x@) =~= before.push(entry@));
            let tail = spec_route_advertisement(value@.skip(pos + 2 * alen + 2));
            if let Some(t) = tail {
                assert(before + (seq![entry@] + t) =~= before.push(entry@) + t);
            }
        }
        pos = pos + 2 * alen + 2;
    }
    proof {
        assert(value@.skip(pos as int) =~= Seq::<u8>::empty());
        assert(out@.map_values(|x: RouteAdvertisement| x@) + Seq::empty() =~= out@.map_values(
            |x: RouteAdvertisement| x@,
        ));
    }
    Ok(out)
}

/// An IP packet framed as an HTTP datagram for a stream reads back as that
/// packet for the same stream.
pub proof fn lemma_ip_datagram_roundtrip(stream_id: u64, ip_packet: Seq<u8>)
    ensures
        spec_decode_ip_datagram(spec_encode_ip_datagram(stream_id, ip_packet), stream_id)
            == Some(Some(ip_packet)),
{
    let q = stream_id / 4;
    let e1 = spec_varint_encode(q);
    let e2 = spec_varint_encode(CONNECT_IP_CONTEXT_ID);
    let d = spec_encode_ip_datagram(stream_id, ip_packet);
    lemma_varint_encode_len(q);
    lemma_varint_roundtrip(q, e2 + ip_packet);
    assert(d =~= e1 + (e2 + ip_packet));
    assert(d.skip(e1.len() as int) =~= e2 + ip_packet);
    lemma_varint_roundtrip(CONNECT_IP_CONTEXT_ID, ip_packet);
    assert(d.skip(e1.len() + e2.len() as int) =~= ip_packet);
}

/// A datagram framed for one stream is ignored by a reader of any stream with
/// a different quarter stream id.
pub proof fn lemma_ip_datagram_other_stream(stream_id: u64, other: u64, ip_packet: Seq<u8>)
    requires
        stream_id / 4 != other / 4,
    ensures
        spec_decode_ip_datagram(spec_encode_ip_datagram(stream_id, ip_packet), other) == Some(
            None::<Seq<u8>>,
        ),
{
    let q = stream_id / 4;
    let e2 = spec_varint_encode(CONNECT_IP_CONTEXT_ID);
    lemma_varint_roundtrip(q, e2 + ip_packet);
    assert(spec_encode_ip_datagram(stream_id, ip_packet) =~= spec_varint_encode(q) + (e2
        + ip_packet));
}

/// A capsule written by `encode_capsule`, followed by anything, frames back
/// into that capsule's type and value, provided the value is within the
/// parser's length limit.
pub proof fn lemma_capsule_roundtrip(kind: u64, value: Seq<u8>, rest: Seq<u8>)
    requires
        kind <= VARINT_MAX,
        value.len() <= MAX_CAPSULE_LEN,
    ensures
        spec_frame(spec_encode_capsule(kind, value) + rest) == (Frame::Whole {
            kind,
            value,
            consumed: spec_varint_len(kind) + spec_varint_len(value.len() as u64) + value.len(),
        }),
{
    let l = value.len() as u64;
    let e1 = spec_varint_encode(kind);
    let e2 = spec_varint_encode(l);
    let b = spec_encode_capsule(kind, value) + rest;
    lemma_varint_encode_len(kind);
    lemma_varint_encode_len(l);
    assert(b =~= e1 + (e2 + value + rest));
    lemma_varint_roundtrip(kind, e2 + value + rest);
    assert(b.skip(e1.len() as int) =~= e2 + (value + rest));
    lemma_varint_roundtrip(l, value + rest);
    assert(b.subrange(e1.len() + e2.len() as int, e1.len() + e2.len() + l) =~= value);
}

/// A DATAGRAM capsule always reads back as the packet it carried.
pub proof fn lemma_datagram_capsule_roundtrip(ip_packet: Seq<u8>, rest: Seq<u8>)
    requires
        ip_packet.len() <= MAX_CAPSULE_LEN,
    ensures
        spec_frame(spec_encode_capsule(CAPSULE_DATAGRAM, ip_packet) + rest) matches Frame::Whole {
            kind,
            value,
            consumed,
        } && spec_capsule(kind, value) == Some(CapsuleView::Datagram(ip_packet)),
{
    lemma_capsule_roundtrip(CAPSULE_DATAGRAM, ip_packet, rest);
}

/// The `:protocol` Cloudflare's MASQUE front answers to.
pub const CF_CONNECT_PROTOCOL: &'static str = "cf-connect-ip";

pub open spec fn hdr(name: Seq<char>, value: Seq<char>) -> (Seq<char>, Seq<char>) {
    (name, value)
}

/// The CONNECT-IP request headers for a recipe: extended CONNECT carries
/// `:protocol`, `:scheme`, `:authority`, `:path` and `capsule-protocol`;
/// classic CONNECT only `:authority`; the Cloudflare recipe adds its own two
/// headers.
pub open spec fn spec_connect_ip_headers(
    authority: Seq<char>,
    path: Seq<char>,
    mode: H3HeaderMode,
    protocol: Seq<char>,
) -> Seq<(Seq<char>, Seq<char>)> {
    let ext = mode == H3HeaderMode::Standard || mode == H3HeaderMode::Both;
    let cf = mode == H3HeaderMode::Cf || mode == H3HeaderMode::Both;
    seq![hdr(":method"@, "CONNECT"@)] + (if ext {
        seq![
            hdr(":protocol"@, protocol),
            hdr(":scheme"@, "https"@),
            hdr(":authority"@, authority),
            hdr(":path"@, path),
        ]
    } else {
        seq![hdr(":authority"@, authority)]
    }) + seq![hdr("user-agent"@, ""@)] + (if cf {
        seq![hdr("cf-connect-proto"@, "cf-connect-ip"@), hdr("pq-enabled"@, "false"@)]
    } else {
        seq![]
    }) + (if ext { seq![hdr("capsule-protocol"@, "?1"@)] } else { seq![] })
}

pub open spec fn headers_view(h: Seq<(String, String)>) -> Seq<(Seq<char>, Seq<char>)> {
    h.map_values(|e: (String, String)| (e.0@, e.1@))
}

fn push_header(h: &mut Vec<(String, String)>, name: &str, value: &str)
    ensures
        headers_view(final(h)@) == headers_view(old(h)@).push((name@, value@)),
{
    let ghost before = h@;
    h.push((name.to_owned(), value.to_owned()));
    assert(headers_view(h@) =~= headers_view(before).push((name@, value@)));
}

/// The CONNECT-IP request headers for `mode`; `protocol_setting` is
/// `AETHER_MASQUE_H3_PROTOCOL`, which overrides `:protocol` when not blank.
pub fn connect_ip_request_mode(
    authority: &str,
    path: &str,
    mode: H3HeaderMode,
    protocol_setting: Option<&str>,
) -> (h: Vec<(String, String)>)
    ensures
        headers_view(h@) == spec_connect_ip_headers(
            authority@,
            path@,
            mode,
            match crate::settings::spec_nonblank(opt_view(protocol_setting)) {
                Some(p) => p,
                None => CF_CONNECT_PROTOCOL@,
            },
        ),
{
    let ext = match mode {
        H3HeaderMode::Standard | H3HeaderMode::Both => true,
        H3HeaderMode::Cf => false,
    };
    let cf = match mode {
        H3HeaderMode::Cf | H3HeaderMode::Both => true,
        H3HeaderMode::Standard => false,
    };
    let proto = match crate::settings::nonblank(protocol_setting) {
        Some(p) => p,
        None => CF_CONNECT_PROTOCOL.to_owned(),
    };
    let mut h: Vec<(String, String)> = Vec::new();
    push_header(&mut h, ":method", "CONNECT");
    if ext {
        push_header(&mut h, ":protocol", proto.as_str());
        push_header(&mut h, ":scheme", "https");
        push_header(&mut h, ":authority", authority);
        push_header(&mut h, ":path", path);
    } else {
        push_header(&mut h, ":authority", authority);
    }
    push_header(&mut h, "user-agent", "");
    if cf {
        push_header(&mut h, "cf-connect-proto", CF_CONNECT_PROTOCOL);
        push_header(&mut h, "pq-enabled", "false");
    }
    if ext {
        push_header(&mut h, "capsule-protocol", "?1");
    }
    assert(headers_view(h@) =~= spec_connect_ip_headers(authority@, path@, mode, proto@));
    h
}


/// One ADDRESS_ASSIGN entry as an edge writes it: the request id as a
/// varint, the IP version, the address, the prefix length.
pub open spec fn assign_entry_bytes(e: (u64, u8, Seq<u8>, u8)) -> Seq<u8> {
    spec_varint_encode(e.0) + seq![e.1] + e.2 + seq![e.3]
}

/// Entries one after another, as an ADDRESS_ASSIGN value carries them.
pub open spec fn assign_bytes(es: Seq<(u64, u8, Seq<u8>, u8)>) -> Seq<u8>
    decreases es.len(),
{
    if es.len() == 0 {
        seq![]
    } else {
        assign_entry_bytes(es[0]) + assign_bytes(es.drop_first())
    }
}

/// A well-formed entry: a request id a varint can carry, and an IPv4
/// address of 4 bytes or an IPv6 address of 16.
pub open spec fn assign_entry_ok(e: (u64, u8, Seq<u8>, u8)) -> bool {
    &&& e.0 <= VARINT_MAX
    &&& (e.1 == 4 && e.2.len() == 4) || (e.1 == 6 && e.2.len() == 16)
}

/// Reading an ADDRESS_ASSIGN value made of well-formed entries gives every
/// entry back, in order: as many as were written, the i-th with the i-th
/// entry's IP version, address and prefix length.
pub proof fn lemma_address_assign_reads_every_entry(es: Seq<(u64, u8, Seq<u8>, u8)>)
    requires
        forall|i: int| 0 <= i < es.len() ==> assign_entry_ok(#[trigger] es[i]),
    ensures
        spec_address_assign(assign_bytes(es)) matches Some(got) && got.len() == es.len()
            && forall|i: int| 0 <= i < es.len() ==> #[trigger] got[i] == (es[i].1, es[i].2, es[i].3),
    decreases es.len(),
{
    if es.len() > 0 {
        let e = es[0];
        let tail = es.drop_first();
        assert forall|i: int| 0 <= i < tail.len() implies assign_entry_ok(#[trigger] tail[i]) by {
            assert(tail[i] == es[i + 1]);
        }
        lemma_address_assign_reads_every_entry(tail);
        let s = assign_bytes(es);
        let body = seq![e.1] + e.2 + seq![e.3] + assign_bytes(tail);
        assert(s =~= spec_varint_encode(e.0) + body);
        assert(assign_entry_ok(es[0]));
        crate::varint::lemma_varint_roundtrip(e.0, body);
        let n = spec_varint_len(e.0);
        crate::varint::lemma_varint_encode_len(e.0);
        let r = s.skip(n as int);
        assert(r =~= body);
        let alen: int = e.2.len() as int;
        assert(r[0] == e.1);
        assert(r.subrange(1, alen + 1) =~= e.2);
        assert(r[alen + 1] == e.3);
        assert(r.skip(alen + 2) =~= assign_bytes(tail));
        let got = spec_address_assign(s)->0;
        let rest = spec_address_assign(assign_bytes(tail))->0;
        assert(got == seq![(e.1, e.2, e.3)] + rest);
        assert forall|i: int| 0 <= i < es.len() implies #[trigger] got[i] == (es[i].1, es[i].2, es[i].3) by {
            if i > 0 {
                assert(got[i] == rest[i - 1]);
                assert(tail[i - 1] == es[i]);
            }
        }
    }
}

} // verus!
