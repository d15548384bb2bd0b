//! Protocol constants shared by the transports.
use vstd::prelude::*;

verus! {

/// SNI of the consumer MASQUE front.
pub const CONNECT_SNI: &'static str = "consumer-masque.cloudflareclient.com";

/// SNI of the layer-4 MASQUE proxy front.
pub const L4_CONNECT_SNI: &'static str = "consumer-masque-proxy.cloudflareclient.com";

/// The QUIC version 2 number (RFC 9369).
pub const QUIC_V2_VERSION: u32 = 0x6b33_43cf;

} // verus!
