//! A verified core for a multi-protocol tunnel client: wire formats, request
//! parsing, scan planning and the small state machines the engine runs on.
pub mod account;
pub mod aethernoize;
pub mod bytes;
pub mod cache;
pub mod cli;
pub mod config;
pub mod consts;
pub mod counters;
pub mod cps;
pub mod diagnostics;
pub mod dns;
pub mod endpoint_cache;
pub mod engine_config;
pub mod error;
pub mod h3_probe;
pub mod http_proxy;
pub mod hunt;
pub mod ip;
pub mod keyhandoff;
pub mod lastconn;
pub mod masque;
pub mod masque_h2;
pub mod mtu;
pub mod netstack;
pub mod noize;
pub mod obfuscation;
pub mod paths;
pub mod prober;
pub mod quic;
pub mod rng;
pub mod roundtrip;
pub mod search;
pub mod settings;
pub mod text;
pub mod varint;
