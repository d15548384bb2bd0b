//! The engine's error type: a machine-readable kind plus a human message.
use vstd::prelude::*;

use crate::text::join2;

verus! {

/// The kind of an I/O failure, as far as retry decisions care.
#[derive(Debug, Clone, Copy, PartialEq, Eq)]
pub enum IoKind {
    WouldBlock,
    TimedOut,
    Interrupted,
    ConnectionReset,
    ConnectionAborted,
    NotConnected,
    Other,
}

#[derive(Debug)]
pub enum AetherError {
    Io(IoKind, String),
    Quic(String),
    H3(String),
    Tls(String),
    Ech(String),
    Masque(String),
    NoCleanEndpoint,
    Capsule(String),
    Api(String),
    Config(String),
    Other(String),
}

pub type Result<T> = core::result::Result<T, AetherError>;

/// The stable name of each error kind.
pub open spec fn spec_code(e: AetherError) -> Seq<char> {
    match e {
        AetherError::Io(..) => "io"@,
        AetherError::Quic(_) => "quic"@,
        AetherError::H3(_) => "h3"@,
        AetherError::Tls(_) => "tls"@,
        AetherError::Ech(_) => "ech"@,
        AetherError::Masque(_) => "masque"@,
        AetherError::NoCleanEndpoint => "no_clean_endpoint"@,
        AetherError::Capsule(_) => "capsule"@,
        AetherError::Api(_) => "api"@,
        AetherError::Config(_) => "config"@,
        AetherError::Other(_) => "other"@,
    }
}

/// Transient failures: another attempt with nothing changed may succeed.
pub open spec fn spec_is_retryable(e: AetherError) -> bool {
    match e {
        AetherError::Io(k, _) => k != IoKind::Other,
        AetherError::Quic(_) | AetherError::H3(_) | AetherError::Capsule(_) => true,
        AetherError::Api(_) => true,
        AetherError::NoCleanEndpoint => true,
        _ => false,
    }
}

/// The human-readable text of an error: its kind's prefix and its detail.
pub open spec fn spec_message(e: AetherError) -> Seq<char> {
    match e {
        AetherError::Io(_, m) => "io: "@ + m@,
        AetherError::Quic(m) => "quic: "@ + m@,
        AetherError::H3(m) => "h3: "@ + m@,
        AetherError::Tls(m) => "tls: "@ + m@,
        AetherError::Ech(m) => "ech: "@ + m@,
        AetherError::Masque(m) => "masque: "@ + m@,
        AetherError::NoCleanEndpoint => "prober: no clean endpoint found"@,
        AetherError::Capsule(m) => "capsule: "@ + m@,
        AetherError::Api(m) => "api: "@ + m@,
        AetherError::Config(m) => "config: "@ + m@,
        AetherError::Other(m) => "other: "@ + m@,
    }
}

impl AetherError {
    /// A stable, machine-readable name for the failure.
    pub fn code(&self) -> (r: &'static str)
        ensures
            r@ == spec_code(*self),
    {
        match self {
            AetherError::Io(..) => "io",
            AetherError::Quic(_) => "quic",
            AetherError::H3(_) => "h3",
            AetherError::Tls(_) => "tls",
            AetherError::Ech(_) => "ech",
            AetherError::Masque(_) => "masque",
            AetherError::NoCleanEndpoint => "no_clean_endpoint",
            AetherError::Capsule(_) => "capsule",
            AetherError::Api(_) => "api",
            AetherError::Config(_) => "config",
            AetherError::Other(_) => "other",
        }
    }

    /// Could a fresh attempt plausibly succeed with nothing changed by the user?
    pub fn is_retryable(&self) -> (r: bool)
        ensures
            r == spec_is_retryable(*self),
    {
        match self {
            AetherError::Io(k, _) => match k {
                IoKind::Other => false,
                _ => true,
            },
            AetherError::Quic(_) | AetherError::H3(_) | AetherError::Capsule(_) => true,
            AetherError::Api(_) => true,
            AetherError::NoCleanEndpoint => true,
            _ => false,
        }
    }

    /// The error as a person reads it.
    pub fn message(&self) -> (r: String)
        ensures
            r@ == spec_message(*self),
    {
        match self {
            AetherError::Io(_, m) => join2("io: ", m.as_str()),
            AetherError::Quic(m) => join2("quic: ", m.as_str()),
            AetherError::H3(m) => join2("h3: ", m.as_str()),
            AetherError::Tls(m) => join2("tls: ", m.as_str()),
            AetherError::Ech(m) => join2("ech: ", m.as_str()),
            AetherError::Masque(m) => join2("masque: ", m.as_str()),
            AetherError::NoCleanEndpoint => "prober: no clean endpoint found".to_owned(),
            AetherError::Capsule(m) => join2("capsule: ", m.as_str()),
            AetherError::Api(m) => join2("api: ", m.as_str()),
            AetherError::Config(m) => join2("config: ", m.as_str()),
            AetherError::Other(m) => join2("other: ", m.as_str()),
        }
    }
}

} // verus!
