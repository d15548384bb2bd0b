//! The last working peer per MASQUE transport, for a quick reconnect.
use vstd::prelude::*;

use crate::cache::{active_masque_transport, TransportKind};
use crate::paths::{file_stem_of, joined, parent_of, path_file_stem, path_join, path_parent};
use crate::text::{join2, opt_view, owned};

verus! {

/// The peer and header profile a transport last connected with.
#[derive(Debug, Clone, PartialEq, Eq)]
pub struct LastConnection {
    pub peer: String,
    pub profile: String,
}

/// The last-connection file: one record per transport, plus the unlabelled
/// fields of the older format, which are read but never trusted.
#[derive(Debug, Clone)]
pub struct LastConnectionFile {
    pub h2: Option<LastConnection>,
    pub h3: Option<LastConnection>,
    pub peer: Option<String>,
    pub profile: Option<String>,
}

impl Default for LastConnectionFile {
    fn default() -> (f: LastConnectionFile)
        ensures
            f.h2 is None && f.h3 is None && f.peer is None && f.profile is None,
    {
        LastConnectionFile { h2: None, h3: None, peer: None, profile: None }
    }
}

/// A record taken by its text.
pub open spec fn conn_view(c: Option<LastConnection>) -> Option<(Seq<char>, Seq<char>)> {
    match c {
        Some(c) => Some((c.peer@, c.profile@)),
        None => None,
    }
}

/// The record a transport reads: its own labelled entry, never the legacy
/// unlabelled one and never the other transport's.
pub open spec fn spec_load_for(file: Option<LastConnectionFile>, t: TransportKind) -> Option<(Seq<char>, Seq<char>)> {
    match file {
        None => None,
        Some(f) => match t {
            TransportKind::H2 => conn_view(f.h2),
            TransportKind::Quic => conn_view(f.h3),
        },
    }
}

/// The record for `transport` in a loaded file.
pub fn load_for(file: Option<LastConnectionFile>, transport: TransportKind) -> (r: Option<LastConnection>)
    ensures
        conn_view(r) == spec_load_for(file, transport),
{
    match file {
        None => None,
        Some(f) => match transport {
            TransportKind::H2 => f.h2,
            TransportKind::Quic => f.h3,
        },
    }
}

/// The record for the transport in use.
pub fn load(file: Option<LastConnectionFile>, h2_enabled: bool) -> (r: Option<LastConnection>)
    ensures
        conn_view(r) == spec_load_for(file, if h2_enabled { TransportKind::H2 } else { TransportKind::Quic }),
{
    load_for(file, active_masque_transport(h2_enabled))
}

/// The file after recording a connection: that transport's entry replaced,
/// the other kept, the legacy fields dropped.
pub fn record(
    file: Option<LastConnectionFile>,
    peer: &str,
    profile: &str,
    transport: TransportKind,
) -> (f: LastConnectionFile)
    ensures
        f.peer is None && f.profile is None,
        transport == TransportKind::H2 ==> conn_view(f.h2) == Some((peer@, profile@)) && conn_view(f.h3)
            == (match file { Some(g) => conn_view(g.h3), None => None }),
        transport == TransportKind::Quic ==> conn_view(f.h3) == Some((peer@, profile@)) && conn_view(f.h2)
            == (match file { Some(g) => conn_view(g.h2), None => None }),
{
    let mut f = match file {
        Some(g) => g,
        None => LastConnectionFile::default(),
    };
    let conn = LastConnection { peer: owned(peer), profile: owned(profile) };
    match transport {
        TransportKind::H2 => f.h2 = Some(conn),
        TransportKind::Quic => f.h3 = Some(conn),
    }
    f.peer = None;
    f.profile = None;
    f
}

/// What is written is what the same transport reads back, and recording one
/// transport leaves the other's record as it was.
pub proof fn lemma_record_then_load(
    file: Option<LastConnectionFile>,
    written: LastConnectionFile,
    t: TransportKind,
    other: TransportKind,
    peer: Seq<char>,
    profile: Seq<char>,
)
    requires
        t == TransportKind::H2 ==> conn_view(written.h2) == Some((peer, profile)) && conn_view(written.h3)
            == (match file { Some(g) => conn_view(g.h3), None => None }),
        t == TransportKind::Quic ==> conn_view(written.h3) == Some((peer, profile)) && conn_view(written.h2)
            == (match file { Some(g) => conn_view(g.h2), None => None }),
        other != t,
    ensures
        spec_load_for(Some(written), t) == Some((peer, profile)),
        spec_load_for(Some(written), other) == spec_load_for(file, other),
{
}

/// `<dir>/<stem>.<extra>` beside the config: the config's stem, or `aether`
/// when it has none.
pub open spec fn spec_sibling_of(base: Seq<char>, extra: Seq<char>) -> Seq<char> {
    let stem = match file_stem_of(base) {
        Some(s) => if s.len() > 0 { s } else { "aether"@ },
        None => "aether"@,
    };
    let dir = match parent_of(base) {
        Some(p) => p,
        None => seq![],
    };
    joined(dir, stem + "."@ + extra)
}

pub fn sibling_of(base_config: &str, extra: &str) -> (r: String)
    ensures
        r@ == spec_sibling_of(base_config@, extra@),
{
    let stem = match path_file_stem(base_config) {
        Some(s) => if s.as_str().unicode_len() > 0 { s } else { owned("aether") },
        None => owned("aether"),
    };
    let dir = match path_parent(base_config) {
        Some(p) => p,
        None => String::new(),
    };
    let mut name = join2(stem.as_str(), ".");
    name.append(extra);
    path_join(dir.as_str(), name.as_str())
}

/// Where the last-connection file lives: the `AETHER_LASTCONN_PATH` setting,
/// else `<stem>.lastconn.toml` beside the config.
pub fn cache_path(setting: Option<&str>, base_config: &str) -> (r: String)
    ensures
        r@ == match opt_view(setting) {
            Some(p) => p,
            None => spec_sibling_of(base_config@, "lastconn.toml"@),
        },
{
    match setting {
        Some(p) => owned(p),
        None => sibling_of(base_config, "lastconn.toml"),
    }
}

} // verus!
