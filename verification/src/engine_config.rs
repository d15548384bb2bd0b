//! Typed runtime options: one place for the defaults and the validation of
//! the engine's settings. The settings' values are handed in as text.
use vstd::prelude::*;

use crate::error::{AetherError, Result};
use crate::ip::{parse_socket_addr, spec_parse_socket_addr, SockAddr};
use crate::paths::{is_absolute_path, path_is_absolute};
use crate::text::{debug_quoted, debug_str, decimal, decimal_string, join2, opt_view, trim, trimmed};

verus! {

/// What `str::to_lowercase` gives for a text (Unicode lowercase mapping).
pub uninterp spec fn unicode_lower(s: Seq<char>) -> Seq<char>;

/// `str::to_lowercase`.
#[verifier::external_body]
fn to_lowercase(s: &str) -> (r: String)
    ensures
        r@ == unicode_lower(s@),
{
    s.to_lowercase()
}

/// Default SOCKS listener.
pub const DEFAULT_SOCKS: &'static str = "127.0.0.1:1819";
/// Default HTTP listener.
pub const DEFAULT_HTTP: &'static str = "127.0.0.1:1820";

/// The engine's options.
#[derive(Debug, Clone)]
pub struct EngineConfig {
    pub protocol: String,
    pub scan: String,
    pub ip: String,
    pub noize: String,
    pub socks: SockAddr,
    pub http: SockAddr,
    pub config_path: String,
    pub masque_http2: bool,
    pub tun: bool,
    pub peer: Option<SockAddr>,
    pub wg_peer: Option<SockAddr>,
}

/// The settings the engine reads, as text (`None` when unset).
#[derive(Debug, Clone, Default)]
pub struct EngineSettings {
    pub protocol: Option<String>,
    pub scan: Option<String>,
    pub ip: Option<String>,
    pub noize: Option<String>,
    pub config: Option<String>,
    pub socks: Option<String>,
    pub http: Option<String>,
    pub allow_remote_proxy: Option<String>,
    pub masque_http2: Option<String>,
    pub tun: Option<String>,
    pub peer: Option<String>,
    pub wg_peer: Option<String>,
}

/// The loopback addresses: 127.0.0.0/8 and `::1`.
pub open spec fn is_loopback(a: SockAddr) -> bool {
    if a.v6 { a.ip == 1 } else { (a.ip >> 24u128) & 0xff == 127 }
}

pub fn addr_is_loopback(a: SockAddr) -> (b: bool)
    ensures
        b == is_loopback(a),
{
    if a.v6 { a.ip == 1 } else { (a.ip >> 24u128) & 0xff == 127 }
}

/// The parsed form of the two default listeners.
pub open spec fn default_socks_addr() -> SockAddr {
    SockAddr { v6: false, ip: 0x7f00_0001, port: 1819, scope_id: 0 }
}

pub open spec fn default_http_addr() -> SockAddr {
    SockAddr { v6: false, ip: 0x7f00_0001, port: 1820, scope_id: 0 }
}

impl EngineConfig {
    /// The defaults: MASQUE, a balanced scan over IPv4, the firewall noise
    /// profile, loopback listeners on 1819 (SOCKS) and 1820 (HTTP), nothing
    /// forced; `config_path` is the per-user default location.
    pub fn defaults(config_path: String) -> (c: EngineConfig)
        ensures
            c.protocol@ == "masque"@ && c.scan@ == "balanced"@ && c.ip@ == "v4"@ && c.noize@ == "firewall"@,
            c.socks == default_socks_addr(),
            c.http == default_http_addr(),
            c.config_path@ == config_path@,
            !c.masque_http2 && !c.tun && c.peer is None && c.wg_peer is None,
    {
        EngineConfig {
            protocol: crate::text::owned("masque"),
            scan: crate::text::owned("balanced"),
            ip: crate::text::owned("v4"),
            noize: crate::text::owned("firewall"),
            socks: SockAddr { v6: false, ip: 0x7f00_0001, port: 1819, scope_id: 0 },
            http: SockAddr { v6: false, ip: 0x7f00_0001, port: 1820, scope_id: 0 },
            config_path,
            masque_http2: false,
            tun: false,
            peer: None,
            wg_peer: None,
        }
    }

    /// Whether a peer is forced for either protocol.
    pub fn has_forced_peer(&self) -> (b: bool)
        ensures
            b == (self.peer is Some || self.wg_peer is Some),
    {
        self.peer.is_some() || self.wg_peer.is_some()
    }
}

/// The message refusing a relative config path.
pub open spec fn relative_path_message(name: Seq<char>, raw: Seq<char>) -> Seq<char> {
    name + " must be an absolute path (got "@ + debug_quoted(raw)
        + "); a relative one is read from whatever directory the process happened to start in"@
}

/// A config path must be absolute: a relative one would be read from
/// whatever directory the process started in.
pub fn absolute_config_path(name: &str, raw: &str) -> (r: Result<String>)
    ensures
        is_absolute_path(raw@) ==> (r matches Ok(s) && s@ == raw@),
        !is_absolute_path(raw@) ==> (r matches Err(AetherError::Config(m)) && m@ == relative_path_message(name@, raw@)),
{
    if path_is_absolute(raw) {
        return Ok(crate::text::owned(raw));
    }
    let q = debug_str(raw);
    let a = join2(name, " must be an absolute path (got ");
    let b = join2(a.as_str(), q.as_str());
    let c = join2(b.as_str(), "); a relative one is read from whatever directory the process happened to start in");
    Err(AetherError::Config(c))
}

/// A listener setting: the value (or the default), which must be a socket
/// address with a port of at least 1024.
pub open spec fn spec_parse_listen(var: Seq<char>, raw: Seq<char>) -> core::result::Result<SockAddr, Seq<char>> {
    match spec_parse_socket_addr(raw) {
        None => Err("bad "@ + var + " address "@ + raw),
        Some(a) => if a.port < 1024 {
            Err(var + " port must be >= 1024 (got "@ + decimal(a.port as nat) + ")"@)
        } else {
            Ok(a)
        },
    }
}

pub fn parse_listen(var: &str, setting: Option<&str>, default: &str) -> (r: Result<SockAddr>)
    ensures
        ({
            let raw = match setting { Some(v) => v@, None => default@ };
            match spec_parse_listen(var@, raw) {
                Ok(a) => r matches Ok(b) && b == a,
                Err(m) => r matches Err(AetherError::Config(e)) && e@ == m,
            }
        }),
{
    let raw = match setting {
        Some(v) => v,
        None => default,
    };
    match parse_socket_addr(raw) {
        None => {
            let a = join2("bad ", var);
            let b = join2(a.as_str(), " address ");
            Err(AetherError::Config(join2(b.as_str(), raw)))
        },
        Some(addr) => {
            if addr.port < 1024 {
                let p = decimal_string(addr.port as u64);
                let a = join2(var, " port must be >= 1024 (got ");
                let b = join2(a.as_str(), p.as_str());
                Err(AetherError::Config(join2(b.as_str(), ")")))
            } else {
                Ok(addr)
            }
        },
    }
}

/// An optional address setting: unset or blank is none, else the trimmed
/// value must be a socket address.
pub open spec fn spec_env_addr(name: Seq<char>, setting: Option<Seq<char>>) -> core::result::Result<Option<SockAddr>, Seq<char>> {
    match setting {
        Some(v) => if trim(v).len() == 0 {
            Ok(None)
        } else {
            match spec_parse_socket_addr(trim(v)) {
                Some(a) => Ok(Some(a)),
                None => Err("bad "@ + name + " address "@ + v),
            }
        },
        None => Ok(None),
    }
}

pub fn env_addr(name: &str, setting: Option<&str>) -> (r: Result<Option<SockAddr>>)
    ensures
        match spec_env_addr(name@, opt_view(setting)) {
            Ok(a) => r matches Ok(b) && b == a,
            Err(m) => r matches Err(AetherError::Config(e)) && e@ == m,
        },
{
    match setting {
        Some(v) => {
            let t = trimmed(v);
            if t.len() == 0 {
                return Ok(None);
            }
            let ts = crate::text::string_of(&t);
            match parse_socket_addr(ts.as_str()) {
                Some(a) => Ok(Some(a)),
                None => {
                    let a = join2("bad ", name);
                    let b = join2(a.as_str(), " address ");
                    Err(AetherError::Config(join2(b.as_str(), v)))
                },
            }
        },
        None => Ok(None),
    }
}

/// A word setting: its trimmed, lowercased value when not blank.
pub open spec fn spec_word(setting: Option<Seq<char>>) -> Option<Seq<char>> {
    match setting {
        Some(v) => if trim(v).len() > 0 { Some(unicode_lower(trim(v))) } else { None },
        None => None,
    }
}

fn word(setting: &Option<String>, current: String) -> (r: String)
    ensures
        r@ == match spec_word(crate::text::opt_string_view(*setting)) {
            Some(w) => w,
            None => current@,
        },
{
    match setting {
        Some(v) => {
            let t = trimmed(v.as_str());
            if t.len() == 0 {
                current
            } else {
                let ts = crate::text::string_of(&t);
                to_lowercase(ts.as_str())
            }
        },
        None => current,
    }
}

pub open spec fn opt_str(o: Option<String>) -> Option<Seq<char>> {
    crate::text::opt_string_view(o)
}

/// The options the settings ask for, over the defaults (whose config path
/// is `default_config_path`): words are trimmed and lowercased, a config path
/// must be absolute, the listeners must parse, use ports of at least 1024,
/// stay on loopback unless remote proxies are allowed, and differ in port;
/// peers must parse, and the WireGuard peer falls back to the MASQUE one.
pub fn from_settings(s: &EngineSettings, default_config_path: String) -> (r: Result<EngineConfig>)
    ensures
        match r {
            Ok(c) => {
                &&& c.protocol@ == (match spec_word(opt_str(s.protocol)) { Some(w) => w, None => "masque"@ })
                &&& c.scan@ == (match spec_word(opt_str(s.scan)) { Some(w) => w, None => "balanced"@ })
                &&& c.ip@ == (match spec_word(opt_str(s.ip)) { Some(w) => w, None => "v4"@ })
                &&& c.noize@ == (match spec_word(opt_str(s.noize)) { Some(w) => w, None => "firewall"@ })
                &&& spec_parse_listen("AETHER_SOCKS"@, match opt_str(s.socks) { Some(v) => v, None => DEFAULT_SOCKS@ }) == Ok::<SockAddr, Seq<char>>(c.socks)
                &&& spec_parse_listen("AETHER_HTTP"@, match opt_str(s.http) { Some(v) => v, None => DEFAULT_HTTP@ }) == Ok::<SockAddr, Seq<char>>(c.http)
                &&& (crate::settings::spec_flag(opt_str(s.allow_remote_proxy)) || (is_loopback(c.socks) && is_loopback(c.http)))
                &&& c.socks.port != c.http.port
                &&& c.masque_http2 == crate::settings::spec_flag(opt_str(s.masque_http2))
                &&& c.tun == crate::settings::spec_flag(opt_str(s.tun))
                &&& spec_env_addr("AETHER_PEER"@, opt_str(s.peer)) == Ok::<Option<SockAddr>, Seq<char>>(c.peer)
                &&& (match spec_env_addr("AETHER_WG_PEER"@, opt_str(s.wg_peer)) {
                    Ok(Some(a)) => c.wg_peer == Some(a),
                    Ok(None) => c.wg_peer == c.peer,
                    Err(_) => false,
                })
                &&& (match opt_str(s.config) {
                    Some(v) => if trim(v).len() > 0 { c.config_path@ == trim(v) && is_absolute_path(trim(v)) } else { c.config_path@ == default_config_path@ },
                    None => c.config_path@ == default_config_path@,
                })
            },
            Err(e) => e is Config,
        },
        (({
            let socks = spec_parse_listen("AETHER_SOCKS"@, match opt_str(s.socks) { Some(v) => v, None => DEFAULT_SOCKS@ });
            let http = spec_parse_listen("AETHER_HTTP"@, match opt_str(s.http) { Some(v) => v, None => DEFAULT_HTTP@ });
            &&& socks is Ok && http is Ok
            &&& (crate::settings::spec_flag(opt_str(s.allow_remote_proxy)) || (is_loopback(socks->Ok_0) && is_loopback(http->Ok_0)))
            &&& socks->Ok_0.port != http->Ok_0.port
            &&& spec_env_addr("AETHER_PEER"@, opt_str(s.peer)) is Ok
            &&& spec_env_addr("AETHER_WG_PEER"@, opt_str(s.wg_peer)) is Ok
            &&& (match opt_str(s.config) {
                Some(v) => trim(v).len() > 0 ==> is_absolute_path(trim(v)),
                None => true,
            })
        })) ==> r is Ok,
{
    let mut cfg = EngineConfig::defaults(default_config_path);
    cfg.protocol = word(&s.protocol, cfg.protocol);
    cfg.scan = word(&s.scan, cfg.scan);
    cfg.ip = word(&s.ip, cfg.ip);
    cfg.noize = word(&s.noize, cfg.noize);
    match &s.config {
        Some(v) => {
            let t = trimmed(v.as_str());
            if t.len() > 0 {
                let ts = crate::text::string_of(&t);
                match absolute_config_path("AETHER_CONFIG", ts.as_str()) {
                    Ok(p) => cfg.config_path = p,
                    Err(e) => return Err(e),
                }
            }
        },
        None => {},
    }
    let socks_setting: Option<&str> = match &s.socks {
        Some(v) => Some(v.as_str()),
        None => None,
    };
    let http_setting: Option<&str> = match &s.http {
        Some(v) => Some(v.as_str()),
        None => None,
    };
    cfg.socks = match parse_listen("AETHER_SOCKS", socks_setting, DEFAULT_SOCKS) {
        Ok(a) => a,
        Err(e) => return Err(e),
    };
    cfg.http = match parse_listen("AETHER_HTTP", http_setting, DEFAULT_HTTP) {
        Ok(a) => a,
        Err(e) => return Err(e),
    };
    let allow_remote = crate::settings::env_truthy(match &s.allow_remote_proxy {
        Some(v) => Some(v.as_str()),
        None => None,
    });
    if !allow_remote && (!addr_is_loopback(cfg.socks) || !addr_is_loopback(cfg.http)) {
        return Err(AetherError::Config(crate::text::owned(
            "proxy listeners must use loopback unless AETHER_ALLOW_REMOTE_PROXY=1",
        )));
    }
    if cfg.socks.port == cfg.http.port {
        return Err(AetherError::Config(crate::text::owned("AETHER_SOCKS and AETHER_HTTP ports must differ")));
    }
    cfg.masque_http2 = crate::settings::env_truthy(match &s.masque_http2 {
        Some(v) => Some(v.as_str()),
        None => None,
    });
    cfg.tun = crate::settings::env_truthy(match &s.tun {
        Some(v) => Some(v.as_str()),
        None => None,
    });
    cfg.peer = match env_addr("AETHER_PEER", match &s.peer {
        Some(v) => Some(v.as_str()),
        None => None,
    }) {
        Ok(a) => a,
        Err(e) => return Err(e),
    };
    let wg = match env_addr("AETHER_WG_PEER", match &s.wg_peer {
        Some(v) => Some(v.as_str()),
        None => None,
    }) {
        Ok(a) => a,
        Err(e) => return Err(e),
    };
    cfg.wg_peer = match wg {
        Some(a) => Some(a),
        None => cfg.peer,
    };
    Ok(cfg)
}

} // verus!
