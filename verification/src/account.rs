//! The account record the registration API returns, the identity kept from
//! it, and the small decisions made on them.
use vstd::prelude::*;

use crate::text::{join2, last_index_of, slice_chars, string_of, trim, trimmed};

verus! {

/// A registration or enrollment reply.
#[derive(Debug, Clone)]
pub struct AccountData {
    pub id: String,
    pub token: String,
    pub config: Config,
}

#[derive(Debug, Clone)]
pub struct Config {
    pub interface: Interface,
    pub peers: Vec<Peer>,
    pub client_id: String,
}

#[derive(Debug, Clone)]
pub struct Peer {
    pub public_key: String,
    pub endpoint: Endpoint,
}

#[derive(Debug, Clone)]
pub struct Endpoint {
    pub host: String,
    pub v4: String,
    pub v6: String,
}

#[derive(Debug, Clone)]
pub struct Interface {
    pub addresses: Addresses,
}

#[derive(Debug, Clone)]
pub struct Addresses {
    pub v4: String,
    pub v6: String,
}

/// What a device needs to run a tunnel. Holds bearer tokens and private
/// keys, so it has no `Debug`.
#[derive(Clone)]
pub struct Identity {
    pub device_id: String,
    pub access_token: String,
    pub cert_pem: Vec<u8>,
    pub key_pem: Vec<u8>,
    pub ipv4: String,
    pub ipv6: String,
    pub wg_private_key: [u8; 32],
    pub wg_peer_public_key: [u8; 32],
    pub client_id: [u8; 3],
    /// MASQUE data-plane endpoint (host:443) captured at enrollment, if any.
    pub masque_endpoint: Option<String>,
}

/// What an identity can run without re-provisioning.
#[derive(Debug, Clone, Copy, PartialEq, Eq, Structural)]
pub enum IdentityCapability {
    WireGuardOnly,
    MasqueReady,
}

/// A MASQUE client key, its certificate and the key's SPKI.
pub struct MasqueKeyPair {
    pub key_pem: Vec<u8>,
    pub cert_pem: Vec<u8>,
    pub spki_der: Vec<u8>,
}

/// The MASQUE endpoint of a reply: the first peer's IPv4 endpoint with its
/// port replaced by 443; nothing when there is no peer or no host.
pub open spec fn spec_masque_endpoint(peers: Seq<Peer>) -> Option<Seq<char>> {
    if peers.len() == 0 {
        None
    } else {
        let ep = trim(peers[0].endpoint.v4@);
        let k = last_index_of(ep, ':');
        let host = if k >= 0 { ep.take(k) } else { ep };
        if ep.len() == 0 || host.len() == 0 {
            None
        } else {
            Some(host + ":443"@)
        }
    }
}

/// The MASQUE data-plane endpoint (host:443) from a reply's first peer.
pub fn masque_endpoint_from(acct: &AccountData) -> (r: Option<String>)
    ensures
        match r {
            Some(s) => spec_masque_endpoint(acct.config.peers@) == Some(s@),
            None => spec_masque_endpoint(acct.config.peers@) is None,
        },
{
    if acct.config.peers.len() == 0 {
        return None;
    }
    let ep = trimmed(acct.config.peers[0].endpoint.v4.as_str());
    if ep.len() == 0 {
        return None;
    }
    let mut k = ep.len();
    assert(ep@.take(k as int) =~= ep@);
    while k > 0 && ep[k - 1] != ':'
        invariant
            k <= ep@.len(),
            last_index_of(ep@, ':') == last_index_of(ep@.take(k as int), ':'),
        decreases k,
    {
        assert(ep@.take(k as int).drop_last() =~= ep@.take(k - 1));
        k -= 1;
    }
    proof {
        if k > 0 {
            assert(ep@.take(k as int).last() == ':');
        } else {
            assert(ep@.take(0) =~= Seq::<char>::empty());
        }
    }
    let host = if k > 0 { slice_chars(&ep, 0, k - 1) } else { slice_chars(&ep, 0, ep.len()) };
    proof {
        if k > 0 {
            assert(host@ =~= ep@.take(k - 1));
        } else {
            assert(host@ =~= ep@);
        }
    }
    if host.len() == 0 {
        return None;
    }
    let h = string_of(&host);
    Some(join2(h.as_str(), ":443"))
}

impl Identity {
    /// The tunnel's inner IPv4 address, parsed; an unusable value is a
    /// configuration error, never a guess.
    pub fn tunnel_ipv4(&self) -> (r: Result<[u8; 4], crate::error::AetherError>)
        ensures
            match crate::ip::spec_parse_ipv4(trim(self.ipv4@)) {
                Some(o) => r matches Ok(a) && a@ == o,
                None => r matches Err(crate::error::AetherError::Config(m)) && m@
                    == "account config carries an unusable tunnel IPv4 ("@ + crate::text::debug_quoted(self.ipv4@)
                    + "); re-provision rather than guess"@,
            },
    {
        let t = string_of(&trimmed(self.ipv4.as_str()));
        match crate::ip::parse_ipv4(t.as_str()) {
            Some(o) => Ok(o),
            None => {
                let q = crate::text::debug_str(self.ipv4.as_str());
                let mut m = crate::text::owned("account config carries an unusable tunnel IPv4 (");
                m.append(q.as_str());
                m.append("); re-provision rather than guess");
                Err(crate::error::AetherError::Config(m))
            },
        }
    }

    pub fn private_key_bytes(&self) -> (r: Result<[u8; 32], crate::error::AetherError>)
        ensures
            r == Ok::<[u8; 32], crate::error::AetherError>(self.wg_private_key),
    {
        Ok(self.wg_private_key)
    }

    pub fn peer_public_key_bytes(&self) -> (r: Result<[u8; 32], crate::error::AetherError>)
        ensures
            r == Ok::<[u8; 32], crate::error::AetherError>(self.wg_peer_public_key),
    {
        Ok(self.wg_peer_public_key)
    }

    /// A MASQUE client certificate and key are both present.
    pub fn has_masque_credentials(&self) -> (b: bool)
        ensures
            b == (self.cert_pem@.len() > 0 && self.key_pem@.len() > 0),
    {
        self.cert_pem.len() > 0 && self.key_pem.len() > 0
    }

    pub fn capability(&self) -> (c: IdentityCapability)
        ensures
            c == (if self.cert_pem@.len() > 0 && self.key_pem@.len() > 0 {
                IdentityCapability::MasqueReady
            } else {
                IdentityCapability::WireGuardOnly
            }),
    {
        if self.has_masque_credentials() {
            IdentityCapability::MasqueReady
        } else {
            IdentityCapability::WireGuardOnly
        }
    }

    pub fn can_run_masque(&self) -> (b: bool)
        ensures
            b == (self.cert_pem@.len() > 0 && self.key_pem@.len() > 0),
    {
        match self.capability() {
            IdentityCapability::MasqueReady => true,
            IdentityCapability::WireGuardOnly => false,
        }
    }
}

/// Longest wait the account API may impose between retries, in ms.
pub const MAX_RETRY_AFTER_MS: u64 = 30000;

/// The wait before retrying a throttled or failing API call: the server's
/// `Retry-After` when it sent one, else 500 ms doubled per attempt, never more
/// than the cap.
pub open spec fn spec_retry_wait_ms(retry_after_secs: Option<u64>, attempt: u32) -> u64 {
    let wait: int = match retry_after_secs {
        Some(s) => s * 1000,
        None => 500 * pow2(attempt as nat),
    };
    if wait > MAX_RETRY_AFTER_MS { MAX_RETRY_AFTER_MS } else { wait as u64 }
}

pub open spec fn pow2(n: nat) -> int
    decreases n,
{
    if n == 0 { 1 } else { 2 * pow2((n - 1) as nat) }
}

pub proof fn lemma_pow2_grows(n: nat)
    ensures
        pow2(n) >= 1,
        n >= 6 ==> pow2(n) >= 64,
    decreases n,
{
    if n > 0 {
        lemma_pow2_grows((n - 1) as nat);
        if n == 6 {
            assert(pow2(6) == 64) by {
                reveal_with_fuel(pow2, 7);
            }
        }
    }
}

pub fn retry_wait_ms(retry_after_secs: Option<u64>, attempt: u32) -> (w: u64)
    requires
        attempt < 64,
    ensures
        w == spec_retry_wait_ms(retry_after_secs, attempt),
        w <= MAX_RETRY_AFTER_MS,
{
    match retry_after_secs {
        Some(s) => {
            if s > MAX_RETRY_AFTER_MS / 1000 {
                MAX_RETRY_AFTER_MS
            } else {
                s * 1000
            }
        },
        None => {
            let mut w: u64 = 500;
            let mut i: u32 = 0;
            while i < attempt && w <= MAX_RETRY_AFTER_MS
                invariant
                    i <= attempt,
                    w == 500 * pow2(i as nat),
                    w <= 2 * MAX_RETRY_AFTER_MS,
                decreases attempt - i,
            {
                w = w * 2;
                i += 1;
            }
            proof {
                if i < attempt {
                    lemma_pow2_mono(i as nat, attempt as nat);
                }
            }
            if w > MAX_RETRY_AFTER_MS { MAX_RETRY_AFTER_MS } else { w }
        },
    }
}

pub proof fn lemma_pow2_mono(a: nat, b: nat)
    requires
        a <= b,
    ensures
        pow2(a) <= pow2(b),
    decreases b - a,
{
    if a < b {
        lemma_pow2_mono(a, (b - 1) as nat);
        lemma_pow2_grows((b - 1) as nat);
    }
}

} // verus!
