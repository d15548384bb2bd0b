//! The identity file: where its key comes from, the envelope it is sealed
//! in (ChaCha20-Poly1305, bound to the file's path), how it is opened, and
//! when a plaintext file may be adopted and moved into the envelope.
use vstd::prelude::*;

use crate::error::{AetherError, Result};
use crate::account::Identity;
use crate::keyhandoff::{base64_decode, base64_decoded};
use base64::Engine;
use chacha20poly1305::aead::AeadInPlace;
use chacha20poly1305::KeyInit;
use crate::paths::{file_name_of, parent_of, path_file_name, path_parent};
use crate::text::{opt_string_view, opt_view, owned, slice_chars, string_of, trim, trim_bounds, chars_of};
use vstd::string::StringSliceAdditionalSpecFns;

verus! {

/// The identity as the file stores it: keys in base64, addresses as text.
#[derive(Clone)]
pub struct PersistedIdentity {
    pub device_id: String,
    pub access_token: String,
    pub cert_pem: String,
    pub key_pem: String,
    pub ipv4: String,
    pub ipv6: String,
    pub wg_private_key: String,
    pub wg_peer_public_key: String,
    pub client_id: String,
    pub masque_endpoint: Option<String>,
}

/// Where the envelope key came from.
#[derive(Debug, Clone, Copy, PartialEq, Eq, Structural)]
pub enum KeySource {
    Injected,
    Absent,
}

/// A key counts as injected when `AETHER_CONFIG_KEY` is set to something
/// other than blanks.
pub fn key_source(setting: Option<&str>) -> (k: KeySource)
    ensures
        k == (match opt_view(setting) {
            Some(v) => if trim(v).len() > 0 { KeySource::Injected } else { KeySource::Absent },
            None => KeySource::Absent,
        }),
{
    match setting {
        Some(v) => {
            let c = chars_of(v);
            let (a, b) = trim_bounds(&c);
            if a < b { KeySource::Injected } else { KeySource::Absent }
        },
        None => KeySource::Absent,
    }
}

pub open spec fn other_text(r: Result<Option<Vec<u8>>>) -> core::result::Result<Option<Seq<u8>>, Seq<char>> {
    match r {
        Ok(Some(v)) => Ok(Some(v@)),
        Ok(None) => Ok(None),
        Err(AetherError::Other(m)) => Err(m@),
        Err(_) => Err(seq![]),
    }
}

/// The envelope key from the `AETHER_CONFIG_KEY` setting: none when absent
/// or blank, else the 32 bytes its trimmed base64 decodes to.
pub open spec fn spec_config_key(setting: Option<Seq<char>>) -> core::result::Result<Option<Seq<u8>>, Seq<char>> {
    match setting {
        None => Ok(None),
        Some(v) => {
            let t = trim(v);
            if t.len() == 0 {
                Ok(None)
            } else {
                match base64_decoded(t) {
                    Err(_) => Err("invalid config key encoding"@),
                    Ok(b) => if b.len() != 32 { Err("config key must be 32 bytes"@) } else { Ok(Some(b)) },
                }
            }
        },
    }
}

pub fn config_key(setting: Option<&str>) -> (r: Result<Option<Vec<u8>>>)
    ensures
        r is Ok || r matches Err(AetherError::Other(_)),
        other_text(r) == spec_config_key(opt_view(setting)),
        r matches Ok(Some(k)) ==> k@.len() == 32,
{
    match setting {
        None => Ok(None),
        Some(v) => {
            let c = chars_of(v);
            let (a, b) = trim_bounds(&c);
            if a == b {
                return Ok(None);
            }
            let t = string_of(&slice_chars(&c, a, b));
            match base64_decode(t.as_str()) {
                Err(_) => Err(AetherError::Other(owned("invalid config key encoding"))),
                Ok(bytes) => if bytes.len() != 32 {
                    Err(AetherError::Other(owned("config key must be 32 bytes")))
                } else {
                    Ok(Some(bytes))
                },
            }
        },
    }
}

/// The bytes the seal of `path` is bound to: the directory (its canonical
/// form when the caller found one), a NUL, then the file name; lowercased in
/// ASCII on Windows, where names are case-insensitive.
pub open spec fn spec_path_aad(path: Seq<char>, canonical_parent: Option<Seq<char>>, windows: bool) -> Seq<u8> {
    let dir = match canonical_parent {
        Some(c) => c,
        None => match parent_of(path) {
            Some(p) => p,
            None => seq![],
        },
    };
    let name = match file_name_of(path) {
        Some(n) => vstd::utf8::encode_utf8(n),
        None => seq![],
    };
    let raw = vstd::utf8::encode_utf8(dir) + seq![0u8] + name;
    if windows { raw.map_values(|b: u8| lower_byte(b)) } else { raw }
}

pub open spec fn lower_byte(b: u8) -> u8 {
    if 65 <= b <= 90 { (b + 32) as u8 } else { b }
}

/// The additional authenticated data for the file at `path`.
pub fn path_aad(path: &str, canonical_parent: Option<String>, windows: bool) -> (out: Vec<u8>)
    ensures
        out@ == spec_path_aad(path@, opt_string_view(canonical_parent), windows),
{
    let dir = match canonical_parent {
        Some(c) => c,
        None => match path_parent(path) {
            Some(p) => p,
            None => String::new(),
        },
    };
    let mut out: Vec<u8> = Vec::new();
    crate::bytes::extend(&mut out, dir.as_str().as_bytes());
    out.push(0);
    match path_file_name(path) {
        Some(n) => crate::bytes::extend(&mut out, n.as_str().as_bytes()),
        None => {},
    }
    let ghost raw = out@;
    if windows {
        let mut i: usize = 0;
        while i < out.len()
            invariant
                out@.len() == raw.len(),
                i <= out@.len(),
                forall|j: int| 0 <= j < i ==> out@[j] == lower_byte(raw[j]),
                forall|j: int| i <= j < out@.len() ==> out@[j] == raw[j],
            decreases out@.len() - i,
        {
            let b = out[i];
            let l = if 65 <= b && b <= 90 { b + 32 } else { b };
            out.set(i, l);
            i += 1;
        }
        assert(out@ =~= raw.map_values(|b: u8| lower_byte(b)));
    }
    out
}

/// Leading bytes of the current envelope format.
pub const MAGIC_V2: [u8; 11] = [65, 69, 84, 72, 69, 82, 67, 70, 71, 50, 10];
/// Leading bytes of the first envelope format, which bound nothing.
pub const MAGIC_V1: [u8; 11] = [65, 69, 84, 72, 69, 82, 67, 70, 71, 49, 10];
/// The schema this build writes and the newest it reads.
pub const SCHEMA_VERSION: u8 = 1;
pub const NONCE_LEN: usize = 12;
/// An AEAD tag: the shortest sealed body.
pub const TAG_LEN: usize = 16;

/// The parts of a sealed identity file.
#[derive(Debug, Clone)]
pub enum Envelope {
    /// Current format: schema byte checked, sealed under the path binding.
    V2 { nonce: Vec<u8>, sealed: Vec<u8> },
    /// First format: sealed with no binding.
    V1 { nonce: Vec<u8>, sealed: Vec<u8> },
}

pub open spec fn envelope_view(e: Envelope) -> (bool, Seq<u8>, Seq<u8>) {
    match e {
        Envelope::V2 { nonce, sealed } => (true, nonce@, sealed@),
        Envelope::V1 { nonce, sealed } => (false, nonce@, sealed@),
    }
}

pub open spec fn has_prefix(s: Seq<u8>, p: Seq<u8>) -> bool {
    p.len() <= s.len() && s.take(p.len() as int) == p
}

/// How the bytes of an identity file read as an envelope: the current
/// format (a schema byte no newer than ours, a nonce and at least a tag),
/// the first format (a nonce and at least a tag), or no envelope at all.
pub open spec fn spec_parse_envelope(raw: Seq<u8>) -> core::result::Result<Option<(bool, Seq<u8>, Seq<u8>)>, Seq<char>> {
    if has_prefix(raw, MAGIC_V2@) {
        let body = raw.skip(11);
        if body.len() == 0 {
            Err("truncated config envelope header"@)
        } else if body[0] > SCHEMA_VERSION {
            Err("config schema version "@ + crate::text::decimal(body[0] as nat)
                + " is newer than this build understands (1)"@)
        } else {
            let rest = body.skip(1);
            if rest.len() < NONCE_LEN + TAG_LEN {
                Err("truncated encrypted config"@)
            } else {
                Ok(Some((true, rest.take(12), rest.skip(12))))
            }
        }
    } else if has_prefix(raw, MAGIC_V1@) {
        let body = raw.skip(11);
        if body.len() < NONCE_LEN + TAG_LEN {
            Err("truncated encrypted config"@)
        } else {
            Ok(Some((false, body.take(12), body.skip(12))))
        }
    } else {
        Ok(None)
    }
}

pub open spec fn parsed_view(r: Result<Option<Envelope>>) -> core::result::Result<Option<(bool, Seq<u8>, Seq<u8>)>, Seq<char>> {
    match r {
        Ok(Some(e)) => Ok(Some(envelope_view(e))),
        Ok(None) => Ok(None),
        Err(AetherError::Other(m)) => Err(m@),
        Err(_) => Err(seq![]),
    }
}

fn starts_with_bytes(raw: &[u8], p: &[u8; 11]) -> (b: bool)
    ensures
        b == has_prefix(raw@, p@),
{
    if raw.len() < 11 {
        return false;
    }
    let mut i: usize = 0;
    while i < 11
        invariant
            11 <= raw@.len(),
            p@.len() == 11,
            i <= 11,
            forall|j: int| 0 <= j < i ==> raw@[j] == p@[j],
        decreases 11 - i,
    {
        if raw[i] != p[i] {
            assert(raw@.take(11)[i as int] != p@[i as int]);
            return false;
        }
        i += 1;
    }
    assert(raw@.take(11) =~= p@);
    true
}

/// Splits an identity file into its envelope parts.
pub fn parse_envelope(raw: &[u8]) -> (r: Result<Option<Envelope>>)
    ensures
        r is Ok || r matches Err(AetherError::Other(_)),
        parsed_view(r) == spec_parse_envelope(raw@),
{
    if starts_with_bytes(raw, &MAGIC_V2) {
        if raw.len() == 11 {
            return Err(AetherError::Other(owned("truncated config envelope header")));
        }
        let version = raw[11];
        if version > SCHEMA_VERSION {
            let d = crate::text::decimal_string(version as u64);
            let mut m = owned("config schema version ");
            m.append(d.as_str());
            m.append(" is newer than this build understands (1)");
            return Err(AetherError::Other(m));
        }
        if raw.len() - 12 < NONCE_LEN + TAG_LEN {
            return Err(AetherError::Other(owned("truncated encrypted config")));
        }
        let nonce = crate::bytes::copy_range(raw, 12, 24);
        let sealed = crate::bytes::copy_range(raw, 24, raw.len());
        assert(nonce@ =~= raw@.skip(11).skip(1).take(12));
        assert(sealed@ =~= raw@.skip(11).skip(1).skip(12));
        return Ok(Some(Envelope::V2 { nonce, sealed }));
    }
    if starts_with_bytes(raw, &MAGIC_V1) {
        if raw.len() - 11 < NONCE_LEN + TAG_LEN {
            return Err(AetherError::Other(owned("truncated encrypted config")));
        }
        let nonce = crate::bytes::copy_range(raw, 11, 23);
        let sealed = crate::bytes::copy_range(raw, 23, raw.len());
        assert(nonce@ =~= raw@.skip(11).take(12));
        assert(sealed@ =~= raw@.skip(11).skip(12));
        return Ok(Some(Envelope::V1 { nonce, sealed }));
    }
    Ok(None)
}

/// The bytes of a current-format envelope.
pub open spec fn spec_frame_envelope(nonce: Seq<u8>, sealed: Seq<u8>) -> Seq<u8> {
    MAGIC_V2@ + seq![SCHEMA_VERSION] + nonce + sealed
}

/// Frames a nonce and a sealed body as a current-format envelope.
pub fn frame_envelope(nonce: &[u8], sealed: &[u8]) -> (out: Vec<u8>)
    ensures
        out@ == spec_frame_envelope(nonce@, sealed@),
{
    let mut out: Vec<u8> = Vec::new();
    let mut i: usize = 0;
    while i < 11
        invariant
            i <= 11,
            out@ == MAGIC_V2@.take(i as int),
        decreases 11 - i,
    {
        out.push(MAGIC_V2[i]);
        i += 1;
        assert(out@ =~= MAGIC_V2@.take(i as int));
    }
    assert(MAGIC_V2@.take(11) =~= MAGIC_V2@);
    out.push(SCHEMA_VERSION);
    crate::bytes::extend(&mut out, nonce);
    crate::bytes::extend(&mut out, sealed);
    assert(out@ =~= spec_frame_envelope(nonce@, sealed@));
    out
}

/// An envelope written with a nonce and a sealed body of the right sizes is
/// read back as exactly those parts, in the current format.
pub proof fn lemma_envelope_roundtrip(nonce: Seq<u8>, sealed: Seq<u8>)
    requires
        nonce.len() == NONCE_LEN,
        sealed.len() >= TAG_LEN,
    ensures
        spec_parse_envelope(spec_frame_envelope(nonce, sealed)) == Ok::<Option<(bool, Seq<u8>, Seq<u8>)>, Seq<char>>(Some((true, nonce, sealed))),
{
    let raw = spec_frame_envelope(nonce, sealed);
    assert(raw.take(11) =~= MAGIC_V2@);
    let body = raw.skip(11);
    assert(body =~= seq![SCHEMA_VERSION] + nonce + sealed);
    assert(body.skip(1) =~= nonce + sealed);
    assert(body.skip(1).take(12) =~= nonce);
    assert(body.skip(1).skip(12) =~= sealed);
}

/// What ChaCha20-Poly1305 under a 32-byte `key` and a 12-byte `nonce`,
/// binding the associated data `aad`, makes of `plain`: the ciphertext
/// followed by the 16-byte tag.
pub uninterp spec fn chacha_sealed(key: Seq<u8>, nonce: Seq<u8>, aad: Seq<u8>, plain: Seq<u8>) -> Seq<u8>;

/// A message short enough for ChaCha20's block counter: fewer than
/// 2^32 - 1 blocks of 64 bytes.
pub open spec fn sealable(plain: Seq<u8>) -> bool {
    plain.len() / 64 < 0xffff_ffff
}

/// `ChaCha20Poly1305::encrypt_in_place` on a copy of `plain`, which the crate
/// refuses only for a message too long for its block counter; the tag is
/// appended, so the result is 16 bytes longer than `plain`.
#[verifier::external_body]
fn chacha_seal(key: &[u8], nonce: &[u8], aad: &[u8], plain: &[u8]) -> (r: Option<Vec<u8>>)
    requires
        key@.len() == 32,
        nonce@.len() == 12,
    ensures
        r is Some <==> sealable(plain@),
        r matches Some(v) ==> v@ == chacha_sealed(key@, nonce@, aad@, plain@) && v@.len() == plain@.len() + 16,
{
    let cipher = chacha20poly1305::ChaCha20Poly1305::new(chacha20poly1305::Key::from_slice(key));
    let mut buf = plain.to_vec();
    match cipher.encrypt_in_place(chacha20poly1305::Nonce::from_slice(nonce), aad, &mut buf) {
        Ok(()) => Some(buf),
        Err(_) => None,
    }
}

/// `ChaCha20Poly1305::decrypt_in_place` on a copy of `body`: it gives back
/// `p` exactly when `body` is the sealing of `p` under the same key, nonce
/// and associated data, and fails (tag mismatch, or too short) otherwise.
#[verifier::external_body]
fn chacha_open(key: &[u8], nonce: &[u8], aad: &[u8], body: &[u8]) -> (r: Option<Vec<u8>>)
    requires
        key@.len() == 32,
        nonce@.len() == 12,
    ensures
        r is Some ==> sealable(r->0@) && body@ == chacha_sealed(key@, nonce@, aad@, r->0@),
        forall|p: Seq<u8>| sealable(p) && body@ == #[trigger] chacha_sealed(key@, nonce@, aad@, p) ==> (r is Some && r->0@ == p),
{
    let cipher = chacha20poly1305::ChaCha20Poly1305::new(chacha20poly1305::Key::from_slice(key));
    let mut buf = body.to_vec();
    match cipher.decrypt_in_place(chacha20poly1305::Nonce::from_slice(nonce), aad, &mut buf) {
        Ok(()) => Some(buf),
        Err(_) => None,
    }
}

/// Whether `raw` is what sealing `plain` under `key` with `nonce`, bound to
/// `aad`, writes: the current-format envelope around the sealed bytes.
pub open spec fn sealed_as(raw: Seq<u8>, key: Seq<u8>, nonce: Seq<u8>, aad: Seq<u8>, plain: Seq<u8>) -> bool {
    &&& nonce.len() == NONCE_LEN
    &&& sealable(plain)
    &&& chacha_sealed(key, nonce, aad, plain).len() == plain.len() + 16
    &&& raw == spec_frame_envelope(nonce, chacha_sealed(key, nonce, aad, plain))
}

/// Why identity material is never written without a key.
pub open spec fn no_key_refusal() -> Seq<char> {
    "no configuration key available: refusing to write identity material in plaintext. Launch through the Aether app, or set AETHER_CONFIG_KEY to a base64-encoded 32-byte key."@
}

/// Seals identity bytes into a current-format envelope under `key` with
/// `nonce`, bound to `aad`.
pub fn seal_with_nonce(key: &[u8], nonce: &[u8], aad: &[u8], plain: &[u8]) -> (r: Result<Vec<u8>>)
    requires
        key@.len() == 32,
        nonce@.len() == 12,
    ensures
        sealable(plain@) ==> (r matches Ok(v) && sealed_as(v@, key@, nonce@, aad@, plain@)),
        !sealable(plain@) ==> (r matches Err(AetherError::Other(m)) && m@ == "config encryption failed"@),
{
    match chacha_seal(key, nonce, aad, plain) {
        Some(ct) => Ok(frame_envelope(nonce, &ct)),
        None => Err(AetherError::Other(owned("config encryption failed"))),
    }
}

/// Seals identity bytes for writing, under a fresh random nonce: refused
/// when there is no key, so identity material is never written in
/// plaintext.
pub fn seal(key: Option<&[u8]>, aad: &[u8], plain: &[u8]) -> (r: Result<Vec<u8>>)
    requires
        key matches Some(k) ==> k@.len() == 32,
    ensures
        key is None ==> (r matches Err(AetherError::Other(m)) && m@ == no_key_refusal()),
        key is Some && sealable(plain@) ==> (r matches Ok(v)
            && exists|nonce: Seq<u8>| #[trigger] sealed_as(v@, key->0@, nonce, aad@, plain@)),
        key is Some && !sealable(plain@) ==> (r matches Err(AetherError::Other(m)) && m@ == "config encryption failed"@),
{
    match key {
        None => Err(AetherError::Other(owned("no configuration key available: refusing to write identity material in plaintext. Launch through the Aether app, or set AETHER_CONFIG_KEY to a base64-encoded 32-byte key."))),
        Some(k) => {
            let nonce = crate::rng::random_bytes(NONCE_LEN);
            let r = seal_with_nonce(k, &nonce, aad, plain);
            proof {
                if sealable(plain@) {
                    assert(sealed_as(r->Ok_0@, k@, nonce@, aad@, plain@));
                }
            }
            r
        },
    }
}

/// Whether the envelope `raw` opens under `key` to `p`: a current-format
/// envelope sealed bound to `aad`, or a first-format one sealed unbound.
pub open spec fn opens_to(raw: Seq<u8>, key: Seq<u8>, aad: Seq<u8>, p: Seq<u8>) -> bool {
    spec_parse_envelope(raw) matches Ok(Some((v2, nonce, body))) && sealable(p)
        && body == chacha_sealed(key, nonce, if v2 { aad } else { Seq::<u8>::empty() }, p)
}

/// Opens an identity file's bytes under `key`, a current-format envelope
/// bound to `aad`: `None` for bytes that are no envelope, the envelope's
/// own errors, and `config authentication failed` when it does not open.
pub fn open_envelope(raw: &[u8], key: &[u8], aad: &[u8]) -> (r: Result<Option<Vec<u8>>>)
    requires
        key@.len() == 32,
    ensures
        match spec_parse_envelope(raw@) {
            Err(m) => r matches Err(AetherError::Other(x)) && x@ == m,
            Ok(None) => r matches Ok(None),
            Ok(Some(_)) => match r {
                Ok(Some(v)) => opens_to(raw@, key@, aad@, v@),
                Err(AetherError::Other(x)) => x@ == "config authentication failed"@
                    && forall|p: Seq<u8>| !#[trigger] opens_to(raw@, key@, aad@, p),
                _ => false,
            },
        },
        forall|p: Seq<u8>| #[trigger] opens_to(raw@, key@, aad@, p) ==> (r matches Ok(Some(v)) && v@ == p),
{
    let env = match parse_envelope(raw) {
        Err(e) => {
            return Err(e);
        },
        Ok(None) => {
            return Ok(None);
        },
        Ok(Some(e)) => e,
    };
    let (nonce, body, bound) = match env {
        Envelope::V2 { nonce, sealed } => (nonce, sealed, true),
        Envelope::V1 { nonce, sealed } => (nonce, sealed, false),
    };
    let empty: Vec<u8> = Vec::new();
    let a: &[u8] = if bound { aad } else { &empty };
    assert(a@ == (if bound { aad@ } else { Seq::<u8>::empty() }));
    match chacha_open(key, &nonce, a, &body) {
        Some(p) => Ok(Some(p)),
        None => Err(AetherError::Other(owned("config authentication failed"))),
    }
}

/// What sealing writes opens, under the same key and path binding, to
/// exactly what was sealed.
pub proof fn lemma_sealed_opens(raw: Seq<u8>, key: Seq<u8>, nonce: Seq<u8>, aad: Seq<u8>, plain: Seq<u8>)
    requires
        sealed_as(raw, key, nonce, aad, plain),
    ensures
        opens_to(raw, key, aad, plain),
{
    lemma_envelope_roundtrip(nonce, chacha_sealed(key, nonce, aad, plain));
}

/// How an identity file is read: authenticated through its envelope, or
/// adopted as plaintext under an explicit migration request.
#[derive(Debug, Clone, Copy, PartialEq, Eq, Structural)]
pub enum Admission {
    Authenticated,
    Plaintext,
}

/// Why an unenveloped config was not adopted.
pub open spec fn plaintext_refusal() -> Seq<char> {
    "config is stored unencrypted; refusing to adopt plaintext identity material. Launch through the Aether app or set AETHER_CONFIG_KEY, then re-run once with AETHER_MIGRATE_PLAINTEXT_CONFIG=1 to move the file into the v2 envelope."@
}

pub open spec fn admission_view(r: Result<Admission>) -> core::result::Result<Admission, Seq<char>> {
    match r {
        Ok(a) => Ok(a),
        Err(AetherError::Other(m)) => Err(m@),
        Err(_) => Err(seq![]),
    }
}

/// An envelope needs a key; bytes that are no envelope are adopted only
/// under the one-shot migration request.
pub open spec fn spec_admission(sealed: bool, key_present: bool, allow_plaintext: bool) -> core::result::Result<Admission, Seq<char>> {
    if sealed {
        if key_present {
            Ok(Admission::Authenticated)
        } else {
            Err("config is encrypted but no key is available for this process"@)
        }
    } else if allow_plaintext {
        Ok(Admission::Plaintext)
    } else {
        Err(plaintext_refusal())
    }
}

pub fn read_admission(sealed: bool, key_present: bool, allow_plaintext: bool) -> (r: Result<Admission>)
    ensures
        r is Ok || r matches Err(AetherError::Other(_)),
        admission_view(r) == spec_admission(sealed, key_present, allow_plaintext),
{
    if sealed {
        if key_present {
            Ok(Admission::Authenticated)
        } else {
            Err(AetherError::Other(owned("config is encrypted but no key is available for this process")))
        }
    } else if allow_plaintext {
        Ok(Admission::Plaintext)
    } else {
        Err(AetherError::Other(owned("config is stored unencrypted; refusing to adopt plaintext identity material. Launch through the Aether app or set AETHER_CONFIG_KEY, then re-run once with AETHER_MIGRATE_PLAINTEXT_CONFIG=1 to move the file into the v2 envelope.")))
    }
}

/// The setting that asks one load to adopt a plaintext identity file.
pub const MIGRATE_PLAINTEXT_SIGNAL: &'static str = "AETHER_MIGRATE_PLAINTEXT_CONFIG";

/// How loading the identity file begins.
#[derive(Debug, Clone, Copy, PartialEq, Eq, Structural)]
pub enum LoadStart {
    /// There is no file: there is no identity yet.
    Absent,
    /// Read the file, adopting plaintext only if `allow_plaintext`; when
    /// `consume_signal` the migration setting is removed first, so that only
    /// this one read may see plaintext.
    Read { allow_plaintext: bool, consume_signal: bool },
}

pub open spec fn spec_load_start(exists: bool, signal: bool) -> LoadStart {
    if !exists {
        LoadStart::Absent
    } else {
        LoadStart::Read { allow_plaintext: signal, consume_signal: signal }
    }
}

/// The first step of a load, from whether the file exists and whether the
/// migration setting is on.
pub fn load_start(exists: bool, signal: bool) -> (r: LoadStart)
    ensures
        r == spec_load_start(exists, signal),
{
    if !exists {
        LoadStart::Absent
    } else {
        LoadStart::Read { allow_plaintext: signal, consume_signal: signal }
    }
}

/// What follows a successful read of the identity file.
#[derive(Debug, Clone, Copy, PartialEq, Eq, Structural)]
pub enum LoadNext {
    /// It came through its envelope: it is the identity.
    Adopt,
    /// It was adopted as plaintext: save it at once through `seal` (a
    /// current-format envelope), read that back through `open_envelope`, and
    /// only then use it.
    Reseal,
}

/// Why adopted plaintext cannot be moved into an envelope.
pub open spec fn reseal_refusal() -> Seq<char> {
    "config is stored unencrypted and no key is available to seal it: refusing to keep identity material in plaintext. Launch through the Aether app or set AETHER_CONFIG_KEY."@
}

pub open spec fn spec_after_read(a: Admission, key_present: bool) -> core::result::Result<LoadNext, Seq<char>> {
    match a {
        Admission::Authenticated => Ok(LoadNext::Adopt),
        Admission::Plaintext => if key_present { Ok(LoadNext::Reseal) } else { Err(reseal_refusal()) },
    }
}

/// The step after a read: plaintext is never kept as it is.
pub fn after_read(a: Admission, key_present: bool) -> (r: Result<LoadNext>)
    ensures
        match r {
            Ok(n) => spec_after_read(a, key_present) == Ok::<LoadNext, Seq<char>>(n),
            Err(AetherError::Other(m)) => spec_after_read(a, key_present) == Err::<LoadNext, Seq<char>>(m@),
            Err(_) => false,
        },
{
    match a {
        Admission::Authenticated => Ok(LoadNext::Adopt),
        Admission::Plaintext => if key_present {
            Ok(LoadNext::Reseal)
        } else {
            Err(AetherError::Other(owned("config is stored unencrypted and no key is available to seal it: refusing to keep identity material in plaintext. Launch through the Aether app or set AETHER_CONFIG_KEY.")))
        },
    }
}

pub open spec fn spec_after_reseal(read_back_sealed: bool, same_identity: bool) -> core::result::Result<(), Seq<char>> {
    if !read_back_sealed {
        Err("config migration did not produce a sealed envelope"@)
    } else if !same_identity {
        Err("config migration read back a different identity"@)
    } else {
        Ok(())
    }
}

/// Whether a migration held: the rewritten file must read back through its
/// envelope as the same identity (device id and address).
pub fn after_reseal(read_back_sealed: bool, same_identity: bool) -> (r: Result<()>)
    ensures
        match r {
            Ok(()) => spec_after_reseal(read_back_sealed, same_identity) == Ok::<(), Seq<char>>(()),
            Err(AetherError::Other(m)) => spec_after_reseal(read_back_sealed, same_identity) == Err::<(), Seq<char>>(m@),
            Err(_) => false,
        },
{
    if !read_back_sealed {
        Err(AetherError::Other(owned("config migration did not produce a sealed envelope")))
    } else if !same_identity {
        Err(AetherError::Other(owned("config migration read back a different identity")))
    } else {
        Ok(())
    }
}

/// A plaintext identity file (no envelope) with a key at hand: without the
/// migration setting the load is refused, naming the setting, and nothing is
/// written; with it the setting is consumed, the file is adopted and rewritten
/// as an `AETHERCFG2` envelope that reads back as one, and a second load of
/// plaintext (the setting now gone) is refused again.
pub proof fn lemma_plaintext_migration_is_one_shot(raw: Seq<u8>, nonce: Seq<u8>, sealed: Seq<u8>)
    requires
        !has_prefix(raw, MAGIC_V2@),
        !has_prefix(raw, MAGIC_V1@),
        nonce.len() == NONCE_LEN,
        sealed.len() >= TAG_LEN,
    ensures
        spec_parse_envelope(raw) == Ok::<Option<(bool, Seq<u8>, Seq<u8>)>, Seq<char>>(None),
        spec_load_start(true, false) == (LoadStart::Read { allow_plaintext: false, consume_signal: false }),
        spec_admission(false, true, false) == Err::<Admission, Seq<char>>(plaintext_refusal()),
        crate::text::has_infix(plaintext_refusal(), MIGRATE_PLAINTEXT_SIGNAL@),
        spec_load_start(true, true) == (LoadStart::Read { allow_plaintext: true, consume_signal: true }),
        spec_admission(false, true, true) == Ok::<Admission, Seq<char>>(Admission::Plaintext),
        spec_after_read(Admission::Plaintext, true) == Ok::<LoadNext, Seq<char>>(LoadNext::Reseal),
        spec_frame_envelope(nonce, sealed).take(11) == seq![65u8, 69, 84, 72, 69, 82, 67, 70, 71, 50, 10],
        spec_parse_envelope(spec_frame_envelope(nonce, sealed)) == Ok::<Option<(bool, Seq<u8>, Seq<u8>)>, Seq<char>>(Some((true, nonce, sealed))),
{
    lemma_envelope_roundtrip(nonce, sealed);
    assert(spec_frame_envelope(nonce, sealed).take(11) =~= MAGIC_V2@);
    assert(MAGIC_V2@ =~= seq![65u8, 69, 84, 72, 69, 82, 67, 70, 71, 50, 10]);
    reveal_strlit("config is stored unencrypted; refusing to adopt plaintext identity material. Launch through the Aether app or set AETHER_CONFIG_KEY, then re-run once with AETHER_MIGRATE_PLAINTEXT_CONFIG=1 to move the file into the v2 envelope.");
    reveal_strlit("AETHER_MIGRATE_PLAINTEXT_CONFIG");
    let r = plaintext_refusal();
    let p = MIGRATE_PLAINTEXT_SIGNAL@;
    assert(r.subrange(155, 155 + p.len() as int) =~= p);
}

/// A successful decoding to `b`.
pub open spec fn decoded_ok(b: Seq<u8>) -> core::result::Result<Seq<u8>, Seq<char>> {
    Ok(b)
}

/// What the standard base64 alphabet (with padding) encodes `b` to.
pub uninterp spec fn base64_encoded(b: Seq<u8>) -> Seq<char>;

/// `base64::engine::general_purpose::STANDARD.encode`: the text, which the
/// same engine decodes back to `b`, four characters for every three bytes
/// or part of three (the engine pads). The crate panics when that length
/// does not fit in `usize`, which the bound on `b` rules out.
#[verifier::external_body]
pub(crate) fn base64_encode(b: &[u8]) -> (r: String)
    requires
        b@.len() <= 0x1000_0000,
    ensures
        r@ == base64_encoded(b@),
        base64_decoded(r@) == decoded_ok(b@),
        r@.len() == 4 * ((b@.len() + 2) / 3),
{
    base64::engine::general_purpose::STANDARD.encode(b)
}

/// A 32-byte key from its base64 text; `label` names it in the errors.
pub open spec fn spec_decode_key(value: Seq<char>, label: Seq<char>) -> core::result::Result<Seq<u8>, Seq<char>> {
    match base64_decoded(value) {
        Err(e) => Err("decode "@ + label + ": "@ + e),
        Ok(b) => if b.len() != 32 {
            Err(label + " length "@ + crate::text::decimal(b.len()) + " (want 32)"@)
        } else {
            Ok(b)
        },
    }
}

pub fn decode_key(value: &str, label: &str) -> (r: Result<[u8; 32]>)
    ensures
        match spec_decode_key(value@, label@) {
            Ok(b) => r matches Ok(k) && k@ == b,
            Err(m) => r matches Err(AetherError::Other(e)) && e@ == m,
        },
{
    match base64_decode(value) {
        Err(e) => {
            let a = crate::text::join2("decode ", label);
            let b = crate::text::join2(a.as_str(), ": ");
            Err(AetherError::Other(crate::text::join2(b.as_str(), e.as_str())))
        },
        Ok(bytes) => {
            if bytes.len() != 32 {
                let n = crate::text::decimal_string(bytes.len() as u64);
                let a = crate::text::join2(label, " length ");
                let b = crate::text::join2(a.as_str(), n.as_str());
                return Err(AetherError::Other(crate::text::join2(b.as_str(), " (want 32)")));
            }
            let mut k = [0u8; 32];
            let mut i: usize = 0;
            while i < 32
                invariant
                    bytes@.len() == 32,
                    i <= 32,
                    k@.len() == 32,
                    forall|j: int| 0 <= j < i ==> k@[j] == bytes@[j],
                decreases 32 - i,
            {
                k.set(i, bytes[i]);
                i += 1;
            }
            assert(k@ =~= bytes@);
            Ok(k)
        },
    }
}

/// The standard library's message for an address that does not parse.
pub const IPV4_SYNTAX: &'static str = "invalid IPv4 address syntax";
pub const IPV6_SYNTAX: &'static str = "invalid IPv6 address syntax";
pub const SOCKET_SYNTAX: &'static str = "invalid socket address syntax";

/// The client id: three bytes from base64, all zero when absent.
pub open spec fn spec_client_id(v: Seq<char>) -> core::result::Result<Seq<u8>, Seq<char>> {
    if v.len() == 0 {
        Ok(seq![0u8, 0u8, 0u8])
    } else {
        match base64_decoded(v) {
            Err(e) => Err("decode client id: "@ + e),
            Ok(b) => if b.len() != 3 {
                Err("client id length "@ + crate::text::decimal(b.len()) + " (want 3)"@)
            } else {
                Ok(b)
            },
        }
    }
}

/// The MASQUE endpoint: none when absent or blank, else its trimmed text
/// read as a socket address and written back the standard way.
pub open spec fn spec_masque_endpoint(v: Option<Seq<char>>) -> core::result::Result<Option<Seq<char>>, Seq<char>> {
    match v {
        None => Ok(None),
        Some(raw) => {
            let t = trim(raw);
            if t.len() == 0 {
                Ok(None)
            } else {
                match crate::ip::spec_socket_display(t) {
                    Some(d) => Ok(Some(d)),
                    None => Err("invalid masque endpoint "@ + crate::text::debug_quoted(t) + ": "@ + SOCKET_SYNTAX@),
                }
            }
        },
    }
}

/// The first reason a stored identity is refused, in the order it is
/// checked: the two keys, the client id, the two addresses, the endpoint.
pub open spec fn identity_error(p: PersistedIdentity) -> Option<Seq<char>> {
    if spec_decode_key(p.wg_private_key@, "wg private key"@) is Err {
        Some(spec_decode_key(p.wg_private_key@, "wg private key"@)->Err_0)
    } else if spec_decode_key(p.wg_peer_public_key@, "wg peer public key"@) is Err {
        Some(spec_decode_key(p.wg_peer_public_key@, "wg peer public key"@)->Err_0)
    } else if spec_client_id(p.client_id@) is Err {
        Some(spec_client_id(p.client_id@)->Err_0)
    } else if crate::ip::spec_parse_ipv4(trim(p.ipv4@)) is None {
        Some("invalid ipv4 address "@ + crate::text::debug_quoted(p.ipv4@) + ": "@ + IPV4_SYNTAX@)
    } else if crate::ip::spec_parse_ipv6(trim(p.ipv6@)) is None {
        Some("invalid ipv6 address "@ + crate::text::debug_quoted(p.ipv6@) + ": "@ + IPV6_SYNTAX@)
    } else if spec_masque_endpoint(opt_string_view(p.masque_endpoint)) is Err {
        Some(spec_masque_endpoint(opt_string_view(p.masque_endpoint))->Err_0)
    } else {
        None
    }
}

/// The identity a valid stored one stands for: the keys and client id
/// decoded, the certificate and key as their UTF-8 bytes, the addresses and
/// endpoint rewritten in the standard text form.
pub open spec fn identity_matches(p: PersistedIdentity, id: Identity) -> bool {
    &&& id.device_id@ == p.device_id@
    &&& id.access_token@ == p.access_token@
    &&& id.cert_pem@ == vstd::utf8::encode_utf8(p.cert_pem@)
    &&& id.key_pem@ == vstd::utf8::encode_utf8(p.key_pem@)
    &&& id.ipv4@ == crate::ip::dotted(crate::ip::spec_parse_ipv4(trim(p.ipv4@))->0)
    &&& id.ipv6@ == crate::ip::ipv6_text(crate::ip::spec_parse_ipv6(trim(p.ipv6@))->0)
    &&& spec_decode_key(p.wg_private_key@, "wg private key"@) == Ok::<Seq<u8>, Seq<char>>(id.wg_private_key@)
    &&& spec_decode_key(p.wg_peer_public_key@, "wg peer public key"@) == Ok::<Seq<u8>, Seq<char>>(id.wg_peer_public_key@)
    &&& spec_client_id(p.client_id@) == Ok::<Seq<u8>, Seq<char>>(id.client_id@)
    &&& spec_masque_endpoint(opt_string_view(p.masque_endpoint)) == Ok::<Option<Seq<char>>, Seq<char>>(opt_string_view(id.masque_endpoint))
}

fn ipv4_text(o: [u8; 4]) -> (r: String)
    ensures
        r@ == crate::ip::dotted(o@),
{
    let a = crate::text::decimal_string(o[0] as u64);
    let b = crate::text::decimal_string(o[1] as u64);
    let c = crate::text::decimal_string(o[2] as u64);
    let d = crate::text::decimal_string(o[3] as u64);
    let s1 = crate::text::join2(a.as_str(), ".");
    let s2 = crate::text::join2(s1.as_str(), b.as_str());
    let s3 = crate::text::join2(s2.as_str(), ".");
    let s4 = crate::text::join2(s3.as_str(), c.as_str());
    let s5 = crate::text::join2(s4.as_str(), ".");
    let r = crate::text::join2(s5.as_str(), d.as_str());
    proof {
        reveal_strlit(".");
        assert(r@ =~= crate::ip::dotted(o@));
    }
    r
}

fn other(m: String) -> (e: AetherError)
    ensures
        e == AetherError::Other(m),
{
    AetherError::Other(m)
}

impl Identity {
    /// The identity a stored one stands for, or the first reason it is
    /// refused (see `identity_error`).
    pub fn from_persisted(p: PersistedIdentity) -> (r: Result<Identity>)
        ensures
            match identity_error(p) {
                Some(m) => r matches Err(AetherError::Other(e)) && e@ == m,
                None => r matches Ok(id) && identity_matches(p, id),
            },
    {
        let wg_private_key = match decode_key(p.wg_private_key.as_str(), "wg private key") {
            Ok(k) => k,
            Err(e) => return Err(e),
        };
        let wg_peer_public_key = match decode_key(p.wg_peer_public_key.as_str(), "wg peer public key") {
            Ok(k) => k,
            Err(e) => return Err(e),
        };
        let mut client_id: [u8; 3] = [0u8; 3];
        if p.client_id.unicode_len() != 0 {
            match base64_decode(p.client_id.as_str()) {
                Err(e) => return Err(other(crate::text::join2("decode client id: ", e.as_str()))),
                Ok(b) => {
                    if b.len() != 3 {
                        let n = crate::text::decimal_string(b.len() as u64);
                        let a = crate::text::join2("client id length ", n.as_str());
                        return Err(other(crate::text::join2(a.as_str(), " (want 3)")));
                    }
                    client_id = [b[0], b[1], b[2]];
                    assert(client_id@ =~= b@);
                },
            }
        } else {
            assert(client_id@ =~= seq![0u8, 0u8, 0u8]);
        }
        let t4 = crate::text::string_of(&crate::text::trimmed(p.ipv4.as_str()));
        let o = match crate::ip::parse_ipv4(t4.as_str()) {
            Some(o) => o,
            None => {
                let q = crate::text::debug_str(p.ipv4.as_str());
                let a = crate::text::join2("invalid ipv4 address ", q.as_str());
                let b = crate::text::join2(a.as_str(), ": ");
                return Err(other(crate::text::join2(b.as_str(), IPV4_SYNTAX)));
            },
        };
        let t6 = crate::text::string_of(&crate::text::trimmed(p.ipv6.as_str()));
        let w = match crate::ip::parse_ipv6(t6.as_str()) {
            Some(w) => w,
            None => {
                let q = crate::text::debug_str(p.ipv6.as_str());
                let a = crate::text::join2("invalid ipv6 address ", q.as_str());
                let b = crate::text::join2(a.as_str(), ": ");
                return Err(other(crate::text::join2(b.as_str(), IPV6_SYNTAX)));
            },
        };
        let masque_endpoint: Option<String> = match &p.masque_endpoint {
            None => None,
            Some(raw) => {
                let t = crate::text::string_of(&crate::text::trimmed(raw.as_str()));
                if t.unicode_len() == 0 {
                    None
                } else {
                    match crate::ip::socket_display(t.as_str()) {
                        Some(d) => Some(d),
                        None => {
                            let q = crate::text::debug_str(t.as_str());
                            let a = crate::text::join2("invalid masque endpoint ", q.as_str());
                            let b = crate::text::join2(a.as_str(), ": ");
                            return Err(other(crate::text::join2(b.as_str(), SOCKET_SYNTAX)));
                        },
                    }
                }
            },
        };
        let cert_pem = p.cert_pem.as_str().as_bytes_vec();
        let key_pem = p.key_pem.as_str().as_bytes_vec();
        Ok(Identity {
            device_id: p.device_id,
            access_token: p.access_token,
            cert_pem,
            key_pem,
            ipv4: ipv4_text(o),
            ipv6: crate::ip::ipv6_string(w),
            wg_private_key,
            wg_peer_public_key,
            client_id,
            masque_endpoint,
        })
    }
}

/// The AmneziaWG client file for an identity: its interface (key, the two
/// addresses, DNS and the junk-packet settings) and the one peer.
pub open spec fn amnezia_config(id: Identity, peer_endpoint: Seq<char>, dns: Seq<char>) -> Seq<char> {
    "[Interface]\nPrivateKey = "@ + base64_encoded(id.wg_private_key@)
        + "\nAddress = "@ + id.ipv4@ + "/32, "@ + id.ipv6@
        + "/128\nDNS = "@ + dns
        + "\nJc = 5\nJmin = 50\nJmax = 128\n\n[Peer]\nPublicKey = "@ + base64_encoded(id.wg_peer_public_key@)
        + "\nEndpoint = "@ + peer_endpoint
        + "\nAllowedIPs = 0.0.0.0/0, ::/0\n"@
}

/// The DNS server the client file names when none is given.
pub const DEFAULT_WG_DNS: &'static str = "1.1.1.1";

/// Format WireGuard client configuration with AmneziaWG obfuscation parameters.
pub fn format_amnezia_wg_config(identity: &Identity, peer_endpoint: &str, dns: Option<&str>) -> (s: String)
    ensures
        s@ == amnezia_config(*identity, peer_endpoint@, match dns {
            Some(d) => d@,
            None => DEFAULT_WG_DNS@,
        }),
{
    let priv_key = base64_encode(&identity.wg_private_key);
    let peer_key = base64_encode(&identity.wg_peer_public_key);
    let dns_line: &str = match dns {
        Some(d) => d,
        None => DEFAULT_WG_DNS,
    };
    let mut s = "[Interface]\nPrivateKey = ".to_string();
    s.append(priv_key.as_str());
    s.append("\nAddress = ");
    s.append(identity.ipv4.as_str());
    s.append("/32, ");
    s.append(identity.ipv6.as_str());
    s.append("/128\nDNS = ");
    s.append(dns_line);
    s.append("\nJc = 5\nJmin = 50\nJmax = 128\n\n[Peer]\nPublicKey = ");
    s.append(peer_key.as_str());
    s.append("\nEndpoint = ");
    s.append(peer_endpoint);
    s.append("\nAllowedIPs = 0.0.0.0/0, ::/0\n");
    s
}

impl PersistedIdentity {
    /// The stored form of an identity: keys and client id in base64, the
    /// certificate and key as text (invalid UTF-8 replaced), the rest as is.
    pub fn from_identity(id: &Identity) -> (p: PersistedIdentity)
        ensures
            p.device_id@ == id.device_id@,
            p.access_token@ == id.access_token@,
            p.cert_pem@ == crate::dns::utf8_lossy(id.cert_pem@),
            p.key_pem@ == crate::dns::utf8_lossy(id.key_pem@),
            p.ipv4@ == id.ipv4@,
            p.ipv6@ == id.ipv6@,
            p.wg_private_key@ == base64_encoded(id.wg_private_key@),
            p.wg_peer_public_key@ == base64_encoded(id.wg_peer_public_key@),
            p.client_id@ == base64_encoded(id.client_id@),
            opt_string_view(p.masque_endpoint) == opt_string_view(id.masque_endpoint),
            spec_decode_key(p.wg_private_key@, "wg private key"@) == decoded_ok(id.wg_private_key@),
            spec_decode_key(p.wg_peer_public_key@, "wg peer public key"@) == decoded_ok(id.wg_peer_public_key@),
            base64_decoded(p.client_id@) == decoded_ok(id.client_id@),
            p.client_id@.len() == 4,
            vstd::utf8::valid_utf8(id.cert_pem@) ==> p.cert_pem@ == vstd::utf8::decode_utf8(id.cert_pem@),
            vstd::utf8::valid_utf8(id.key_pem@) ==> p.key_pem@ == vstd::utf8::decode_utf8(id.key_pem@),
            crate::roundtrip::saved_as(p, *id),
    {
        PersistedIdentity {
            device_id: id.device_id.clone(),
            access_token: id.access_token.clone(),
            cert_pem: crate::dns::lossy_string(&id.cert_pem),
            key_pem: crate::dns::lossy_string(&id.key_pem),
            ipv4: id.ipv4.clone(),
            ipv6: id.ipv6.clone(),
            wg_private_key: base64_encode(&id.wg_private_key),
            wg_peer_public_key: base64_encode(&id.wg_peer_public_key),
            client_id: base64_encode(&id.client_id),
            masque_endpoint: match &id.masque_endpoint {
                Some(m) => Some(m.clone()),
                None => None,
            },
        }
    }
}

} // verus!
