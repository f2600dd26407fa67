//! The versioned vault envelope: XChaCha20-Poly1305 payloads, a vault key wrapped under an
//! Argon2id key derived from the master password, and the Base64 text form of a payload.
//!
//! The ciphers, the key derivation, Base64 and the random source are the outside crates'
//! own; the framing, the checks and the order of the steps are stated and proved here.

use base64::{DecodeError, Engine};
use chacha20poly1305::{AeadInPlace, KeyInit};
use vstd::prelude::*;
use vstd::slice::slice_subrange;
use vstd::string::*;
use vstd::utf8::encode_utf8;

use crate::bytes::{append_bytes, array16, array24, array32, copy_range};
use crate::text::{decimal, owned, push_decimal};

verus! {

pub const ENVELOPE_VERSION: u8 = 1;

pub const KEY_BYTES: usize = 32;

pub const SALT_BYTES: usize = 16;

pub const NONCE_BYTES: usize = 24;

pub const TAG_BYTES: usize = 16;

pub const ARGON2_MEMORY_KIB: u32 = 65536;

pub const ARGON2_ITERATIONS: u32 = 3;

pub const ARGON2_PARALLELISM: u32 = 1;

#[verifier::external_type_specification]
#[verifier::external_body]
pub struct ExRandomError(getrandom::Error);

#[verifier::external_type_specification]
#[verifier::external_body]
pub struct ExBase64DecodeError(DecodeError);

/// `len` bytes from the operating system's random source.
///
/// Calls `getrandom::fill`. The bytes are random; the contract states only their number.
#[verifier::external_body]
pub(crate) fn random_bytes(len: usize) -> (r: Result<Vec<u8>, getrandom::Error>)
    ensures
        r matches Ok(v) ==> v@.len() == len,
{
    let mut buffer = vec![0u8; len];
    getrandom::fill(&mut buffer)?;
    Ok(buffer)
}

/// The Argon2id (version 0x13) output of 32 bytes for a password, salt and cost parameters.
pub uninterp spec fn argon2id_v13(
    password: Seq<u8>,
    salt: Seq<u8>,
    m_cost: u32,
    t_cost: u32,
    p_cost: u32,
) -> Seq<u8>;

/// Calls `argon2::Params::new`, `argon2::Argon2::new` (Argon2id, version 0x13) and
/// `Argon2::hash_password_into` with a 32-byte output. With the parameters that `requires`
/// admits, the crate's source refuses only a password longer than `0xFFFFFFFF` bytes; the
/// text of that refusal is not stated.
#[verifier::external_body]
fn argon2id_hash(
    password: &[u8],
    salt: &[u8; 16],
    m_cost: u32,
    t_cost: u32,
    p_cost: u32,
) -> (r: Result<[u8; 32], String>)
    requires
        1 <= p_cost <= 0xFFFFFF,
        m_cost >= 8 * p_cost,
        t_cost >= 1,
    ensures
        r is Ok <==> password@.len() <= 0xFFFF_FFFF,
        r matches Ok(out) ==> out@ == argon2id_v13(password@, salt@, m_cost, t_cost, p_cost),
{
    let params = argon2::Params::new(m_cost, t_cost, p_cost, Some(32)).map_err(|e| e.to_string())?;
    let hasher = argon2::Argon2::new(argon2::Algorithm::Argon2id, argon2::Version::V0x13, params);
    let mut output = [0u8; 32];
    hasher.hash_password_into(password, salt, &mut output).map_err(|e| e.to_string())?;
    Ok(output)
}

/// XChaCha20-Poly1305 encryption: the ciphertext (as long as the plaintext) and the 16-byte
/// tag.
pub uninterp spec fn xchacha20poly1305_seal(
    key: Seq<u8>,
    nonce: Seq<u8>,
    aad: Seq<u8>,
    plaintext: Seq<u8>,
) -> (Seq<u8>, Seq<u8>);

/// XChaCha20-Poly1305 decryption of a ciphertext and tag: the plaintext, or `None` when the tag
/// does not authenticate the ciphertext and associated data.
pub uninterp spec fn xchacha20poly1305_open(
    key: Seq<u8>,
    nonce: Seq<u8>,
    aad: Seq<u8>,
    ciphertext: Seq<u8>,
    tag: Seq<u8>,
) -> Option<Seq<u8>>;

/// Calls `XChaCha20Poly1305::new` and `AeadInPlace::encrypt_in_place_detached`. The crate's
/// source refuses a buffer of `u32::MAX` blocks of 64 bytes or more and otherwise returns the
/// keystream-encrypted buffer (of the plaintext's length) and the tag.
#[verifier::external_body]
fn xchacha_seal(key: &[u8; 32], nonce: &[u8; 24], aad: &[u8], plaintext: &[u8]) -> (r: Option<
    (Vec<u8>, [u8; 16]),
>)
    ensures
        r is Some <==> plaintext@.len() / 64 < u32::MAX,
        r matches Some((c, t)) ==> (c@, t@) == xchacha20poly1305_seal(
            key@,
            nonce@,
            aad@,
            plaintext@,
        ) && c@.len() == plaintext@.len(),
{
    let cipher = chacha20poly1305::XChaCha20Poly1305::new(key.into());
    let mut buffer = plaintext.to_vec();
    let tag = cipher.encrypt_in_place_detached(nonce.into(), aad, &mut buffer).ok()?;
    Some((buffer, tag.into()))
}

/// Calls `XChaCha20Poly1305::new` and `AeadInPlace::decrypt_in_place_detached`. Decryption is
/// the inverse of encryption under the same key, nonce and associated data: a ciphertext and
/// tag that `xchacha_seal` produced for a plaintext open to that plaintext.
#[verifier::external_body]
fn xchacha_open(key: &[u8; 32], nonce: &[u8; 24], aad: &[u8], ciphertext: &[u8], tag: &[u8; 16]) -> (r: Option<Vec<u8>>)
    ensures
        r is Some <==> xchacha20poly1305_open(key@, nonce@, aad@, ciphertext@, tag@) is Some,
        r matches Some(v) ==> xchacha20poly1305_open(key@, nonce@, aad@, ciphertext@, tag@) == Some(v@),
        forall|p: Seq<u8>| #[trigger] xchacha20poly1305_seal(key@, nonce@, aad@, p) == (ciphertext@, tag@)
            && p.len() / 64 < u32::MAX ==> r is Some && r.unwrap()@ == p,
{
    let cipher = chacha20poly1305::XChaCha20Poly1305::new(key.into());
    let mut buffer = ciphertext.to_vec();
    cipher.decrypt_in_place_detached(nonce.into(), aad, &mut buffer, tag.into()).ok()?;
    Some(buffer)
}

/// The text of the standard Base64 encoding (with padding) of some bytes.
pub uninterp spec fn base64_standard_encode(bytes: Seq<u8>) -> Seq<char>;

/// The bytes that standard Base64 decoding reads from a text, or `None` when it refuses it.
pub uninterp spec fn base64_standard_decode(text: Seq<char>) -> Option<Seq<u8>>;

/// Calls `base64::engine::general_purpose::STANDARD.encode`, which panics when the output
/// length overflows `usize`.
#[verifier::external_body]
fn base64_encode(bytes: &[u8]) -> (r: String)
    requires
        bytes@.len() <= usize::MAX / 4 * 3,
    ensures
        r@ == base64_standard_encode(bytes@),
{
    base64::engine::general_purpose::STANDARD.encode(bytes)
}

/// Calls `base64::engine::general_purpose::STANDARD.decode`. Decoding gives back the bytes of
/// any text that encoding produced. Which `DecodeError` comes back for a refused text is not
/// stated.
#[verifier::external_body]
fn base64_decode(text: &str) -> (r: Result<Vec<u8>, DecodeError>)
    ensures
        r is Ok <==> base64_standard_decode(text@) is Some,
        r matches Ok(v) ==> base64_standard_decode(text@) == Some(v@),
        forall|b: Seq<u8>| #[trigger] base64_standard_encode(b) == text@ ==> r is Ok && r.unwrap()@ == b,
{
    base64::engine::general_purpose::STANDARD.decode(text)
}

#[derive(Debug)]
pub enum CryptoError {
    EmptyMasterPassword,
    UnsupportedVersion(u8),
    InvalidVaultKey,
    InvalidKey,
    MalformedEnvelope,
    EncryptionFailed,
    AuthenticationFailed,
    Kdf(String),
    Randomness(getrandom::Error),
    KeyStorage(String),
    Base64(DecodeError),
}

/// Calls `Display` of `getrandom::Error` (through `to_string`). Nothing is stated of the text.
#[verifier::external_body]
fn random_error_text(e: &getrandom::Error) -> (r: String) {
    e.to_string()
}

/// Calls `Display` of `base64::DecodeError` (through `to_string`). Nothing is stated of the
/// text.
#[verifier::external_body]
fn decode_error_text(e: &DecodeError) -> (r: String) {
    e.to_string()
}

/// The user-facing message of an error whose text is the library's own; `None` for the
/// errors of an outside crate, whose message ends with that crate's text.
pub open spec fn crypto_error_text(e: CryptoError) -> Option<Seq<char>> {
    match e {
        CryptoError::EmptyMasterPassword => Some("master password cannot be empty"@),
        CryptoError::UnsupportedVersion(v) => Some(
            "unsupported encryption envelope version "@ + decimal(v as nat),
        ),
        CryptoError::InvalidVaultKey => Some("invalid vault key"@),
        CryptoError::InvalidKey => Some("invalid encryption key"@),
        CryptoError::MalformedEnvelope => Some("malformed encrypted envelope"@),
        CryptoError::EncryptionFailed => Some("encryption failed"@),
        CryptoError::AuthenticationFailed => Some("ciphertext authentication failed"@),
        CryptoError::Kdf(m) => Some("key derivation failed: "@ + m@),
        CryptoError::KeyStorage(m) => Some("platform key storage failed: "@ + m@),
        CryptoError::Randomness(_) => None,
        CryptoError::Base64(_) => None,
    }
}

impl CryptoError {
    /// The user-facing message of the error.
    pub fn message(&self) -> (r: String)
        ensures
            crypto_error_text(*self) matches Some(t) ==> r@ == t,
            *self is Randomness ==> r@.len() >= "randomness source failed: "@.len() && r@.subrange(
                0,
                "randomness source failed: "@.len() as int,
            ) == "randomness source failed: "@,
            *self is Base64 ==> r@.len() >= "base64 decoding failed: "@.len() && r@.subrange(
                0,
                "base64 decoding failed: "@.len() as int,
            ) == "base64 decoding failed: "@,
    {
        let (prefix, detail) = match self {
            CryptoError::EmptyMasterPassword => ("master password cannot be empty", None),
            CryptoError::UnsupportedVersion(v) => {
                let mut out = String::from_str("unsupported encryption envelope version ");
                push_decimal(&mut out, *v as u64);
                return out;
            },
            CryptoError::InvalidVaultKey => ("invalid vault key", None),
            CryptoError::InvalidKey => ("invalid encryption key", None),
            CryptoError::MalformedEnvelope => ("malformed encrypted envelope", None),
            CryptoError::EncryptionFailed => ("encryption failed", None),
            CryptoError::AuthenticationFailed => ("ciphertext authentication failed", None),
            CryptoError::Kdf(m) => ("key derivation failed: ", Some(owned(m.as_str()))),
            CryptoError::KeyStorage(m) => ("platform key storage failed: ", Some(owned(m.as_str()))),
            CryptoError::Randomness(e) => ("randomness source failed: ", Some(random_error_text(e))),
            CryptoError::Base64(e) => ("base64 decoding failed: ", Some(decode_error_text(e))),
        };
        let mut out = String::from_str(prefix);
        let ghost start = out@;
        if let Some(m) = detail {
            out.append(m.as_str());
        }
        proof {
            assert(out@.subrange(0, start.len() as int) =~= start);
        }
        out
    }
}

/// The master password that unlocks the vault key.
#[derive(Clone)]
pub struct MasterPassword(String);

impl View for MasterPassword {
    type V = Seq<char>;

    closed spec fn view(&self) -> Seq<char> {
        self.0@
    }
}

impl MasterPassword {
    pub fn new(value: String) -> (r: Self)
        ensures
            r@ == value@,
    {
        MasterPassword(value)
    }

    pub fn expose(&self) -> (r: &str)
        ensures
            r@ == self@,
    {
        self.0.as_str()
    }

    pub fn is_empty(&self) -> (r: bool)
        ensures
            r == (self@.len() == 0),
    {
        self.0.as_str().unicode_len() == 0
    }
}

impl From<String> for MasterPassword {
    fn from(value: String) -> (r: Self)
        ensures
            r@ == value@,
    {
        MasterPassword(value)
    }
}

impl vstd::std_specs::convert::FromSpecImpl<String> for MasterPassword {
    open spec fn obeys_from_spec() -> bool {
        true
    }

    closed spec fn from_spec(v: String) -> MasterPassword {
        MasterPassword(v)
    }
}

/// The symmetric key that encrypts profile data.
pub struct VaultKey([u8; 32]);

impl Clone for VaultKey {
    fn clone(&self) -> (r: Self)
        ensures
            r@ == self@,
    {
        VaultKey(self.0)
    }
}

impl View for VaultKey {
    type V = Seq<u8>;

    closed spec fn view(&self) -> Seq<u8> {
        self.0@
    }
}

impl VaultKey {
    /// A fresh random key.
    pub fn generate() -> (r: Result<Self, CryptoError>)
        ensures
            r matches Ok(k) ==> k@.len() == KEY_BYTES,
            r matches Err(e) ==> e is Randomness,
    {
        match random_bytes(KEY_BYTES) {
            Ok(bytes) => Ok(VaultKey(array32(bytes.as_slice()))),
            Err(e) => Err(CryptoError::Randomness(e)),
        }
    }

    pub fn from_bytes(bytes: [u8; 32]) -> (r: Self)
        ensures
            r@ == bytes@,
    {
        VaultKey(bytes)
    }

    pub fn as_bytes(&self) -> (r: &[u8; 32])
        ensures
            r@ == self@,
    {
        &self.0
    }
}

/// An encrypted payload: the envelope version, the nonce, and the ciphertext followed by the
/// authentication tag.
#[derive(Clone, Debug)]
pub struct EncryptedPayload {
    pub version: u8,
    pub nonce: [u8; 24],
    pub ciphertext: Vec<u8>,
}

/// The ciphertext-and-tag bytes of `plaintext` under `key`, `nonce` and `aad`.
pub open spec fn sealed_bytes(key: Seq<u8>, nonce: Seq<u8>, aad: Seq<u8>, plaintext: Seq<u8>) -> Seq<
    u8,
> {
    xchacha20poly1305_seal(key, nonce, aad, plaintext).0 + xchacha20poly1305_seal(
        key,
        nonce,
        aad,
        plaintext,
    ).1
}

/// Whether `p` is the encryption of `plaintext` under `key` and `aad`, in the current envelope
/// version.
pub open spec fn seals(p: EncryptedPayload, key: Seq<u8>, aad: Seq<u8>, plaintext: Seq<u8>) -> bool {
    &&& p.version == ENVELOPE_VERSION
    &&& plaintext.len() / 64 < u32::MAX
    &&& xchacha20poly1305_seal(key, p.nonce@, aad, plaintext).1.len() == TAG_BYTES
    &&& p.ciphertext@ == sealed_bytes(key, p.nonce@, aad, plaintext)
}

/// Encrypts `plaintext` with the given nonce.
pub fn encrypt_with_nonce(key: &VaultKey, associated_data: &[u8], plaintext: &[u8], nonce: [u8; 24]) -> (r:
    Result<EncryptedPayload, CryptoError>)
    ensures
        plaintext@.len() / 64 < u32::MAX <==> r is Ok,
        r matches Ok(p) ==> p.nonce@ == nonce@ && seals(p, key@, associated_data@, plaintext@),
        r matches Err(e) ==> e is EncryptionFailed,
{
    match xchacha_seal(&key.0, &nonce, associated_data, plaintext) {
        Some((body, tag)) => {
            let mut ciphertext = body;
            append_bytes(&mut ciphertext, tag.as_slice());
            Ok(EncryptedPayload { version: ENVELOPE_VERSION, nonce, ciphertext })
        },
        None => Err(CryptoError::EncryptionFailed),
    }
}

/// Encrypts `plaintext` under a fresh random nonce.
pub fn encrypt(key: &VaultKey, associated_data: &[u8], plaintext: &[u8]) -> (r: Result<
    EncryptedPayload,
    CryptoError,
>)
    ensures
        r matches Ok(p) ==> seals(p, key@, associated_data@, plaintext@),
        r matches Err(e) ==> e is Randomness || (e is EncryptionFailed && plaintext@.len() / 64
            >= u32::MAX),
{
    let nonce = match random_bytes(NONCE_BYTES) {
        Ok(bytes) => array24(bytes.as_slice()),
        Err(e) => {
            return Err(CryptoError::Randomness(e));
        },
    };
    encrypt_with_nonce(key, associated_data, plaintext, nonce)
}

/// What `decrypt` gives back for a payload of the given version, nonce and ciphertext.
pub open spec fn decrypt_outcome(
    key: Seq<u8>,
    aad: Seq<u8>,
    version: u8,
    nonce: Seq<u8>,
    ciphertext: Seq<u8>,
) -> Option<Seq<u8>> {
    if version != ENVELOPE_VERSION || ciphertext.len() < TAG_BYTES {
        None
    } else {
        xchacha20poly1305_open(
            key,
            nonce,
            aad,
            ciphertext.subrange(0, ciphertext.len() - 16),
            ciphertext.subrange(ciphertext.len() - 16, ciphertext.len() as int),
        )
    }
}

pub proof fn lemma_sealed_split(key: Seq<u8>, nonce: Seq<u8>, aad: Seq<u8>, plaintext: Seq<u8>, c: Seq<u8>)
    requires
        c == sealed_bytes(key, nonce, aad, plaintext),
        xchacha20poly1305_seal(key, nonce, aad, plaintext).1.len() == 16,
    ensures
        c.len() >= 16,
        c.subrange(0, c.len() - 16) == xchacha20poly1305_seal(key, nonce, aad, plaintext).0,
        c.subrange(c.len() - 16, c.len() as int) == xchacha20poly1305_seal(key, nonce, aad, plaintext).1,
{
    let s = xchacha20poly1305_seal(key, nonce, aad, plaintext);
    assert(c.subrange(0, c.len() - 16) =~= s.0);
    assert(c.subrange(c.len() - 16, c.len() as int) =~= s.1);
}

/// Decrypts and authenticates a payload. A payload that `encrypt` made from a plaintext under
/// the same key and associated data decrypts to that plaintext.
pub fn decrypt(key: &VaultKey, associated_data: &[u8], payload: &EncryptedPayload) -> (r: Result<
    Vec<u8>,
    CryptoError,
>)
    ensures
        payload.version != ENVELOPE_VERSION ==> (r matches Err(e) && e == CryptoError::UnsupportedVersion(
            payload.version,
        )),
        payload.version == ENVELOPE_VERSION && payload.ciphertext@.len() < TAG_BYTES ==> (r matches Err(
            e,
        ) && e is MalformedEnvelope),
        match decrypt_outcome(
            key@,
            associated_data@,
            payload.version,
            payload.nonce@,
            payload.ciphertext@,
        ) {
            Some(p) => r matches Ok(v) && v@ == p,
            None => r is Err,
        },
        payload.version == ENVELOPE_VERSION && payload.ciphertext@.len() >= TAG_BYTES && r is Err
            ==> (r matches Err(e) && e is AuthenticationFailed),
        forall|p: Seq<u8>| #[trigger]
            seals(*payload, key@, associated_data@, p) ==> (r matches Ok(v) && v@ == p),
{
    if payload.version != ENVELOPE_VERSION {
        return Err(CryptoError::UnsupportedVersion(payload.version));
    }
    let n = payload.ciphertext.len();
    if n < TAG_BYTES {
        proof {
            assert forall|p: Seq<u8>| !#[trigger] seals(*payload, key@, associated_data@, p) by {
                if seals(*payload, key@, associated_data@, p) {
                    lemma_sealed_split(key@, payload.nonce@, associated_data@, p, payload.ciphertext@);
                }
            }
        }
        return Err(CryptoError::MalformedEnvelope);
    }
    let split_at = n - TAG_BYTES;
    let all = payload.ciphertext.as_slice();
    let body = slice_subrange(all, 0, split_at);
    let tag = array16(slice_subrange(all, split_at, n));
    let opened = xchacha_open(&key.0, &payload.nonce, associated_data, body, &tag);
    proof {
        assert forall|p: Seq<u8>| #[trigger] seals(*payload, key@, associated_data@, p) implies (
        opened matches Some(v) && v@ == p) by {
            lemma_sealed_split(key@, payload.nonce@, associated_data@, p, payload.ciphertext@);
            assert(body@ == payload.ciphertext@.subrange(0, split_at as int));
            assert(tag@ == payload.ciphertext@.subrange(split_at as int, n as int));
        }
    }
    match opened {
        Some(plaintext) => Ok(plaintext),
        None => Err(CryptoError::AuthenticationFailed),
    }
}

/// The Base64 input of `encoded`: the version byte, the nonce, then the ciphertext.
pub open spec fn payload_frame(p: EncryptedPayload) -> Seq<u8> {
    seq![p.version] + p.nonce@ + p.ciphertext@
}

impl EncryptedPayload {
    /// The payload as one Base64 text.
    pub fn encoded(&self) -> (r: String)
        requires
            self.ciphertext@.len() <= usize::MAX / 4 * 3 - 25,
        ensures
            r@ == base64_standard_encode(payload_frame(*self)),
    {
        let mut bytes: Vec<u8> = Vec::new();
        bytes.push(self.version);
        append_bytes(&mut bytes, self.nonce.as_slice());
        append_bytes(&mut bytes, self.ciphertext.as_slice());
        proof {
            assert(bytes@ == payload_frame(*self));
        }
        base64_encode(bytes.as_slice())
    }

    /// Reads a payload from its Base64 text. The text of a payload decodes back to that
    /// payload.
    pub fn decode_encoded(value: &str) -> (r: Result<Self, CryptoError>)
        ensures
            match base64_standard_decode(value@) {
                None => r matches Err(e) && e is Base64,
                Some(b) => if b.len() < 1 + NONCE_BYTES {
                    r matches Err(e) && e is MalformedEnvelope
                } else {
                    r matches Ok(p) && payload_frame(p) == b
                },
            },
            forall|p: EncryptedPayload| #[trigger]
                base64_standard_encode(payload_frame(p)) == value@ ==> (r matches Ok(q) && q.version
                    == p.version && q.nonce@ == p.nonce@ && q.ciphertext@ == p.ciphertext@),
    {
        let bytes = match base64_decode(value) {
            Ok(b) => b,
            Err(e) => {
                return Err(CryptoError::Base64(e));
            },
        };
        let n = bytes.len();
        if n < 1 + NONCE_BYTES {
            return Err(CryptoError::MalformedEnvelope);
        }
        let all = bytes.as_slice();
        let version = bytes[0];
        let nonce = array24(slice_subrange(all, 1, 1 + NONCE_BYTES));
        let ciphertext = copy_range(all, 1 + NONCE_BYTES, n);
        let r = EncryptedPayload { version, nonce, ciphertext };
        proof {
            assert(payload_frame(r) =~= bytes@);
            assert forall|p: EncryptedPayload| #[trigger]
                base64_standard_encode(payload_frame(p)) == value@ implies r.version == p.version
                && r.nonce@ == p.nonce@ && r.ciphertext@ == p.ciphertext@ by {
                let f = payload_frame(p);
                assert(f == bytes@);
                assert(p.nonce@.len() == 24);
                assert(f[0] == p.version);
                assert(f.subrange(1, 25) =~= p.nonce@);
                assert(f.subrange(25, f.len() as int) =~= p.ciphertext@);
                assert(r.nonce@ =~= f.subrange(1, 25));
                assert(r.ciphertext@ =~= f.subrange(25, f.len() as int));
            }
        }
        Ok(r)
    }
}

/// The associated data under which the vault key is wrapped.
pub open spec fn vault_key_aad() -> Seq<u8> {
    encode_utf8("remoteapp/vault-key/v1"@)
}

/// The key that Argon2id derives from the master password and salt, or `None` when the
/// password is too long for Argon2.
pub open spec fn derived_key(password: Seq<char>, salt: Seq<u8>) -> Option<Seq<u8>> {
    if encode_utf8(password).len() <= 0xFFFF_FFFF {
        Some(
            argon2id_v13(
                encode_utf8(password),
                salt,
                ARGON2_MEMORY_KIB,
                ARGON2_ITERATIONS,
                ARGON2_PARALLELISM,
            ),
        )
    } else {
        None
    }
}

fn derive_key(master_password: &MasterPassword, salt: &[u8; 16]) -> (r: Result<VaultKey, CryptoError>)
    ensures
        match derived_key(master_password@, salt@) {
            Some(k) => r matches Ok(v) && v@ == k,
            None => r matches Err(e) && e is Kdf,
        },
{
    match argon2id_hash(
        master_password.expose().as_bytes(),
        salt,
        ARGON2_MEMORY_KIB,
        ARGON2_ITERATIONS,
        ARGON2_PARALLELISM,
    ) {
        Ok(output) => Ok(VaultKey(output)),
        Err(message) => Err(CryptoError::Kdf(message)),
    }
}

fn ensure_master_password(password: &MasterPassword) -> (r: Result<(), CryptoError>)
    ensures
        password@.len() == 0 <==> r is Err,
        r matches Err(e) ==> e is EmptyMasterPassword,
{
    if password.is_empty() {
        Err(CryptoError::EmptyMasterPassword)
    } else {
        Ok(())
    }
}

/// What the vault stores next to the encrypted data: the envelope version, the Argon2 salt and
/// the vault key wrapped under the key derived from the master password.
#[derive(Clone, Debug)]
pub struct VaultMetadata {
    pub version: u8,
    pub salt: [u8; 16],
    pub wrapped_key: EncryptedPayload,
}

/// The error of a payload that does not decrypt: an unknown version, a ciphertext shorter than
/// the tag, or a tag that does not authenticate it.
pub open spec fn decrypt_failure(version: u8, ciphertext_len: nat) -> CryptoError {
    if version != ENVELOPE_VERSION {
        CryptoError::UnsupportedVersion(version)
    } else if ciphertext_len < TAG_BYTES {
        CryptoError::MalformedEnvelope
    } else {
        CryptoError::AuthenticationFailed
    }
}

/// Whether `meta` wraps the vault key `key` under the master password `password`.
pub open spec fn wraps_key(meta: VaultMetadata, password: Seq<char>, key: Seq<u8>) -> bool {
    &&& meta.version == ENVELOPE_VERSION
    &&& derived_key(password, meta.salt@) matches Some(w) && seals(
        meta.wrapped_key,
        w,
        vault_key_aad(),
        key,
    )
}

impl VaultMetadata {
    /// A new vault: a random salt, vault key and nonce, the key wrapped under the master
    /// password (see `create_from`).
    pub fn create(master_password: &MasterPassword) -> (r: Result<(Self, VaultKey), CryptoError>)
        ensures
            (r matches Err(e) && e is EmptyMasterPassword) <==> master_password@.len() == 0,
            r matches Ok((meta, key)) ==> key@.len() == KEY_BYTES && wraps_key(
                meta,
                master_password@,
                key@,
            ),
            r matches Err(e) ==> e is EmptyMasterPassword || e is Randomness || (e is Kdf
                && derived_key(master_password@, seq![]) is None),
    {
        ensure_master_password(master_password)?;
        let salt = match random_bytes(SALT_BYTES) {
            Ok(bytes) => array16(bytes.as_slice()),
            Err(e) => {
                return Err(CryptoError::Randomness(e));
            },
        };
        let key = VaultKey::generate()?;
        let nonce = match random_bytes(NONCE_BYTES) {
            Ok(bytes) => array24(bytes.as_slice()),
            Err(e) => {
                return Err(CryptoError::Randomness(e));
            },
        };
        match VaultMetadata::create_from(master_password, salt, &key, nonce) {
            Ok(meta) => Ok((meta, key)),
            Err(e) => Err(e),
        }
    }

    /// The vault metadata for a master password, salt, vault key and nonce: the key sealed
    /// under the key that Argon2id derives from the password and salt.
    pub fn create_from(master_password: &MasterPassword, salt: [u8; 16], key: &VaultKey, nonce: [u8; 24]) -> (r: Result<Self, CryptoError>)
        ensures
            (r matches Err(e) && e is EmptyMasterPassword) <==> master_password@.len() == 0,
            master_password@.len() > 0 ==> match derived_key(master_password@, salt@) {
                None => r matches Err(e) && e is Kdf,
                Some(w) => r matches Ok(meta) && meta.version == ENVELOPE_VERSION && meta.salt@
                    == salt@ && meta.wrapped_key.nonce@ == nonce@ && seals(
                    meta.wrapped_key,
                    w,
                    vault_key_aad(),
                    key@,
                ) && wraps_key(meta, master_password@, key@),
            },
    {
        ensure_master_password(master_password)?;
        let wrapping_key = derive_key(master_password, &salt)?;
        let context = "remoteapp/vault-key/v1".as_bytes();
        let wrapped_key = match encrypt_with_nonce(
            &wrapping_key,
            context,
            key.as_bytes().as_slice(),
            nonce,
        ) {
            Ok(p) => p,
            Err(e) => {
                return Err(e);
            },
        };
        Ok(VaultMetadata { version: ENVELOPE_VERSION, salt, wrapped_key })
    }

    /// The vault key, unwrapped with the master password. Metadata that `create` made with a
    /// password unlocks with that password to the key it returned.
    pub fn unlock(&self, master_password: &MasterPassword) -> (r: Result<VaultKey, CryptoError>)
        ensures
            master_password@.len() == 0 ==> (r matches Err(e) && e is EmptyMasterPassword),
            master_password@.len() > 0 && self.version != ENVELOPE_VERSION ==> (r matches Err(e)
                && e == CryptoError::UnsupportedVersion(self.version)),
            master_password@.len() > 0 && self.version == ENVELOPE_VERSION ==> match derived_key(
                master_password@,
                self.salt@,
            ) {
                None => r matches Err(e) && e is Kdf,
                Some(w) => match decrypt_outcome(
                    w,
                    vault_key_aad(),
                    self.wrapped_key.version,
                    self.wrapped_key.nonce@,
                    self.wrapped_key.ciphertext@,
                ) {
                    Some(k) => if k.len() == KEY_BYTES {
                        r matches Ok(v) && v@ == k
                    } else {
                        r matches Err(e) && e is InvalidVaultKey
                    },
                    None => r matches Err(e) && e == decrypt_failure(
                        self.wrapped_key.version,
                        self.wrapped_key.ciphertext@.len(),
                    ),
                },
            },
            forall|k: Seq<u8>| #[trigger]
                wraps_key(*self, master_password@, k) && master_password@.len() > 0 && k.len()
                    == KEY_BYTES ==> (r matches Ok(v) && v@ == k),
    {
        ensure_master_password(master_password)?;
        if self.version != ENVELOPE_VERSION {
            return Err(CryptoError::UnsupportedVersion(self.version));
        }
        let wrapping_key = derive_key(master_password, &self.salt)?;
        let context = "remoteapp/vault-key/v1".as_bytes();
        let plaintext = decrypt(&wrapping_key, context, &self.wrapped_key)?;
        if plaintext.len() != KEY_BYTES {
            return Err(CryptoError::InvalidVaultKey);
        }
        Ok(VaultKey::from_bytes(array32(plaintext.as_slice())))
    }
}

/// Storage for the vault key that the platform owns (a keystore or keychain). The library
/// never persists the key itself.
pub trait KeyStorage: Send + Sync {
    fn save(&self, key: &VaultKey) -> Result<(), CryptoError>;

    fn load(&self) -> Result<Option<VaultKey>, CryptoError>;

    fn clear(&self) -> Result<(), CryptoError>;
}

#[verifier::external_type_specification]
#[verifier::external_body]
#[verifier::reject_recursive_types(T)]
pub struct ExMutex<T: ?Sized>(std::sync::Mutex<T>);

/// Calls `std::sync::Mutex::new`: a lock around `value`. What a lock holds is not modelled.
#[verifier::external_body]
fn new_slot(value: Option<VaultKey>) -> (r: std::sync::Mutex<Option<VaultKey>>) {
    std::sync::Mutex::new(value)
}

/// Calls `std::sync::Mutex::lock` and, unless the lock is poisoned, puts `value` in it; the
/// result says whether it did.
#[verifier::external_body]
fn store_in_slot(slot: &std::sync::Mutex<Option<VaultKey>>, value: Option<VaultKey>) -> (r: bool) {
    match slot.lock() {
        Ok(mut held) => {
            *held = value;
            true
        },
        Err(_) => false,
    }
}

/// Calls `std::sync::Mutex::lock` and, unless the lock is poisoned, returns the bytes of the key
/// it holds, if any. What that is depends on the calls before; nothing is stated of it.
#[verifier::external_body]
fn read_slot(slot: &std::sync::Mutex<Option<VaultKey>>) -> (r: Option<Option<[u8; 32]>>) {
    match slot.lock() {
        Ok(held) => Some(held.as_ref().map(|key| key.0)),
        Err(_) => None,
    }
}

/// The error of a poisoned in-memory key slot.
pub open spec fn poisoned_slot(e: CryptoError) -> bool {
    e matches CryptoError::KeyStorage(m) && m@ == "memory key storage lock poisoned"@
}

fn poisoned() -> (r: CryptoError)
    ensures
        poisoned_slot(r),
{
    CryptoError::KeyStorage(String::from_str("memory key storage lock poisoned"))
}

/// Non-secure in-memory key storage for tests and the desktop preview; not a production key
/// store.
pub struct MemoryKeyStorage(std::sync::Mutex<Option<VaultKey>>);

impl MemoryKeyStorage {
    pub fn new() -> (r: Self) {
        MemoryKeyStorage(new_slot(None))
    }
}

impl KeyStorage for MemoryKeyStorage {
    fn save(&self, key: &VaultKey) -> (r: Result<(), CryptoError>)
        ensures
            r matches Err(e) ==> poisoned_slot(e),
    {
        let copy = VaultKey::from_bytes(*key.as_bytes());
        if store_in_slot(&self.0, Some(copy)) {
            Ok(())
        } else {
            Err(poisoned())
        }
    }

    fn load(&self) -> (r: Result<Option<VaultKey>, CryptoError>)
        ensures
            r matches Err(e) ==> poisoned_slot(e),
    {
        match read_slot(&self.0) {
            Some(Some(bytes)) => Ok(Some(VaultKey::from_bytes(bytes))),
            Some(None) => Ok(None),
            None => Err(poisoned()),
        }
    }

    fn clear(&self) -> (r: Result<(), CryptoError>)
        ensures
            r matches Err(e) ==> poisoned_slot(e),
    {
        if store_in_slot(&self.0, None) {
            Ok(())
        } else {
            Err(poisoned())
        }
    }
}

} // verus!
