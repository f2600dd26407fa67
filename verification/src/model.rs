//! Connection profiles, endpoint parsing, secrets and decoded frames.

use vstd::prelude::*;
use vstd::string::*;
use vstd::utf8::encode_utf8;
use std::sync::Arc;

use crate::bytes::array16;
use crate::crypto::{random_bytes, CryptoError};

use crate::text::{
    contains_char, count_char, count_occurrences, decimal, find_char, first_index, has_char,
    has_whitespace, utf8_len_exceeds, is_hex, is_hex_digit, is_space, is_whitespace, lemma_count_push,
    lemma_first_index, owned, parse_u16, parse_u16_spec, push_decimal, trim, trim_str,
};

verus! {

pub const DEFAULT_RDP_PORT: u16 = 3389;

pub const DEFAULT_DESKTOP_WIDTH: u16 = 1920;

pub const DEFAULT_DESKTOP_HEIGHT: u16 = 1080;

pub const DEFAULT_DESKTOP_SCALE_FACTOR: u32 = 100;

pub const MAX_FRAME_BYTES: usize = 268435456;

pub const MAX_DESKTOP_DIMENSION: u32 = 8192;

/// The unsigned value of 16 bytes read in big-endian order.
pub open spec fn be_u128(b: Seq<u8>) -> u128 {
    (b[0] as u128) << 120u128 | (b[1] as u128) << 112u128 | (b[2] as u128) << 104u128 | (
    b[3] as u128) << 96u128 | (b[4] as u128) << 88u128 | (b[5] as u128) << 80u128 | (
    b[6] as u128) << 72u128 | (b[7] as u128) << 64u128 | (b[8] as u128) << 56u128 | (
    b[9] as u128) << 48u128 | (b[10] as u128) << 40u128 | (b[11] as u128) << 32u128 | (
    b[12] as u128) << 24u128 | (b[13] as u128) << 16u128 | (b[14] as u128) << 8u128 | (
    b[15] as u128)
}

/// The value of the version-4 UUID made from 16 random bytes: the high nibble of byte 6 set to
/// the version 4 and the two high bits of byte 8 set to the RFC 4122 variant `10`.
pub open spec fn uuid_v4_value(b: Seq<u8>) -> u128 {
    be_u128(b.update(6, (b[6] & 0x0fu8) | 0x40u8).update(8, (b[8] & 0x3fu8) | 0x80u8))
}

/// Calls `uuid::Builder::from_random_bytes`, then `into_uuid` and `Uuid::as_u128`. The builder
/// keeps the bytes and sets the version nibble of byte 6 to 4 and the variant bits of byte 8 to
/// `10`; `as_u128` reads the bytes in big-endian order.
#[verifier::external_body]
fn uuid_v4_from_bytes(bytes: [u8; 16]) -> (r: u128)
    ensures
        r == uuid_v4_value(bytes@),
{
    uuid::Builder::from_random_bytes(bytes).into_uuid().as_u128()
}

/// A version-4 UUID value has the version 4 and the RFC 4122 variant in its bits.
pub proof fn lemma_uuid_v4_bits(b: Seq<u8>)
    requires
        b.len() == 16,
    ensures
        (uuid_v4_value(b) >> 76u128) & 0xfu128 == 4,
        (uuid_v4_value(b) >> 62u128) & 0x3u128 == 2,
{
    let c = b.update(6, (b[6] & 0x0fu8) | 0x40u8).update(8, (b[8] & 0x3fu8) | 0x80u8);
    let (x0, x1, x2, x3, x4, x5, x6, x7) = (c[0], c[1], c[2], c[3], c[4], c[5], b[6], c[7]);
    let (x8, x9, x10, x11, x12, x13, x14, x15) = (b[8], c[9], c[10], c[11], c[12], c[13], c[14], c[15]);
    assert(c[6] == (x6 & 0x0fu8) | 0x40u8);
    assert(c[8] == (x8 & 0x3fu8) | 0x80u8);
    let v = be_u128(c);
    assert(v == (x0 as u128) << 120u128 | (x1 as u128) << 112u128 | (x2 as u128) << 104u128 | (
    x3 as u128) << 96u128 | (x4 as u128) << 88u128 | (x5 as u128) << 80u128 | (((x6 & 0x0fu8)
        | 0x40u8) as u128) << 72u128 | (x7 as u128) << 64u128 | (((x8 & 0x3fu8) | 0x80u8) as u128)
        << 56u128 | (x9 as u128) << 48u128 | (x10 as u128) << 40u128 | (x11 as u128) << 32u128 | (
    x12 as u128) << 24u128 | (x13 as u128) << 16u128 | (x14 as u128) << 8u128 | (x15 as u128));
    assert(((x0 as u128) << 120u128 | (x1 as u128) << 112u128 | (x2 as u128) << 104u128 | (
    x3 as u128) << 96u128 | (x4 as u128) << 88u128 | (x5 as u128) << 80u128 | (((x6 & 0x0fu8)
        | 0x40u8) as u128) << 72u128 | (x7 as u128) << 64u128 | (((x8 & 0x3fu8) | 0x80u8) as u128)
        << 56u128 | (x9 as u128) << 48u128 | (x10 as u128) << 40u128 | (x11 as u128) << 32u128 | (
    x12 as u128) << 24u128 | (x13 as u128) << 16u128 | (x14 as u128) << 8u128 | (x15 as u128))
        >> 76u128 & 0xfu128 == 4 && ((x0 as u128) << 120u128 | (x1 as u128) << 112u128 | (
    x2 as u128) << 104u128 | (x3 as u128) << 96u128 | (x4 as u128) << 88u128 | (x5 as u128)
        << 80u128 | (((x6 & 0x0fu8) | 0x40u8) as u128) << 72u128 | (x7 as u128) << 64u128 | (((x8
        & 0x3fu8) | 0x80u8) as u128) << 56u128 | (x9 as u128) << 48u128 | (x10 as u128) << 40u128
        | (x11 as u128) << 32u128 | (x12 as u128) << 24u128 | (x13 as u128) << 16u128 | (
    x14 as u128) << 8u128 | (x15 as u128)) >> 62u128 & 0x3u128 == 2) by (bit_vector);
}

/// The identity of a connection profile: a UUID held as its 128-bit value.
#[derive(Clone, Copy, Debug, PartialEq, Eq, Hash, Structural)]
pub struct ProfileId(u128);

impl ProfileId {
    pub closed spec fn value(self) -> u128 {
        self.0
    }

    /// A fresh random identity: a version-4 UUID made from 16 bytes of the operating
    /// system's random source, or the error of that source.
    pub fn new() -> (r: Result<Self, CryptoError>)
        ensures
            r matches Ok(id) ==> (exists|b: Seq<u8>| b.len() == 16 && id.value() == uuid_v4_value(b)),
            r matches Ok(id) ==> (id.value() >> 76u128) & 0xfu128 == 4 && (id.value() >> 62u128)
                & 0x3u128 == 2,
            r matches Err(e) ==> e is Randomness,
    {
        match random_bytes(16) {
            Ok(bytes) => {
                let b = array16(bytes.as_slice());
                proof {
                    lemma_uuid_v4_bits(b@);
                }
                Ok(ProfileId(uuid_v4_from_bytes(b)))
            },
            Err(e) => Err(CryptoError::Randomness(e)),
        }
    }

    pub fn from_u128(value: u128) -> (r: Self)
        ensures
            r.value() == value,
    {
        ProfileId(value)
    }

    pub fn as_u128(self) -> (r: u128)
        ensures
            r == self.value(),
    {
        self.0
    }
}

impl Default for ProfileId {
    /// A fresh random identity, as `new`; `Default` cannot report an error, so when the random
    /// source fails it is the nil identity 0.
    fn default() -> (r: Self)
        ensures
            r.value() == 0 || (exists|b: Seq<u8>| b.len() == 16 && r.value() == uuid_v4_value(b)),
    {
        match ProfileId::new() {
            Ok(id) => id,
            Err(_) => ProfileId(0),
        }
    }
}

#[derive(Clone, Copy, Debug, PartialEq, Eq)]
pub enum ScaleMode {
    Fit,
    Fill,
    OneToOne,
}

#[derive(Clone, Debug, PartialEq, Eq)]
pub struct DesktopConfig {
    pub width: u16,
    pub height: u16,
    pub scale_factor: u32,
}

impl Default for DesktopConfig {
    fn default() -> (r: Self)
        ensures
            r.width == DEFAULT_DESKTOP_WIDTH,
            r.height == DEFAULT_DESKTOP_HEIGHT,
            r.scale_factor == DEFAULT_DESKTOP_SCALE_FACTOR,
    {
        DesktopConfig {
            width: DEFAULT_DESKTOP_WIDTH,
            height: DEFAULT_DESKTOP_HEIGHT,
            scale_factor: DEFAULT_DESKTOP_SCALE_FACTOR,
        }
    }
}

#[derive(Clone, Copy, Debug, PartialEq, Eq, Structural)]
pub enum ProfileValidationError {
    MissingHost,
    InvalidHost,
    InvalidPort,
    MissingUsername,
    DesktopTooSmall,
    DesktopTooLarge,
    InvalidScaleFactor,
    InvalidCertificateFingerprint,
}

/// The user-facing message of a validation error.
pub open spec fn validation_text(e: ProfileValidationError) -> Seq<char> {
    match e {
        ProfileValidationError::MissingHost => "RDP host is missing"@,
        ProfileValidationError::InvalidHost => "RDP host is invalid"@,
        ProfileValidationError::InvalidPort => "RDP port must be between 1 and 65535"@,
        ProfileValidationError::MissingUsername => "RDP username is missing"@,
        ProfileValidationError::DesktopTooSmall => "desktop size is too small"@,
        ProfileValidationError::DesktopTooLarge => "desktop size is too large"@,
        ProfileValidationError::InvalidScaleFactor => "desktop scale factor must be between 50 and 500"@,
        ProfileValidationError::InvalidCertificateFingerprint => "certificate fingerprint must be a SHA-256 hex value"@,
    }
}

impl ProfileValidationError {
    /// The user-facing message of the error.
    pub fn message(&self) -> (r: &'static str)
        ensures
            r@ == validation_text(*self),
    {
        match self {
            ProfileValidationError::MissingHost => "RDP host is missing",
            ProfileValidationError::InvalidHost => "RDP host is invalid",
            ProfileValidationError::InvalidPort => "RDP port must be between 1 and 65535",
            ProfileValidationError::MissingUsername => "RDP username is missing",
            ProfileValidationError::DesktopTooSmall => "desktop size is too small",
            ProfileValidationError::DesktopTooLarge => "desktop size is too large",
            ProfileValidationError::InvalidScaleFactor => "desktop scale factor must be between 50 and 500",
            ProfileValidationError::InvalidCertificateFingerprint => "certificate fingerprint must be a SHA-256 hex value",
        }
    }
}

/// What `DesktopConfig::validate` decides.
pub open spec fn desktop_check(d: DesktopConfig) -> Result<(), ProfileValidationError> {
    if d.width < 320 || d.height < 200 {
        Err(ProfileValidationError::DesktopTooSmall)
    } else if d.width > MAX_DESKTOP_DIMENSION || d.height > MAX_DESKTOP_DIMENSION {
        Err(ProfileValidationError::DesktopTooLarge)
    } else if !(50 <= d.scale_factor <= 500) {
        Err(ProfileValidationError::InvalidScaleFactor)
    } else {
        Ok(())
    }
}

impl DesktopConfig {
    pub fn validate(&self) -> (r: Result<(), ProfileValidationError>)
        ensures
            r == desktop_check(*self),
    {
        if self.width < 320 || self.height < 200 {
            return Err(ProfileValidationError::DesktopTooSmall);
        }
        if self.width as u32 > MAX_DESKTOP_DIMENSION || self.height as u32 > MAX_DESKTOP_DIMENSION {
            return Err(ProfileValidationError::DesktopTooLarge);
        }
        if !(50 <= self.scale_factor && self.scale_factor <= 500) {
            return Err(ProfileValidationError::InvalidScaleFactor);
        }
        Ok(())
    }
}

#[derive(Clone, Debug, PartialEq, Eq)]
pub enum CertificatePolicy {
    Strict,
    TrustOnFirstUse { fingerprint: Option<String> },
}

/// A certificate fingerprint is accepted when, with its colons removed, it is 64 hex digits.
pub open spec fn fingerprint_well_formed(v: Seq<char>) -> bool {
    &&& v.len() - count_char(v, ':') == 64
    &&& forall|i: int| 0 <= i < v.len() ==> v[i] == ':' || is_hex(#[trigger] v[i])
}

/// What `CertificatePolicy::validate` decides.
pub open spec fn certificate_check(p: CertificatePolicy) -> Result<(), ProfileValidationError> {
    match p {
        CertificatePolicy::TrustOnFirstUse { fingerprint: Some(v) } => if fingerprint_well_formed(
            v@,
        ) {
            Ok(())
        } else {
            Err(ProfileValidationError::InvalidCertificateFingerprint)
        },
        _ => Ok(()),
    }
}

/// The hex text of some bytes is twice as long and holds only hex digits.
proof fn lemma_hex_lower_digits(b: Seq<u8>)
    ensures
        crate::digest::hex_lower(b).len() == 2 * b.len(),
        forall|i: int|
            0 <= i < 2 * b.len() ==> is_hex(#[trigger] crate::digest::hex_lower(b)[i])
                && crate::digest::hex_lower(b)[i] != ':',
    decreases b.len(),
{
    if b.len() > 0 {
        lemma_hex_lower_digits(b.drop_last());
        let v = b.last() as int;
        assert(0 <= v / 16 < 16 && 0 <= v % 16 < 16);
        let h = crate::digest::hex_lower(b);
        let p = crate::digest::hex_lower(b.drop_last());
        assert forall|i: int| 0 <= i < 2 * b.len() implies is_hex(#[trigger] h[i]) && h[i]
            != ':' by {
            if i < p.len() {
                assert(h[i] == p[i]);
            } else if i == p.len() {
                assert(h[i] == crate::digest::hex_digit(v / 16));
            } else {
                assert(h[i] == crate::digest::hex_digit(v % 16));
            }
        }
    }
}

/// Every fingerprint that the hex encoding of a SHA-256 digest gives (64 lower-case hex digits)
/// passes certificate validation.
pub proof fn law_hex_digest_fingerprint_valid(digest: Seq<u8>, fingerprint: String)
    requires
        digest.len() == 32,
        fingerprint@ == crate::digest::hex_lower(digest),
    ensures
        fingerprint_well_formed(crate::digest::hex_lower(digest)),
        certificate_check(CertificatePolicy::TrustOnFirstUse { fingerprint: Some(fingerprint) })
            is Ok,
{
    let h = crate::digest::hex_lower(digest);
    lemma_hex_lower_digits(digest);
    crate::text::lemma_count_absent(h, ':');
}

/// How often `:` occurs is the same once ASCII letters are lowered.
proof fn lemma_count_colon_lowered(v: Seq<char>)
    ensures
        count_char(v.map_values(|c: char| crate::keys::ascii_lower(c)), ':') == count_char(v, ':'),
    decreases v.len(),
{
    if v.len() > 0 {
        let m = v.map_values(|c: char| crate::keys::ascii_lower(c));
        lemma_count_colon_lowered(v.drop_last());
        assert(m.drop_last() =~= v.drop_last().map_values(|c: char| crate::keys::ascii_lower(c)));
        assert(m.last() == crate::keys::ascii_lower(v.last()));
    }
}

/// Whether a fingerprint is well formed does not depend on the case of its letters: lowering
/// every ASCII letter neither makes a fingerprint valid nor invalid.
pub proof fn law_fingerprint_case_insensitive(v: Seq<char>)
    ensures
        fingerprint_well_formed(v.map_values(|c: char| crate::keys::ascii_lower(c)))
            == fingerprint_well_formed(v),
{
    let m = v.map_values(|c: char| crate::keys::ascii_lower(c));
    lemma_count_colon_lowered(v);
    assert forall|i: int| 0 <= i < v.len() implies (m[i] == ':' || is_hex(#[trigger] m[i])) == (
    v[i] == ':' || is_hex(v[i])) by {
        assert(m[i] == crate::keys::ascii_lower(v[i]));
    }
    if fingerprint_well_formed(v) {
        assert forall|i: int| 0 <= i < m.len() implies m[i] == ':' || is_hex(#[trigger] m[i]) by {
            assert(v[i] == ':' || is_hex(v[i]));
        }
    }
    if fingerprint_well_formed(m) {
        assert forall|i: int| 0 <= i < v.len() implies v[i] == ':' || is_hex(#[trigger] v[i]) by {
            assert(m[i] == ':' || is_hex(m[i]));
        }
    }
}

impl CertificatePolicy {
    pub fn validate(&self) -> (r: Result<(), ProfileValidationError>)
        ensures
            r == certificate_check(*self),
    {
        if let CertificatePolicy::TrustOnFirstUse { fingerprint: Some(value) } = self {
            let s = value.as_str();
            let n = s.unicode_len();
            let mut i: usize = 0;
            let mut digits: usize = 0;
            while i < n
                invariant
                    n == s@.len(),
                    s@ == value@,
                    *self == (CertificatePolicy::TrustOnFirstUse { fingerprint: Some(*value) }),
                    i <= n,
                    digits + count_char(s@.subrange(0, i as int), ':') == i,
                    forall|k: int| 0 <= k < i ==> s@[k] == ':' || is_hex(#[trigger] s@[k]),
                decreases n - i,
            {
                let c = s.get_char(i);
                proof {
                    assert(s@.subrange(0, i + 1) == s@.subrange(0, i as int).push(c));
                    lemma_count_push(s@.subrange(0, i as int), c, ':');
                }
                if c != ':' {
                    if !is_hex_digit(c) {
                        proof {
                            assert(!is_hex(value@[i as int]) && value@[i as int] != ':');
                            assert(!fingerprint_well_formed(value@));
                            assert(*self == CertificatePolicy::TrustOnFirstUse {
                                fingerprint: Some(*value),
                            });
                        }
                        return Err(ProfileValidationError::InvalidCertificateFingerprint);
                    }
                    digits = digits + 1;
                }
                i = i + 1;
            }
            proof {
                assert(s@.subrange(0, n as int) == s@);
            }
            if digits != 64 {
                return Err(ProfileValidationError::InvalidCertificateFingerprint);
            }
        }
        Ok(())
    }

    pub fn fingerprint(&self) -> (r: Option<&str>)
        ensures
            match *self {
                CertificatePolicy::TrustOnFirstUse { fingerprint: Some(v) } => r matches Some(
                    s,
                ) && s@ == v@,
                _ => r is None,
            },
    {
        match self {
            CertificatePolicy::Strict => None,
            CertificatePolicy::TrustOnFirstUse { fingerprint } => match fingerprint {
                Some(v) => Some(v.as_str()),
                None => None,
            },
        }
    }
}

#[derive(Clone, Debug, PartialEq, Eq)]
pub struct ConnectionProfile {
    pub id: ProfileId,
    pub label: String,
    pub host: String,
    pub port: u16,
    pub username: String,
    pub domain: Option<String>,
    pub desktop: DesktopConfig,
    pub scale_mode: ScaleMode,
    pub certificate_policy: CertificatePolicy,
}

impl Default for ConnectionProfile {
    fn default() -> (r: Self)
        ensures
            r.label@ == Seq::<char>::empty(),
            r.host@ == Seq::<char>::empty(),
            r.port == DEFAULT_RDP_PORT,
            r.username@ == Seq::<char>::empty(),
            r.domain is None,
            r.desktop.width == DEFAULT_DESKTOP_WIDTH,
            r.desktop.height == DEFAULT_DESKTOP_HEIGHT,
            r.desktop.scale_factor == DEFAULT_DESKTOP_SCALE_FACTOR,
            r.scale_mode == ScaleMode::Fit,
            r.certificate_policy == (CertificatePolicy::TrustOnFirstUse { fingerprint: None }),
    {
        ConnectionProfile {
            id: ProfileId::default(),
            label: String::new(),
            host: String::new(),
            port: DEFAULT_RDP_PORT,
            username: String::new(),
            domain: None,
            desktop: DesktopConfig::default(),
            scale_mode: ScaleMode::Fit,
            certificate_policy: CertificatePolicy::TrustOnFirstUse { fingerprint: None },
        }
    }
}

pub open spec fn has_space(s: Seq<char>) -> bool {
    exists|i: int| 0 <= i < s.len() && is_space(s[i])
}

/// What `ConnectionProfile::validate` decides.
pub open spec fn profile_check(p: ConnectionProfile) -> Result<(), ProfileValidationError> {
    profile_fields_check(p.host@, p.port, p.username@, p.desktop, p.certificate_policy)
}

/// What validation decides for a profile with these fields.
pub open spec fn profile_fields_check(
    host: Seq<char>,
    port: u16,
    username: Seq<char>,
    desktop: DesktopConfig,
    policy: CertificatePolicy,
) -> Result<(), ProfileValidationError> {
    let host = trim(host);
    if host.len() == 0 {
        Err(ProfileValidationError::MissingHost)
    } else if encode_utf8(host).len() > 255 || has_space(host) {
        Err(ProfileValidationError::InvalidHost)
    } else if port == 0 {
        Err(ProfileValidationError::InvalidPort)
    } else if trim(username).len() == 0 {
        Err(ProfileValidationError::MissingUsername)
    } else {
        match desktop_check(desktop) {
            Err(e) => Err(e),
            Ok(_) => certificate_check(policy),
        }
    }
}

/// The `host:port` text of an endpoint; a host with a colon that is not already bracketed is
/// put in brackets.
pub open spec fn endpoint_text(host: Seq<char>, port: u16) -> Seq<char> {
    if has_char(host, ':') && !(host.len() > 0 && host[0] == '[') {
        seq!['['] + host + seq![']', ':'] + decimal(port as nat)
    } else {
        host + seq![':'] + decimal(port as nat)
    }
}

impl ConnectionProfile {
    pub fn validate(&self) -> (r: Result<(), ProfileValidationError>)
        ensures
            r == profile_check(*self),
    {
        let host = trim_str(self.host.as_str());
        if host.unicode_len() == 0 {
            return Err(ProfileValidationError::MissingHost);
        }
        if utf8_len_exceeds(host, 255) || has_whitespace(host) {
            return Err(ProfileValidationError::InvalidHost);
        }
        if self.port == 0 {
            return Err(ProfileValidationError::InvalidPort);
        }
        if trim_str(self.username.as_str()).unicode_len() == 0 {
            return Err(ProfileValidationError::MissingUsername);
        }
        self.desktop.validate()?;
        self.certificate_policy.validate()?;
        Ok(())
    }

    pub fn endpoint(&self) -> (r: String)
        ensures
            r@ == endpoint_text(self.host@, self.port),
    {
        let host = self.host.as_str();
        let mut out = String::new();
        if contains_char(host, ':') && !(host.unicode_len() > 0 && host.get_char(0) == '[') {
            proof {
                reveal_strlit("[");
                reveal_strlit("]:");
            }
            out.append("[");
            out.append(host);
            out.append("]:");
        } else {
            proof {
                reveal_strlit(":");
            }
            out.append(host);
            out.append(":");
        }
        push_decimal(&mut out, self.port as u64);
        proof {
            if has_char(host@, ':') && !(host@.len() > 0 && host@[0] == '[') {
                assert(out@ == seq!['['] + host@ + seq![']', ':'] + decimal(self.port as nat));
            } else {
                assert(out@ == host@ + seq![':'] + decimal(self.port as nat));
            }
        }
        out
    }
}

#[derive(Clone, Copy, Debug, PartialEq, Eq, Structural)]
pub enum EndpointParseError {
    MissingHost,
    InvalidHost,
    InvalidPort,
}

/// The user-facing message of an endpoint error.
pub open spec fn endpoint_error_text(e: EndpointParseError) -> Seq<char> {
    match e {
        EndpointParseError::MissingHost => "RDP endpoint is missing"@,
        EndpointParseError::InvalidHost => "RDP endpoint has an invalid host"@,
        EndpointParseError::InvalidPort => "RDP endpoint has an invalid port"@,
    }
}

impl EndpointParseError {
    /// The user-facing message of the error.
    pub fn message(&self) -> (r: &'static str)
        ensures
            r@ == endpoint_error_text(*self),
    {
        match self {
            EndpointParseError::MissingHost => "RDP endpoint is missing",
            EndpointParseError::InvalidHost => "RDP endpoint has an invalid host",
            EndpointParseError::InvalidPort => "RDP endpoint has an invalid port",
        }
    }
}

/// Whether `core::net::Ipv6Addr` parses the text.
pub uninterp spec fn ipv6_addr_parses(text: Seq<char>) -> bool;

/// Calls `str::parse::<core::net::Ipv6Addr>` and reports whether it succeeded; the contract
/// names the outcome and does not spell out the IPv6 text grammar.
#[verifier::external_body]
fn parses_as_ipv6(text: &str) -> (r: bool)
    ensures
        r == ipv6_addr_parses(text@),
{
    text.parse::<core::net::Ipv6Addr>().is_ok()
}

/// What the host check of endpoint parsing decides.
pub open spec fn endpoint_host_check(h: Seq<char>) -> Result<(), EndpointParseError> {
    if h.len() == 0 {
        Err(EndpointParseError::MissingHost)
    } else if encode_utf8(h).len() > 255 || has_space(h) || has_char(h, '/') || has_char(h, '\\') {
        Err(EndpointParseError::InvalidHost)
    } else if has_char(h, ':') && !ipv6_addr_parses(h) {
        Err(EndpointParseError::InvalidHost)
    } else {
        Ok(())
    }
}

/// What the port check of endpoint parsing decides.
pub open spec fn endpoint_port_check(s: Seq<char>) -> Result<u16, EndpointParseError> {
    match parse_u16_spec(s) {
        Some(p) => if p != 0 {
            Ok(p)
        } else {
            Err(EndpointParseError::InvalidPort)
        },
        None => Err(EndpointParseError::InvalidPort),
    }
}

/// The host and port that `parse_endpoint` reads from `input`: a bracketed host with an optional
/// `:port`, a `host:port` with exactly one colon, or a bare host (an IPv6 address among them)
/// with the default port.
pub open spec fn endpoint_parse(input: Seq<char>) -> Result<(Seq<char>, u16), EndpointParseError> {
    let v = trim(input);
    if v.len() == 0 {
        Err(EndpointParseError::MissingHost)
    } else if v[0] == '[' {
        let rest = v.drop_first();
        match first_index(rest, ']') {
            None => Err(EndpointParseError::InvalidHost),
            Some(c) => {
                let host = rest.subrange(0, c);
                let suffix = rest.subrange(c + 1, rest.len() as int);
                match endpoint_host_check(host) {
                    Err(e) => Err(e),
                    Ok(_) => if suffix.len() == 0 {
                        Ok((host, DEFAULT_RDP_PORT))
                    } else if suffix[0] == ':' {
                        match endpoint_port_check(suffix.drop_first()) {
                            Ok(p) => Ok((host, p)),
                            Err(e) => Err(e),
                        }
                    } else {
                        Err(EndpointParseError::InvalidHost)
                    },
                }
            },
        }
    } else if count_char(v, ':') == 1 {
        match first_index(v, ':') {
            Some(i) => {
                let host = v.subrange(0, i);
                match endpoint_host_check(host) {
                    Err(e) => Err(e),
                    Ok(_) => match endpoint_port_check(v.subrange(i + 1, v.len() as int)) {
                        Ok(p) => Ok((host, p)),
                        Err(e) => Err(e),
                    },
                }
            },
            None => Err(EndpointParseError::InvalidHost),
        }
    } else {
        match endpoint_host_check(v) {
            Err(e) => Err(e),
            Ok(_) => Ok((v, DEFAULT_RDP_PORT)),
        }
    }
}

/// The `host:port` text of a profile's endpoint parses back to its host and port, for a host
/// that endpoint parsing accepts and that does not start with `[`, and a port other than 0. A
/// host with a colon must also hold no `]`: such a host is one that `Ipv6Addr` parses, whose
/// grammar is named here rather than spelled out.
pub proof fn law_endpoint_text_parses_back(host: Seq<char>, port: u16)
    requires
        endpoint_host_check(host) is Ok,
        host[0] != '[',
        has_char(host, ':') ==> !has_char(host, ']'),
        port != 0,
    ensures
        endpoint_parse(endpoint_text(host, port)) == Ok::<(Seq<char>, u16), EndpointParseError>((host, port)),
{
    let d = decimal(port as nat);
    crate::text::lemma_decimal_digits(port as nat);
    crate::text::lemma_parse_u16_decimal(port);
    assert(!has_space(host));
    assert(!is_space(host[0]));
    assert(!is_space(d.last())) by {
        assert(crate::text::is_digit(d[d.len() - 1]));
    }
    assert(!has_char(d, ':')) by {
        assert forall|i: int| 0 <= i < d.len() implies d[i] != ':' by {
            assert(crate::text::is_digit(d[i]));
        }
    }
    if has_char(host, ':') {
        let t = seq!['['] + host + seq![']', ':'] + d;
        assert(endpoint_text(host, port) == t);
        assert(t.last() == d.last());
        crate::text::lemma_trim_unchanged(t);
        let rest = t.drop_first();
        assert(rest =~= host + (seq![']', ':'] + d));
        crate::text::lemma_first_index_concat(host, seq![']', ':'] + d, ']');
        let c = host.len() as int;
        assert(rest.subrange(0, c) =~= host);
        let suffix = rest.subrange(c + 1, rest.len() as int);
        assert(suffix =~= seq![':'] + d);
        assert(suffix.drop_first() =~= d);
    } else {
        let t = host + seq![':'] + d;
        assert(endpoint_text(host, port) == t);
        assert(t[0] == host[0]);
        assert(t.last() == d.last());
        crate::text::lemma_trim_unchanged(t);
        crate::text::lemma_count_absent(host, ':');
        crate::text::lemma_count_absent(d, ':');
        crate::text::lemma_count_concat(host, seq![':'], ':');
        crate::text::lemma_count_concat(host + seq![':'], d, ':');
        assert(count_char(seq![':'], ':') == 1) by {
            assert(seq![':'].drop_last() =~= Seq::<char>::empty());
            assert(count_char(Seq::<char>::empty(), ':') == 0);
            reveal_with_fuel(count_char, 2);
        }
        assert(t =~= host + (seq![':'] + d));
        crate::text::lemma_first_index_concat(host, seq![':'] + d, ':');
        let i = host.len() as int;
        assert(t.subrange(0, i) =~= host);
        assert(t.subrange(i + 1, t.len() as int) =~= d);
    }
}

/// A host in brackets parses to that host: with the default RDP port when nothing follows the
/// closing bracket, and with the port given after `:` otherwise, so `[h]` and `[h]:3389` read
/// the same. This holds of every host that the host check accepts and that holds no `]`.
pub proof fn law_bracketed_endpoint(host: Seq<char>, port: u16)
    requires
        endpoint_host_check(host) is Ok,
        !has_char(host, ']'),
        port != 0,
    ensures
        endpoint_parse(seq!['['] + host + seq![']']) == Ok::<(Seq<char>, u16), EndpointParseError>(
            (host, DEFAULT_RDP_PORT),
        ),
        endpoint_parse(seq!['['] + host + seq![']', ':'] + decimal(port as nat)) == Ok::<
            (Seq<char>, u16),
            EndpointParseError,
        >((host, port)),
        endpoint_parse(seq!['['] + host + seq![']', ':'] + decimal(DEFAULT_RDP_PORT as nat))
            == endpoint_parse(seq!['['] + host + seq![']']),
{
    // Without a port.
    let t = seq!['['] + host + seq![']'];
    assert(t.last() == ']');
    crate::text::lemma_trim_unchanged(t);
    let rest = t.drop_first();
    assert(rest =~= host + seq![']']);
    crate::text::lemma_first_index_concat(host, seq![']'], ']');
    let c = host.len() as int;
    assert(rest.subrange(0, c) =~= host);
    assert(rest.subrange(c + 1, rest.len() as int).len() == 0);
    // With a port.
    bracketed_with_port(host, port);
    bracketed_with_port(host, DEFAULT_RDP_PORT);
}

/// A bare host with no colon, one that the host check accepts and that does not start with `[`,
/// parses to itself with the default RDP port.
pub proof fn law_bare_host_default_port(host: Seq<char>)
    requires
        endpoint_host_check(host) is Ok,
        host[0] != '[',
        !has_char(host, ':'),
    ensures
        endpoint_parse(host) == Ok::<(Seq<char>, u16), EndpointParseError>(
            (host, DEFAULT_RDP_PORT),
        ),
{
    assert(!is_space(host[0]));
    assert(!is_space(host.last())) by {
        assert(host.last() == host[host.len() - 1]);
    }
    crate::text::lemma_trim_unchanged(host);
    crate::text::lemma_count_absent(host, ':');
}

proof fn bracketed_with_port(host: Seq<char>, port: u16)
    requires
        endpoint_host_check(host) is Ok,
        !has_char(host, ']'),
        port != 0,
    ensures
        endpoint_parse(seq!['['] + host + seq![']', ':'] + decimal(port as nat)) == Ok::<
            (Seq<char>, u16),
            EndpointParseError,
        >((host, port)),
{
    let d = decimal(port as nat);
    crate::text::lemma_decimal_digits(port as nat);
    crate::text::lemma_parse_u16_decimal(port);
    assert(!is_space(d.last())) by {
        assert(crate::text::is_digit(d[d.len() - 1]));
    }
    let t = seq!['['] + host + seq![']', ':'] + d;
    assert(t.last() == d.last());
    crate::text::lemma_trim_unchanged(t);
    let rest = t.drop_first();
    assert(rest =~= host + (seq![']', ':'] + d));
    crate::text::lemma_first_index_concat(host, seq![']', ':'] + d, ']');
    let c = host.len() as int;
    assert(rest.subrange(0, c) =~= host);
    let suffix = rest.subrange(c + 1, rest.len() as int);
    assert(suffix =~= seq![':'] + d);
    assert(suffix.drop_first() =~= d);
}

pub proof fn lemma_count_has(s: Seq<char>, c: char)
    requires
        count_char(s, c) > 0,
    ensures
        has_char(s, c),
    decreases s.len(),
{
    if s.last() != c {
        lemma_count_has(s.drop_last(), c);
        let i = choose|i: int| 0 <= i < s.drop_last().len() && s.drop_last()[i] == c;
        assert(s[i] == c);
    } else {
        assert(s[s.len() - 1] == c);
    }
}

fn parse_endpoint_port(value: &str) -> (r: Result<u16, EndpointParseError>)
    ensures
        r == endpoint_port_check(value@),
{
    match parse_u16(value) {
        Some(port) => if port != 0 {
            Ok(port)
        } else {
            Err(EndpointParseError::InvalidPort)
        },
        None => Err(EndpointParseError::InvalidPort),
    }
}

fn validate_endpoint_host(host: &str) -> (r: Result<(), EndpointParseError>)
    ensures
        r == endpoint_host_check(host@),
{
    let n = host.unicode_len();
    if n == 0 {
        return Err(EndpointParseError::MissingHost);
    }
    if utf8_len_exceeds(host, 255) {
        return Err(EndpointParseError::InvalidHost);
    }
    let mut i: usize = 0;
    while i < n
        invariant
            n == host@.len(),
            i <= n,
            forall|k: int|
                0 <= k < i ==> !is_space(#[trigger] host@[k]) && host@[k] != '/' && host@[k]
                    != '\\',
        decreases n - i,
    {
        let c = host.get_char(i);
        if is_whitespace(c) || c == '/' || c == '\\' {
            return Err(EndpointParseError::InvalidHost);
        }
        i = i + 1;
    }
    if contains_char(host, ':') && !parses_as_ipv6(host) {
        return Err(EndpointParseError::InvalidHost);
    }
    Ok(())
}

/// Reads an RDP endpoint: `host`, `host:port`, `[ipv6]` or `[ipv6]:port`, around white space.
pub fn parse_endpoint(input: &str) -> (r: Result<(String, u16), EndpointParseError>)
    ensures
        match endpoint_parse(input@) {
            Ok((h, p)) => r matches Ok((host, port)) && host@ == h && port == p,
            Err(e) => r == Err::<(String, u16), EndpointParseError>(e),
        },
{
    let value = trim_str(input);
    let n = value.unicode_len();
    if n == 0 {
        return Err(EndpointParseError::MissingHost);
    }
    if value.get_char(0) == '[' {
        let rest = value.substring_char(1, n);
        proof {
            assert(rest@ == value@.drop_first());
        }
        let m = rest.unicode_len();
        match find_char(rest, ']') {
            None => {
                return Err(EndpointParseError::InvalidHost);
            },
            Some(closing) => {
                proof {
                    lemma_first_index(rest@, ']');
                }
                let host = rest.substring_char(0, closing);
                validate_endpoint_host(host)?;
                let suffix = rest.substring_char(closing + 1, m);
                let k = suffix.unicode_len();
                let port = if k == 0 {
                    DEFAULT_RDP_PORT
                } else if suffix.get_char(0) == ':' {
                    let raw = suffix.substring_char(1, k);
                    proof {
                        assert(raw@ == suffix@.drop_first());
                    }
                    parse_endpoint_port(raw)?
                } else {
                    return Err(EndpointParseError::InvalidHost);
                };
                return Ok((owned(host), port));
            },
        }
    }
    if count_occurrences(value, ':') == 1 {
        proof {
            lemma_count_has(value@, ':');
            lemma_first_index(value@, ':');
        }
        match find_char(value, ':') {
            Some(i) => {
                let host = value.substring_char(0, i);
                validate_endpoint_host(host)?;
                let raw = value.substring_char(i + 1, n);
                let port = parse_endpoint_port(raw)?;
                return Ok((owned(host), port));
            },
            None => {
                return Err(EndpointParseError::InvalidHost);
            },
        }
    }
    validate_endpoint_host(value)?;
    Ok((owned(value), DEFAULT_RDP_PORT))
}

/// A password that is only handed out on request.
#[derive(Clone)]
pub struct Secret(String);

impl View for Secret {
    type V = Seq<char>;

    closed spec fn view(&self) -> Seq<char> {
        self.0@
    }
}

impl Secret {
    pub fn new(value: String) -> (r: Self)
        ensures
            r@ == value@,
    {
        Secret(value)
    }

    pub fn expose(&self) -> (r: &str)
        ensures
            r@ == self@,
    {
        self.0.as_str()
    }

    pub fn is_empty(&self) -> (r: bool)
        ensures
            r == (self@.len() == 0),
    {
        self.0.as_str().unicode_len() == 0
    }
}

impl From<String> for Secret {
    fn from(value: String) -> (r: Self)
        ensures
            r@ == value@,
    {
        Secret(value)
    }
}

impl vstd::std_specs::convert::FromSpecImpl<String> for Secret {
    open spec fn obeys_from_spec() -> bool {
        true
    }

    closed spec fn from_spec(v: String) -> Secret {
        Secret(v)
    }
}

#[derive(Clone, Copy, Debug, PartialEq, Eq, Structural)]
pub struct Rect {
    pub x: u32,
    pub y: u32,
    pub width: u32,
    pub height: u32,
}

impl Rect {
    /// The rectangle that covers a whole `width` by `height` image.
    pub fn full(width: u32, height: u32) -> (r: Self)
        ensures
            r == (Rect { x: 0, y: 0, width, height }),
    {
        Rect { x: 0, y: 0, width, height }
    }
}

#[derive(Clone, Copy, Debug, PartialEq, Eq, Structural)]
pub enum PixelFormat {
    Rgba8888,
    Bgra8888,
}

/// The pixels of a frame, shared without copying.
#[derive(Clone, Debug)]
pub struct FrameBuffer(Arc<Vec<u8>>);

impl View for FrameBuffer {
    type V = Seq<u8>;

    closed spec fn view(&self) -> Seq<u8> {
        (*self.0)@
    }
}

impl FrameBuffer {
    pub fn as_bytes(&self) -> (r: &[u8])
        ensures
            r@ == self@,
    {
        let v: &Vec<u8> = &self.0;
        v.as_slice()
    }

    pub fn len(&self) -> (r: usize)
        ensures
            r == self@.len(),
    {
        let v: &Vec<u8> = &self.0;
        v.len()
    }

    pub fn is_empty(&self) -> (r: bool)
        ensures
            r == (self@.len() == 0),
    {
        let v: &Vec<u8> = &self.0;
        v.len() == 0
    }
}

#[derive(Clone, Debug)]
pub struct FrameUpdate {
    pub sequence: u64,
    pub width: u32,
    pub height: u32,
    pub pixel_format: PixelFormat,
    pub damage_rects: Vec<Rect>,
    pub buffer: FrameBuffer,
}

#[derive(Clone, Copy, Debug, PartialEq, Eq, Structural)]
pub enum FrameError {
    DimensionOverflow,
    InvalidDimensions,
    InvalidBufferLength { expected: usize, actual: usize },
    TooLarge,
}

/// The user-facing message of a frame error.
pub open spec fn frame_error_text(e: FrameError) -> Seq<char> {
    match e {
        FrameError::DimensionOverflow => "frame dimensions overflow"@,
        FrameError::InvalidDimensions => "frame dimensions are invalid"@,
        FrameError::InvalidBufferLength { expected, actual } => "frame buffer length mismatch: expected "@
            + decimal(expected as nat) + ", got "@ + decimal(actual as nat),
        FrameError::TooLarge => "frame exceeds the memory limit"@,
    }
}

impl FrameError {
    pub fn message(&self) -> (r: String)
        ensures
            r@ == frame_error_text(*self),
    {
        match self {
            FrameError::DimensionOverflow => String::from_str("frame dimensions overflow"),
            FrameError::InvalidDimensions => String::from_str("frame dimensions are invalid"),
            FrameError::InvalidBufferLength { expected, actual } => {
                let mut out = String::from_str("frame buffer length mismatch: expected ");
                push_decimal(&mut out, *expected as u64);
                out.append(", got ");
                push_decimal(&mut out, *actual as u64);
                out
            },
            FrameError::TooLarge => String::from_str("frame exceeds the memory limit"),
        }
    }
}

/// What `FrameUpdate::new` decides for a `width` by `height` frame of `len` bytes.
pub open spec fn frame_check(width: u32, height: u32, len: usize) -> Result<(), FrameError> {
    let pixels = width as int * height as int;
    if pixels > u32::MAX {
        Err(FrameError::DimensionOverflow)
    } else if pixels * 4 > usize::MAX {
        Err(FrameError::DimensionOverflow)
    } else if pixels * 4 != len {
        Err(FrameError::InvalidBufferLength { expected: (pixels * 4) as usize, actual: len })
    } else if len > MAX_FRAME_BYTES {
        Err(FrameError::TooLarge)
    } else if width == 0 || height == 0 || width > MAX_DESKTOP_DIMENSION || height
        > MAX_DESKTOP_DIMENSION {
        Err(FrameError::InvalidDimensions)
    } else {
        Ok(())
    }
}

impl FrameUpdate {
    pub fn new(
        sequence: u64,
        width: u32,
        height: u32,
        pixel_format: PixelFormat,
        data: Vec<u8>,
        damage_rects: Vec<Rect>,
    ) -> (r: Result<Self, FrameError>)
        ensures
            match frame_check(width, height, data.len()) {
                Ok(_) => r matches Ok(f) && f.sequence == sequence && f.width == width && f.height
                    == height && f.pixel_format == pixel_format && f.damage_rects@ == damage_rects@
                    && f.buffer@ == data@,
                Err(e) => r matches Err(x) && x == e,
            },
    {
        let pixels = match width.checked_mul(height) {
            Some(p) => p,
            None => {
                return Err(FrameError::DimensionOverflow);
            },
        };
        let bytes: u64 = pixels as u64 * 4;
        if bytes > usize::MAX as u64 {
            return Err(FrameError::DimensionOverflow);
        }
        let expected_bytes = bytes as usize;
        if expected_bytes != data.len() {
            return Err(FrameError::InvalidBufferLength { expected: expected_bytes, actual: data.len() });
        }
        if data.len() > MAX_FRAME_BYTES {
            return Err(FrameError::TooLarge);
        }
        if width == 0 || height == 0 || width > MAX_DESKTOP_DIMENSION || height
            > MAX_DESKTOP_DIMENSION {
            return Err(FrameError::InvalidDimensions);
        }
        Ok(FrameUpdate {
            sequence,
            width,
            height,
            pixel_format,
            damage_rects,
            buffer: FrameBuffer(Arc::new(data)),
        })
    }
}

} // verus!
