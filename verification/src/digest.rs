//! SHA-256 fingerprints of certificates.

use sha2::{Digest, Sha256};
use vstd::prelude::*;
use vstd::string::*;

use crate::bytes::bytes_equal;

verus! {

/// The SHA-256 digest of some bytes.
pub uninterp spec fn sha256(data: Seq<u8>) -> Seq<u8>;

/// Calls `sha2::Sha256::digest`; the digest is 32 bytes long.
#[verifier::external_body]
pub(crate) fn sha256_digest(data: &[u8]) -> (r: [u8; 32])
    ensures
        r@ == sha256(data@),
{
    Sha256::digest(data).into()
}

/// Whether a certificate's SHA-256 digest is the pinned one.
pub fn fingerprint_matches(certificate: &[u8], expected: &[u8; 32]) -> (r: bool)
    ensures
        r == (sha256(certificate@) == expected@),
{
    let actual = sha256_digest(certificate);
    bytes_equal(actual.as_slice(), expected.as_slice())
}

/// The lower-case hex digit for a value below 16.
pub open spec fn hex_digit(v: int) -> char {
    if v < 10 {
        (('0' as int) + v) as char
    } else {
        (('a' as int) + v - 10) as char
    }
}

/// The lower-case hex text of some bytes, two digits per byte.
pub open spec fn hex_lower(bytes: Seq<u8>) -> Seq<char>
    decreases bytes.len(),
{
    if bytes.len() == 0 {
        seq![]
    } else {
        hex_lower(bytes.drop_last()) + seq![
            hex_digit(bytes.last() as int / 16),
            hex_digit(bytes.last() as int % 16),
        ]
    }
}

fn hex_digit_text(v: u8) -> (r: &'static str)
    requires
        v < 16,
    ensures
        r@ == seq![hex_digit(v as int)],
{
    let table = "0123456789abcdef";
    proof {
        reveal_strlit("0123456789abcdef");
    }
    table.substring_char(v as usize, v as usize + 1)
}

/// The lower-case hex text of some bytes.
pub fn hex_string(bytes: &[u8]) -> (r: String)
    ensures
        r@ == hex_lower(bytes@),
{
    let mut out = String::new();
    let n = bytes.len();
    let mut i: usize = 0;
    while i < n
        invariant
            n == bytes@.len(),
            i <= n,
            out@ == hex_lower(bytes@.subrange(0, i as int)),
        decreases n - i,
    {
        let b = bytes[i];
        out.append(hex_digit_text(b / 16));
        out.append(hex_digit_text(b % 16));
        proof {
            let prefix = bytes@.subrange(0, i + 1);
            assert(prefix.drop_last() == bytes@.subrange(0, i as int));
            assert(prefix.last() == b);
        }
        i = i + 1;
    }
    proof {
        assert(bytes@.subrange(0, n as int) == bytes@);
    }
    out
}

/// The lower-case hex SHA-256 fingerprint of a certificate.
pub fn hex_sha256(data: &[u8]) -> (r: String)
    ensures
        r@ == hex_lower(sha256(data@)),
{
    let digest = sha256_digest(data);
    hex_string(digest.as_slice())
}

} // verus!
