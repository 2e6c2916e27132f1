//! Digests, randomness, and the text both are written in.
use base64::Engine;
use rand::RngCore;
use sha2::Digest;
use vstd::prelude::*;

verus! {

/// The SHA-256 digest of the bytes.
pub uninterp spec fn sha256(bytes: Seq<u8>) -> Seq<u8>;

/// `sha2::Sha256::digest`: the digest of the bytes, which is 32 bytes long.
#[verifier::external_body]
pub(crate) fn sha256_of(bytes: &[u8]) -> (out: Vec<u8>)
    ensures
        out@ == sha256(bytes@),
        out@.len() == 32,
{
    sha2::Sha256::digest(bytes).to_vec()
}

/// The `i`-th group of six bits in the bytes, from the first bit on, with zero
/// bits after the last byte.
pub open spec fn sextet(bytes: Seq<u8>, i: int) -> int {
    let byte = 6 * i / 8;
    let skipped = 6 * i % 8;
    let high = bytes[byte] as int;
    let low = if byte + 1 < bytes.len() {
        bytes[byte + 1] as int
    } else {
        0
    };
    let below = if skipped == 0 {
        1024
    } else if skipped == 2 {
        256
    } else if skipped == 4 {
        64
    } else {
        16int
    };
    (256 * high + low) / below % 64
}

/// The character that stands for six bits in the URL-safe alphabet of base64.
pub open spec fn url_safe(n: int) -> char {
    if n < 26 {
        (0x41 + n) as char
    } else if n < 52 {
        (0x47 + n) as char
    } else if n < 62 {
        (n - 4) as char
    } else if n == 62 {
        '-'
    } else {
        '_'
    }
}

/// The bytes in URL-safe base64 without padding: one character for each six
/// bits, and one for what is left.
pub open spec fn base64_url(bytes: Seq<u8>) -> Seq<char> {
    Seq::new(((4 * bytes.len() + 2) / 3) as nat, |i: int| url_safe(sextet(bytes, i)))
}

/// `URL_SAFE_NO_PAD.encode` of the base64 crate: RFC 4648's URL-safe base64 of
/// the bytes, with no padding. It panics where the text would be longer than a
/// `Vec` can be.
#[verifier::external_body]
pub(crate) fn base64_of(bytes: &[u8]) -> (out: String)
    requires
        bytes@.len() / 3 * 4 + 4 <= isize::MAX,
    ensures
        out@ == base64_url(bytes@),
{
    base64::engine::general_purpose::URL_SAFE_NO_PAD.encode(bytes)
}

/// `fill_bytes` of `rand::rngs::OsRng`: bytes from the operating system's
/// random source. Nothing is promised of them. Where the operating system has
/// no randomness to give, it panics.
#[verifier::external_body]
pub(crate) fn random_bytes() -> [u8; 32] {
    let mut bytes = [0u8; 32];
    rand::rngs::OsRng.fill_bytes(&mut bytes);
    bytes
}

} // verus!
