//! Byte codecs and digests used by the credential and OAuth logic:
//! URL-safe unpadded base64 (the `base64` crate), SHA-256 (the `sha2` crate)
//! and operating-system randomness (the `rand` crate).

use vstd::prelude::*;
use base64::Engine;
use rand::RngCore;
use sha2::Digest;

verus! {

/// The URL-safe base64 alphabet: ASCII letters, digits, `-` and `_`.
pub open spec fn is_b64url_char(c: char) -> bool {
    ||| ('A' <= c && c <= 'Z')
    ||| ('a' <= c && c <= 'z')
    ||| ('0' <= c && c <= '9')
    ||| c == '-'
    ||| c == '_'
}

/// What `base64::engine::general_purpose::URL_SAFE_NO_PAD.decode` yields
/// for the bytes of a text; `None` where it reports an error.
pub uninterp spec fn spec_b64url_decode(text: Seq<char>) -> Option<Seq<u8>>;

/// What `base64::engine::general_purpose::URL_SAFE_NO_PAD.encode` yields for
/// some bytes.
pub uninterp spec fn spec_b64url_encode(bytes: Seq<u8>) -> Seq<char>;

/// What `sha2::Sha256::digest` yields for some bytes.
pub uninterp spec fn spec_sha256(bytes: Seq<u8>) -> Seq<u8>;

/// Calls `URL_SAFE_NO_PAD.decode` (base64 with the URL-safe alphabet, no
/// padding accepted) on the bytes of `text`; a decode error becomes `None`.
#[verifier::external_body]
pub(crate) fn b64url_decode(text: &str) -> (r: Option<Vec<u8>>)
    ensures
        r matches Some(v) ==> spec_b64url_decode(text@) == Some(v@),
        r is None <==> spec_b64url_decode(text@) is None,
{
    base64::engine::general_purpose::URL_SAFE_NO_PAD.decode(text).ok()
}

/// Calls `URL_SAFE_NO_PAD.encode`. Its output uses only the URL-safe
/// alphabet and carries no `=` padding. It panics only when the encoded
/// length overflows `usize`, which `requires` rules out.
#[verifier::external_body]
pub(crate) fn b64url_encode(bytes: &[u8]) -> (r: String)
    requires
        bytes@.len() < 0x4000_0000_0000_0000,
    ensures
        r@ == spec_b64url_encode(bytes@),
        forall|i: int| 0 <= i < r@.len() ==> is_b64url_char(#[trigger] r@[i]),
{
    base64::engine::general_purpose::URL_SAFE_NO_PAD.encode(bytes)
}

/// Calls `sha2::Sha256::digest`: the 32-byte SHA-256 digest of `bytes`.
#[verifier::external_body]
pub(crate) fn sha256(bytes: &[u8]) -> (r: Vec<u8>)
    ensures
        r@ == spec_sha256(bytes@),
        r@.len() == 32,
{
    sha2::Sha256::digest(bytes).to_vec()
}

/// Calls `rand::rngs::OsRng.fill_bytes` on a fresh buffer of `len` bytes.
/// Nothing is stated of the bytes but their number; `fill_bytes` panics if
/// the operating system cannot supply randomness, which no argument avoids.
#[verifier::external_body]
pub(crate) fn random_bytes(len: usize) -> (r: Vec<u8>)
    ensures
        r@.len() == len,
{
    let mut buf = vec![0u8; len];
    rand::rngs::OsRng.fill_bytes(&mut buf);
    buf
}

} // verus!

verus! {

/// What `String::from_utf8_lossy` yields for some bytes.
pub uninterp spec fn spec_utf8_lossy(bytes: Seq<u8>) -> Seq<char>;

/// Calls `String::from_utf8_lossy(bytes).into_owned()`: valid UTF-8 is
/// decoded as it is; invalid sequences become U+FFFD (not modelled).
#[verifier::external_body]
pub(crate) fn utf8_lossy(bytes: &[u8]) -> (r: String)
    ensures
        r@ == spec_utf8_lossy(bytes@),
        vstd::utf8::valid_utf8(bytes@) ==> r@ == vstd::utf8::decode_utf8(bytes@),
{
    String::from_utf8_lossy(bytes).into_owned()
}

/// The first `n` characters of some bytes read as lossy UTF-8.
pub fn lossy_head(bytes: &[u8], n: usize) -> (r: Vec<char>)
    ensures
        r@ == crate::text::prefix_at_most(spec_utf8_lossy(bytes@), n as nat),
{
    let text = utf8_lossy(bytes);
    let tc = crate::text::chars_of(text.as_str());
    crate::text::take_chars(&tc, n)
}

} // verus!
