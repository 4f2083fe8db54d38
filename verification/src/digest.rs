use base64::Engine;
use sha1::Digest;
use vstd::prelude::*;
use vstd::utf8::encode_utf8;

verus! {

/// The SHA-1 hash of a byte string, as the `sha1` crate computes it.
pub uninterp spec fn sha1_hash(data: Seq<u8>) -> Seq<u8>;

/// The standard, padded base64 text of a byte string, as the `base64` crate
/// writes it.
pub uninterp spec fn base64_text(data: Seq<u8>) -> Seq<char>;

/// The bytes that are hashed: the nonce, then the timestamp's text, then the
/// secret's text, each as it stands.
pub open spec fn digest_input(nonce: Seq<u8>, timestamp: Seq<char>, secret: Seq<char>) -> Seq<u8> {
    nonce + encode_utf8(timestamp) + encode_utf8(secret)
}

/// The digest that proves knowledge of `secret` for one nonce and timestamp.
pub open spec fn digest_of(nonce: Seq<u8>, timestamp: Seq<char>, secret: Seq<char>) -> Seq<u8> {
    sha1_hash(digest_input(nonce, timestamp, secret))
}

/// The digest as it is embedded in a payload.
pub open spec fn password_digest_text(
    nonce: Seq<u8>,
    timestamp: Seq<char>,
    secret: Seq<char>,
) -> Seq<char> {
    base64_text(digest_of(nonce, timestamp, secret))
}

/// Calls `sha1::Sha1::digest` (the `Digest` trait's one-shot hash). Trusted:
/// the 20 bytes returned are the SHA-1 hash of `data`, a function of `data`
/// alone.
#[verifier::external_body]
fn sha1_of(data: &[u8]) -> (out: [u8; 20])
    ensures
        out@ == sha1_hash(data@),
{
    sha1::Sha1::digest(data).into()
}

/// A character of the standard base64 alphabet, or the padding sign.
pub open spec fn is_base64_char(c: char) -> bool {
    ('A' <= c && c <= 'Z') || ('a' <= c && c <= 'z') || ('0' <= c && c <= '9') || c == '+' || c
        == '/' || c == '='
}

/// Every character is of the base64 alphabet or the padding sign.
pub open spec fn is_base64_text(s: Seq<char>) -> bool {
    forall|i: int| 0 <= i < s.len() ==> is_base64_char(#[trigger] s[i])
}

/// Calls `Engine::encode` on `base64::prelude::BASE64_STANDARD`. Trusted: the
/// text returned is the standard padded base64 encoding of `data`, a function
/// of `data` alone, and holds only characters of the standard alphabet and
/// the padding sign. The outside function panics when the encoded length does
/// not fit in `usize`, which the bound on the input rules out.
#[verifier::external_body]
fn base64_of(data: &[u8]) -> (out: String)
    requires
        data@.len() <= usize::MAX / 2,
    ensures
        out@ == base64_text(data@),
        is_base64_text(out@),
{
    base64::prelude::BASE64_STANDARD.encode(data)
}

/// Hashes `nonce || timestamp || secret`, concatenated as raw bytes in that
/// order.
pub fn compute_digest(nonce: &[u8; 32], timestamp: &str, secret: &str) -> (out: [u8; 20])
    ensures
        out@ == digest_of(nonce@, timestamp@, secret@),
{
    let mut buf: Vec<u8> = Vec::new();
    buf.extend_from_slice(nonce.as_slice());
    buf.extend_from_slice(timestamp.as_bytes());
    buf.extend_from_slice(secret.as_bytes());
    assert(buf@ =~= digest_input(nonce@, timestamp@, secret@));
    sha1_of(buf.as_slice())
}

/// The base64 text of a nonce, as it is embedded in a payload.
pub fn encode_nonce(nonce: &[u8; 32]) -> (out: String)
    ensures
        out@ == base64_text(nonce@),
        is_base64_text(out@),
{
    base64_of(nonce.as_slice())
}

/// The base64 text of a digest, as it is embedded in a payload.
pub fn encode_digest(digest: &[u8; 20]) -> (out: String)
    ensures
        out@ == base64_text(digest@),
        is_base64_text(out@),
{
    base64_of(digest.as_slice())
}

/// The digest of `compute_digest`, in the base64 form that a payload carries.
pub fn password_digest(nonce: &[u8; 32], timestamp: &str, secret: &str) -> (out: String)
    ensures
        out@ == password_digest_text(nonce@, timestamp@, secret@),
        is_base64_text(out@),
{
    let digest = compute_digest(nonce, timestamp, secret);
    encode_digest(&digest)
}

/// The digest is a function of its three inputs: equal inputs give equal
/// digests, byte for byte.
pub proof fn lemma_digest_deterministic(
    nonce_a: Seq<u8>,
    timestamp_a: Seq<char>,
    secret_a: Seq<char>,
    nonce_b: Seq<u8>,
    timestamp_b: Seq<char>,
    secret_b: Seq<char>,
)
    requires
        nonce_a == nonce_b,
        timestamp_a == timestamp_b,
        secret_a == secret_b,
    ensures
        digest_of(nonce_a, timestamp_a, secret_a) == digest_of(nonce_b, timestamp_b, secret_b),
{
}

} // verus!
