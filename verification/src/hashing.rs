//! Content fingerprints: a streaming 128-bit digest, truncated to its leading
//! 15 bytes and encoded as a 20-character URL-safe, unpadded base64 string.

use vstd::prelude::*;
use base64::Engine;
use base64::engine::general_purpose::URL_SAFE_NO_PAD;
use xxhash_rust::xxh3::Xxh3;

verus! {

#[verifier::external_type_specification]
#[verifier::external_body]
pub struct ExXxh3(Xxh3);

/// The bytes a streaming hasher has consumed so far, in order.
pub uninterp spec fn xxh3_fed(h: Xxh3) -> Seq<u8>;

/// The 16-byte big-endian form of the 128-bit digest of a byte sequence.
pub uninterp spec fn xxh3_digest_of(bytes: Seq<u8>) -> Seq<u8>;

/// The URL-safe, unpadded base64 encoding of a byte sequence.
pub uninterp spec fn base64url_of(bytes: Seq<u8>) -> Seq<char>;

/// A character of the URL-safe base64 alphabet. Such characters are never
/// path separators, drive prefixes or dots, so an encoded string is safe to
/// splice into a file name.
pub open spec fn is_base64url_char(c: char) -> bool {
    ||| 'A' <= c && c <= 'Z'
    ||| 'a' <= c && c <= 'z'
    ||| '0' <= c && c <= '9'
    ||| c == '-'
    ||| c == '_'
}

/// Length of the unpadded base64 encoding of `n` bytes.
pub open spec fn base64url_len(n: nat) -> nat {
    4 * (n / 3) + if n % 3 == 0 { 0 } else { (n % 3) + 1 }
}

/// How many leading digest bytes a content hash keeps: 120 bits, divisible
/// by both 6 (base64) and 8 (bytes), so the encoding is exactly 20 characters.
pub const HASH_PREFIX_BYTES: usize = 15;

/// The length in characters of every content hash string.
pub const HASH_CHARS: usize = 20;

/// The content hash of a byte sequence: the leading 15 bytes of its 128-bit
/// digest, base64url-encoded without padding.
pub open spec fn content_hash_of(bytes: Seq<u8>) -> Seq<char> {
    base64url_of(xxh3_digest_of(bytes).take(15))
}

/// Relies on `xxhash_rust::xxh3::Xxh3::new`: a fresh streaming hasher that
/// has consumed nothing.
#[verifier::external_body]
pub(crate) fn xxh3_new() -> (h: Xxh3)
    ensures
        xxh3_fed(h) == Seq::<u8>::empty(),
{
    Xxh3::new()
}

/// Relies on `Xxh3::update`: appends the given bytes, in order, to what the
/// accumulator has consumed.
#[verifier::external_body]
pub(crate) fn xxh3_update(h: &mut Xxh3, data: &[u8])
    ensures
        xxh3_fed(*final(h)) == xxh3_fed(*old(h)) + data@,
{
    h.update(data)
}

/// Relies on `Xxh3::digest128` and `u128::to_be_bytes`: the digest is a
/// function of the consumed bytes alone, and its big-endian form is 16 bytes.
#[verifier::external_body]
pub(crate) fn xxh3_digest(h: &Xxh3) -> (d: Vec<u8>)
    ensures
        d@ == xxh3_digest_of(xxh3_fed(*h)),
        d@.len() == 16,
{
    h.digest128().to_be_bytes().to_vec()
}

/// Relies on `base64::engine::general_purpose::URL_SAFE_NO_PAD`: the encoding
/// is a function of the input bytes alone; without padding it has exactly
/// 4 characters per 3 input bytes, rounded up per `encoded_len`; and every
/// character comes from the URL-safe alphabet `A-Z a-z 0-9 - _`.
#[verifier::external_body]
pub(crate) fn base64url_encode(data: &[u8]) -> (r: String)
    ensures
        r@ == base64url_of(data@),
        r@.len() == base64url_len(data@.len()),
        forall|i: int| 0 <= i < r@.len() ==> is_base64url_char(#[trigger] r@[i]),
{
    URL_SAFE_NO_PAD.encode(data)
}

/// Hash determinism: however an upload is split into chunks, the content
/// hash depends only on the concatenation of the chunks, because the model
/// of a staged upload is that concatenation and nothing else.
pub proof fn lemma_hash_chunking_invariant(chunks1: Seq<Seq<u8>>, chunks2: Seq<Seq<u8>>)
    requires
        chunks1.flatten() == chunks2.flatten(),
    ensures
        content_hash_of(chunks1.flatten()) == content_hash_of(chunks2.flatten()),
{
}

/// Idempotent commit: two uploads of the same bytes carry the same content
/// hash, so they commit to the same store path `<dir>/<hash>` — a single
/// entry, which the second commit finds present and leaves untouched.
pub proof fn lemma_commit_idempotent(dir: Seq<char>, b1: Seq<u8>, b2: Seq<u8>)
    requires
        b1 == b2,
    ensures
        content_hash_of(b1) == content_hash_of(b2),
        crate::context::spec_store_path(dir, content_hash_of(b1)) == crate::context::spec_store_path(
            dir,
            content_hash_of(b2),
        ),
{
}

/// A nonempty string of URL-safe base64 characters is a plain path
/// component: it holds no separator or drive prefix and is not a dot-name,
/// so a content hash joined under the store root always names an entry
/// directly inside that directory.
pub proof fn lemma_base64url_plain_component(s: Seq<char>)
    requires
        s.len() > 0,
        forall|i: int| 0 <= i < s.len() ==> is_base64url_char(#[trigger] s[i]),
    ensures
        crate::static_files::is_plain_component(s),
{
    assert(!is_base64url_char('.'));
    assert(s != seq!['.']) by {
        if s == seq!['.'] {
            assert(s[0] == '.');
        }
    }
    assert(s != seq!['.', '.']) by {
        if s == seq!['.', '.'] {
            assert(s[0] == '.');
        }
    }
}

/// The 20-character content hash of everything the given hasher has consumed.
pub fn content_hash(h: &Xxh3) -> (r: String)
    ensures
        r@ == content_hash_of(xxh3_fed(*h)),
        r@.len() == HASH_CHARS,
        forall|i: int| 0 <= i < r@.len() ==> is_base64url_char(#[trigger] r@[i]),
{
    let mut d = xxh3_digest(h);
    d.truncate(HASH_PREFIX_BYTES);
    base64url_encode(d.as_slice())
}

} // verus!
