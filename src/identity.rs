//! Deterministic identifiers: the URL-safe Base64 text of the SHA-256 digest of
//! the UTF-8 bytes of an ordered list of parts.
use vstd::prelude::*;
use vstd::utf8::encode_utf8;
use base64::Engine;
use sha2::Digest;

verus! {

/// The name of the SHA-256 digest of a byte sequence.
pub uninterp spec fn sha256_of(data: Seq<u8>) -> Seq<u8>;

/// The name of the unpadded URL-safe Base64 text of a byte sequence.
pub uninterp spec fn b64url_of(data: Seq<u8>) -> Seq<char>;

/// Relies on `sha2::Sha256::digest`: the SHA-256 digest of `data`, 32 bytes.
#[verifier::external_body]
fn sha256(data: &[u8]) -> (r: Vec<u8>)
    ensures
        r@ == sha256_of(data@),
        r@.len() == 32,
{
    sha2::Sha256::digest(data).to_vec()
}

/// A character of the URL-safe Base64 alphabet: ASCII letters and digits, `-` and `_`.
pub open spec fn is_b64url_char(c: char) -> bool {
    ('A' <= c && c <= 'Z') || ('a' <= c && c <= 'z') || ('0' <= c && c <= '9') || c == '-' || c == '_'
}

/// Relies on `base64::engine::general_purpose::URL_SAFE_NO_PAD.encode`: the
/// URL-safe Base64 text of `data` without padding, four characters of the URL-safe
/// alphabet for every three bytes, rounded up.
#[verifier::external_body]
fn b64url(data: &[u8]) -> (r: String)
    requires
        data@.len() <= 1024,
    ensures
        r@ == b64url_of(data@),
        r@.len() == (4 * data@.len() + 2) / 3,
        forall|i: int| 0 <= i < r@.len() ==> is_b64url_char(#[trigger] r@[i]),
{
    base64::engine::general_purpose::URL_SAFE_NO_PAD.encode(data)
}

/// The UTF-8 bytes of the parts, one after the other, with nothing between them.
pub open spec fn joined_bytes(parts: Seq<Seq<char>>) -> Seq<u8>
    decreases parts.len(),
{
    if parts.len() == 0 {
        seq![]
    } else {
        joined_bytes(parts.drop_last()) + encode_utf8(parts.last())
    }
}

/// The identifier of an ordered list of parts.
pub open spec fn id_of(parts: Seq<Seq<char>>) -> Seq<char> {
    b64url_of(sha256_of(joined_bytes(parts)))
}

/// The characters of each part.
pub open spec fn part_views(parts: Seq<&str>) -> Seq<Seq<char>> {
    parts.map_values(|p: &str| p@)
}

/// The identifier of `parts`: the unpadded URL-safe Base64 text of the SHA-256
/// digest of their UTF-8 bytes, taken in order: 43 characters of the URL-safe
/// alphabet.
pub fn hash_id(parts: &[&str]) -> (r: String)
    ensures
        r@ == id_of(part_views(parts@)),
        r@.len() == 43,
        forall|i: int| 0 <= i < r@.len() ==> is_b64url_char(#[trigger] r@[i]),
{
    let mut bytes: Vec<u8> = Vec::new();
    let mut i: usize = 0;
    while i < parts.len()
        invariant
            i <= parts@.len(),
            bytes@ == joined_bytes(part_views(parts@).take(i as int)),
        decreases parts@.len() - i,
    {
        let b = parts[i].as_bytes();
        let ghost before = bytes@;
        let mut j: usize = 0;
        while j < b.len()
            invariant
                j <= b@.len(),
                bytes@ == before + b@.take(j as int),
            decreases b@.len() - j,
        {
            bytes.push(b[j]);
            j = j + 1;
            assert(bytes@ =~= before + b@.take(j as int));
        }
        assert(b@.take(b@.len() as int) =~= b@);
        let ghost t = part_views(parts@).take(i + 1);
        assert(t.drop_last() =~= part_views(parts@).take(i as int));
        i = i + 1;
    }
    assert(part_views(parts@).take(parts@.len() as int) =~= part_views(parts@));
    let digest = sha256(bytes.as_slice());
    b64url(digest.as_slice())
}

} // verus!
