//! Content fingerprints: SHA-256 digests written as lower-case hex.
use vstd::prelude::*;
use vstd::string::*;

verus! {

/// The SHA-256 digest of `b`.
pub uninterp spec fn sha256_of(b: Seq<u8>) -> Seq<u8>;

/// The lower-case hex digit of `n` (below 16).
pub open spec fn hex_digit(n: u8) -> char {
    if n < 10 {
        ((n + 48) as u8) as char
    } else {
        ((n + 87) as u8) as char
    }
}

/// Two lower-case hex digits for each byte, high half first.
pub open spec fn hex_lower(b: Seq<u8>) -> Seq<char>
    decreases b.len(),
{
    if b.len() == 0 {
        Seq::empty()
    } else {
        hex_lower(b.drop_last()) + seq![hex_digit(b.last() / 16), hex_digit(b.last() % 16)]
    }
}

proof fn lemma_hex_len(b: Seq<u8>)
    ensures
        hex_lower(b).len() == 2 * b.len(),
    decreases b.len(),
{
    if b.len() > 0 {
        lemma_hex_len(b.drop_last());
    }
}

/// Relies on sha2's Sha256::digest: 32 bytes, a function of the input alone.
#[verifier::external_body]
fn sha256(b: &[u8]) -> (r: Vec<u8>)
    ensures
        r@ == sha256_of(b@),
        r@.len() == 32,
{
    <sha2::Sha256 as sha2::Digest>::digest(b).to_vec()
}

/// Relies on base16ct::lower::encode_string: two lower-case hex digits per
/// byte, in order.
#[verifier::external_body]
fn hex_encode(b: &[u8]) -> (r: String)
    requires
        b@.len() <= usize::MAX / 2,
    ensures
        r@ == hex_lower(b@),
{
    base16ct::lower::encode_string(b)
}

/// The hex form of a digest.
pub fn digest_hex(digest: &Vec<u8>) -> (r: String)
    requires
        digest@.len() <= usize::MAX / 2,
    ensures
        r@ == hex_lower(digest@),
        r@.len() == 2 * digest@.len(),
{
    proof {
        lemma_hex_len(digest@);
    }
    hex_encode(digest.as_slice())
}

/// The id of the entry for the file at `path`: the hex SHA-256 digest of
/// the path's UTF-8 bytes.
pub fn image_id(path: &str) -> (r: String)
    ensures
        r@ == hex_lower(sha256_of(path.spec_bytes())),
        r@.len() == 64,
{
    let d = sha256(path.as_bytes());
    digest_hex(&d)
}

/// The key of a preview: the hex SHA-256 digest of the entry id, a `|`, and
/// the serialised options.
pub fn preview_key(id: &str, options_json: &str) -> (r: String)
    ensures
        r@ == hex_lower(sha256_of(id.spec_bytes() + "|".spec_bytes() + options_json.spec_bytes())),
        r@.len() == 64,
{
    let mut bytes: Vec<u8> = Vec::new();
    bytes.extend_from_slice(id.as_bytes());
    bytes.extend_from_slice("|".as_bytes());
    bytes.extend_from_slice(options_json.as_bytes());
    assert(bytes@ =~= id.spec_bytes() + "|".spec_bytes() + options_json.spec_bytes());
    let d = sha256(bytes.as_slice());
    digest_hex(&d)
}

} // verus!
