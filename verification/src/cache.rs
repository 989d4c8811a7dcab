//! The HTTP cache's bookkeeping: what a fetch gives back, and the file a
//! fetched body is spilled to.
use vstd::prelude::*;

use sha2::Digest;

use crate::search::{join_path, path_join};

verus! {

/// What a GET gave back: its status, the URL after redirects, and the body.
#[derive(Debug, PartialEq, Eq)]
pub struct Fetched {
    pub status: u16,
    pub final_url: String,
    pub bytes: Vec<u8>,
}

/// The SHA-256 digest of `data` (`sha2::Sha256`).
pub uninterp spec fn sha256_digest(data: Seq<u8>) -> Seq<u8>;

/// `sha2::Sha256` over `data`: `new`, `update`, `finalize`. The contract
/// names the digest and, as the type's output size says, its 32 bytes.
#[verifier::external_body]
fn sha256(data: &[u8]) -> (r: Vec<u8>)
    ensures
        r@ == sha256_digest(data@),
        r@.len() == 32,
{
    let mut h = sha2::Sha256::new();
    h.update(data);
    h.finalize().to_vec()
}

/// The lower-case hexadecimal digit for `d < 16`.
pub open spec fn hex_lower_digit(d: int) -> char {
    if d < 10 {
        ((48 + d) as u32) as char
    } else {
        ((87 + d) as u32) as char
    }
}

/// Lower-case hexadecimal of bytes, two digits per byte, high digit first.
pub open spec fn hex_lower(b: Seq<u8>) -> Seq<char>
    decreases b.len(),
{
    if b.len() == 0 {
        seq![]
    } else {
        hex_lower(b.drop_last()) + seq![
            hex_lower_digit(b.last() as int / 16),
            hex_lower_digit(b.last() as int % 16),
        ]
    }
}

/// `hex::encode`: each byte as two lower-case hexadecimal digits, high
/// nibble first, as its source shows.
#[verifier::external_body]
fn hex_encode(data: &[u8]) -> (r: String)
    ensures
        r@ == hex_lower(data@),
{
    hex::encode(data)
}

/// The file that the body fetched from `url` is spilled to:
/// `<cache_dir>/<hex of the SHA-256 of the URL's UTF-8 bytes>.bin`.
pub open spec fn spill_path_spec(cache_dir: Seq<char>, url: Seq<char>) -> Seq<char> {
    path_join(cache_dir, hex_lower(sha256_digest(vstd::utf8::encode_utf8(url))) + ".bin"@)
}

/// The file that the body fetched from `url` is spilled to.
pub fn spill_path(cache_dir: &str, url: &str) -> (r: String)
    ensures
        r@ == spill_path_spec(cache_dir@, url@),
{
    let digest = sha256(url.as_bytes());
    let mut name = hex_encode(digest.as_slice());
    name.append(".bin");
    join_path(cache_dir, name.as_str())
}

} // verus!
