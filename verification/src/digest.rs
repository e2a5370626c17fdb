//! Content hashes: what names a chunk, and what a password becomes a key by.

use crate::cipher::ChaCha;
use crate::text::hex;
use object_rainbow::ToOutput;
use sha2::{Digest, Sha256};
use vstd::prelude::*;
use vstd::string::*;

verus! {

/// Hashed data is shorter than this many bytes, so that its length in bits fits
/// in the 64 bits that SHA-256 has for it.
pub const HASH_INPUT_END: u64 = 0x2000_0000_0000_0000;

/// The SHA-256 digest of `data`, as `sha2::Sha256::digest` computes it.
pub uninterp spec fn sha256(data: Seq<u8>) -> Seq<u8>;

/// Calls `sha2::Sha256::digest`. Claimed: the result is the digest of `data`, and
/// nothing else decides it.
#[verifier::external_body]
pub(crate) fn sha256_digest(data: &[u8]) -> (digest: [u8; 32])
    requires
        data@.len() < HASH_INPUT_END,
    ensures
        digest@ == sha256(data@),
{
    Sha256::digest(data).into()
}

/// Calls `object_rainbow::ToOutput::data_hash` on a byte slice and takes the bytes
/// of the hash. Claimed: bytes serialise as themselves, and the hash of an object
/// is the SHA-256 digest of its serialised form.
#[verifier::external_body]
fn data_hash(data: &[u8]) -> (hash: [u8; 32])
    requires
        data@.len() < HASH_INPUT_END,
    ensures
        hash@ == sha256(data@),
{
    data.data_hash().into_bytes()
}

/// What identifies a chunk: the hash of its bytes, and how many there are.
#[derive(Debug, Clone, Copy, PartialEq, Eq)]
pub struct ChunkId {
    pub hash: [u8; 32],
    pub len: usize,
}

/// Identifies a chunk by its bytes.
pub fn chunk_id(data: &[u8]) -> (id: ChunkId)
    requires
        data@.len() < HASH_INPUT_END,
    ensures
        id.hash@ == sha256(data@),
        id.len == data@.len(),
{
    ChunkId { hash: data_hash(data), len: data.len() }
}

/// The text that a hash is displayed as: its bytes in upper-case hexadecimal, each
/// with no leading zero.
pub fn hash_text(hash: &[u8; 32]) -> (text: String)
    ensures
        text@ == crate::text::bytes_text(hash@),
{
    hex(hash.as_slice())
}

/// The key that a password stands for: the hash of its UTF-8 bytes.
pub fn password_key(password: &str) -> (key: ChaCha)
    requires
        password.spec_bytes().len() < HASH_INPUT_END,
    ensures
        key.0@ == sha256(password.spec_bytes()),
{
    ChaCha(data_hash(password.as_bytes()))
}

/// Law: the length in bits of all data that is short enough to be hashed fits in
/// 64 bits, and that of no longer data does.
pub proof fn law_hashed_length_fits(len: nat)
    ensures
        len < HASH_INPUT_END <==> 8 * len <= u64::MAX,
{
}

} // verus!
