//! Convergent authenticated encryption of object data.
//!
//! A sealed message is a nonce followed by a ChaCha20-Poly1305 ciphertext. The
//! nonce is taken from the SHA-256 digest of the plaintext, so one key seals
//! equal plaintexts into equal bytes, and sealed data keeps deduplicating.

use crate::digest::{sha256, sha256_digest};
use chacha20poly1305::aead::generic_array::GenericArray;
use chacha20poly1305::aead::Aead;
use chacha20poly1305::{ChaCha20Poly1305, KeyInit};
use vstd::prelude::*;

verus! {

broadcast use vstd::slice::group_slice_axioms;

/// Bytes of a nonce.
pub const NONCE_LEN: usize = 12;

/// Bytes of an authentication tag.
pub const TAG_LEN: usize = 16;

/// The longest plaintext that can be sealed: the block counter has room for
/// this many bytes once the first block has keyed the authenticator.
pub const MAX_PLAIN_LEN: u64 = 274_877_906_816;

/// The error type of the AEAD traits.
#[verifier::external_type_specification]
#[verifier::external_body]
pub struct ExAeadError(chacha20poly1305::Error);

/// The ciphertext and tag of `plain` under `key` and `nonce` with no associated
/// data, as `Aead::encrypt` of `ChaCha20Poly1305` computes them.
pub uninterp spec fn aead_seal(key: Seq<u8>, nonce: Seq<u8>, plain: Seq<u8>) -> Seq<u8>;

/// The plaintext of `body` under `key` and `nonce` with no associated data, as
/// `Aead::decrypt` of `ChaCha20Poly1305` computes it; `None` where the tag does
/// not authenticate the ciphertext.
pub uninterp spec fn aead_open(key: Seq<u8>, nonce: Seq<u8>, body: Seq<u8>) -> Option<Seq<u8>>;

/// Calls `Aead::encrypt` of `chacha20poly1305::ChaCha20Poly1305`. Claimed: up to
/// `MAX_PLAIN_LEN` bytes it succeeds, the result is a function of key, nonce and
/// plaintext, it is one tag longer than the plaintext, and decrypting it under
/// the same key and nonce gives the plaintext back.
#[verifier::external_body]
fn aead_encrypt(key: &[u8; 32], nonce: &[u8], plain: &[u8]) -> (sealed: Result<
    Vec<u8>,
    chacha20poly1305::Error,
>)
    requires
        nonce@.len() == NONCE_LEN,
        plain@.len() <= MAX_PLAIN_LEN,
    ensures
        sealed is Ok,
        sealed->Ok_0@ == aead_seal(key@, nonce@, plain@),
        sealed->Ok_0@.len() == plain@.len() + TAG_LEN,
        aead_open(key@, nonce@, sealed->Ok_0@) == Some(plain@),
{
    ChaCha20Poly1305::new(key.into()).encrypt(GenericArray::from_slice(nonce), plain)
}

/// Calls `Aead::decrypt` of `chacha20poly1305::ChaCha20Poly1305`. Claimed: the
/// outcome is a function of key, nonce and ciphertext; a message that is shorter
/// than a tag is refused; what is accepted is what encrypting the plaintext under
/// the same key and nonce gives, and all that encrypting gives is accepted; and the
/// bytes before the tag alone decide the plaintext of what is accepted.
#[verifier::external_body]
fn aead_decrypt(key: &[u8; 32], nonce: &[u8], body: &[u8]) -> (plain: Result<
    Vec<u8>,
    chacha20poly1305::Error,
>)
    requires
        nonce@.len() == NONCE_LEN,
        body@.len() <= MAX_PLAIN_LEN + TAG_LEN,
    ensures
        plain is Ok <==> aead_open(key@, nonce@, body@) is Some,
        plain is Ok ==> Some(plain->Ok_0@) == aead_open(key@, nonce@, body@),
        body@.len() < TAG_LEN ==> plain is Err,
        plain is Ok ==> body@ == aead_seal(key@, nonce@, plain->Ok_0@),
        plain is Ok ==> body@.len() == plain->Ok_0@.len() + TAG_LEN,
        forall|p: Seq<u8>|
            p.len() <= MAX_PLAIN_LEN && body@ == #[trigger] aead_seal(key@, nonce@, p)
                ==> plain is Ok && plain->Ok_0@ == p,
        forall|p: Seq<u8>|
            p.len() <= MAX_PLAIN_LEN && plain is Ok && same_before_tag(
                body@,
                #[trigger] aead_seal(key@, nonce@, p),
            ) ==> plain->Ok_0@ == p,
{
    ChaCha20Poly1305::new(key.into()).decrypt(GenericArray::from_slice(nonce), body)
}

/// Why sealed data was refused.
#[derive(Debug, Clone, Copy, PartialEq, Eq, Structural)]
pub enum DecryptError {
    /// No plaintext under this key and nonce seals to this.
    Unauthentic,
}

/// A symmetric key.
#[derive(Debug, Clone, Copy, PartialEq, Eq)]
pub struct ChaCha(pub [u8; 32]);

/// The nonce that goes with a plaintext: the head of its digest.
pub open spec fn nonce_for(plain: Seq<u8>) -> Seq<u8> {
    sha256(plain).take(NONCE_LEN as int)
}

/// `plain` sealed under a nonce: the nonce, then ciphertext and tag.
pub open spec fn sealed_under(key: Seq<u8>, nonce: Seq<u8>, plain: Seq<u8>) -> Seq<u8> {
    framed(nonce, aead_seal(key, nonce, plain))
}

/// The sealed form of `plain`: sealed under the nonce that goes with it.
pub open spec fn sealed(key: Seq<u8>, plain: Seq<u8>) -> Seq<u8> {
    sealed_under(key, nonce_for(plain), plain)
}

/// Whether two messages are as long as each other and differ in their tags at most.
pub open spec fn same_before_tag(a: Seq<u8>, b: Seq<u8>) -> bool {
    &&& a.len() == b.len()
    &&& a.len() >= TAG_LEN
    &&& a.take(a.len() - TAG_LEN) == b.take(b.len() - TAG_LEN)
}

/// What sealed `data` opens to: the part behind the nonce, opened under it.
pub open spec fn opened(key: Seq<u8>, data: Seq<u8>) -> Option<Seq<u8>> {
    aead_open(key, data.take(NONCE_LEN as int), data.skip(NONCE_LEN as int))
}

/// The bytes of a nonce and of a body, one behind the other.
pub open spec fn framed(nonce: Seq<u8>, body: Seq<u8>) -> Seq<u8> {
    nonce + body
}

/// The nonce that goes with a plaintext of this digest: its head.
pub fn nonce_of(digest: &[u8; 32]) -> (nonce: Vec<u8>)
    ensures
        nonce@ == digest@.take(NONCE_LEN as int),
        nonce@ == digest@.take(12),
{
    vstd::slice::slice_to_vec(vstd::slice::slice_subrange(digest.as_slice(), 0, NONCE_LEN))
}

/// Puts a nonce and a body together.
pub fn frame(nonce: Vec<u8>, body: Vec<u8>) -> (data: Vec<u8>)
    ensures
        data@ == framed(nonce@, body@),
        data@ == nonce@ + body@,
{
    let mut data = nonce;
    let mut body = body;
    data.append(&mut body);
    data
}

/// Takes a nonce and a body apart.
pub fn unframe(data: &[u8]) -> (parts: (&[u8], &[u8]))
    requires
        data@.len() >= NONCE_LEN,
    ensures
        parts.0@ == data@.take(NONCE_LEN as int),
        parts.1@ == data@.skip(NONCE_LEN as int),
        parts.0@ == data@.take(12),
        parts.1@ == data@.skip(12),
{
    let nonce = vstd::slice::slice_subrange(data, 0, NONCE_LEN);
    let body = vstd::slice::slice_subrange(data, NONCE_LEN, data.len());
    proof {
        assert(data@.skip(NONCE_LEN as int) =~= body@);
        assert(data@.take(NONCE_LEN as int) =~= nonce@);
    }
    (nonce, body)
}

/// Law: what was put together comes apart into the same two parts.
pub proof fn law_unframing_undoes_framing(nonce: Seq<u8>, body: Seq<u8>)
    requires
        nonce.len() == NONCE_LEN,
    ensures
        framed(nonce, body).take(NONCE_LEN as int) == nonce,
        framed(nonce, body).skip(NONCE_LEN as int) == body,
{
    assert(framed(nonce, body).take(NONCE_LEN as int) =~= nonce);
    assert(framed(nonce, body).skip(NONCE_LEN as int) =~= body);
}

/// Law: what was taken apart goes together to the same bytes.
pub proof fn law_framing_undoes_unframing(data: Seq<u8>)
    requires
        data.len() >= NONCE_LEN,
    ensures
        framed(data.take(NONCE_LEN as int), data.skip(NONCE_LEN as int)) == data,
{
    assert(framed(data.take(NONCE_LEN as int), data.skip(NONCE_LEN as int)) =~= data);
}

/// Law: a nonce has 12 bytes and a tag 16; the plaintext that can be sealed ends
/// where, behind the first one, the 64-byte blocks that 32 bits can count end.
pub proof fn law_lengths()
    ensures
        NONCE_LEN == 12,
        TAG_LEN == 16,
        MAX_PLAIN_LEN == 64 * (u32::MAX - 1),
{
}

/// Law: what is sealed is the head of the plaintext's digest and, behind it, the
/// plaintext encrypted under the whole key with that head for a nonce; and it is
/// opened under the whole key, with its first 12 bytes for a nonce.
pub proof fn law_whole_key_seals_and_opens(
    key: Seq<u8>,
    nonce: Seq<u8>,
    plain: Seq<u8>,
    data: Seq<u8>,
)
    ensures
        sealed(key, plain) == sha256(plain).take(12) + aead_seal(
            key,
            sha256(plain).take(12),
            plain,
        ),
        sealed_under(key, nonce, plain) == nonce + aead_seal(key, nonce, plain),
        opened(key, data) == aead_open(key, data.take(12), data.skip(12)),
{
}

/// Messages that differ in their tags at most carry the same nonce, and their
/// bodies differ in their tags at most.
proof fn lemma_same_before_tag_unframed(data: Seq<u8>, nonce: Seq<u8>, body: Seq<u8>)
    requires
        nonce.len() == NONCE_LEN,
        data.len() >= NONCE_LEN + TAG_LEN,
        same_before_tag(data, framed(nonce, body)),
    ensures
        data.take(NONCE_LEN as int) == nonce,
        same_before_tag(data.skip(NONCE_LEN as int), body),
{
    let end = data.len() - TAG_LEN;
    assert forall|i: int| 0 <= i < end implies data[i] == framed(nonce, body)[i] by {
        assert(data.take(end)[i] == framed(nonce, body).take(end)[i]);
    }
    assert(data.take(NONCE_LEN as int) =~= nonce);
    assert(data.skip(NONCE_LEN as int).take(end - NONCE_LEN) =~= body.take(end - NONCE_LEN));
}

impl ChaCha {
    /// Seals `data` under this key.
    ///
    /// The result opens to `data` again, is one nonce and one tag longer, begins
    /// with the head of the digest of `data`, and is decided by the key and `data`
    /// alone.
    pub fn encrypt(&self, data: &[u8]) -> (out: Vec<u8>)
        requires
            data@.len() <= MAX_PLAIN_LEN,
        ensures
            out@ == sealed(self.0@, data@),
            out@.take(NONCE_LEN as int) == nonce_for(data@),
            sha256(data@).len() == 32,
            out@.len() == NONCE_LEN + data@.len() + TAG_LEN,
            opened(self.0@, out@) == Some(data@),
            out@.take(12) == sha256(data@).take(12),
            out@.skip(12) == aead_seal(self.0@, sha256(data@).take(12), data@),
            out@.len() == data@.len() + 28,
            aead_open(self.0@, out@.take(12), out@.skip(12)) == Some(data@),
    {
        let nonce = nonce_of(&sha256_digest(data));
        let body = aead_encrypt(&self.0, nonce.as_slice(), data).expect("the length is checked");
        proof {
            law_unframing_undoes_framing(nonce@, body@);
        }
        frame(nonce, body)
    }

    /// Opens sealed `data` under this key.
    ///
    /// What opens is exactly what sealing the plaintext under the nonce that
    /// `data` carries gives, whichever nonce that is; sealed data with anything in
    /// its tag changed does not open. Nor does `data` with no room for a nonce and
    /// a tag, or longer than anything that can be sealed.
    pub fn decrypt(&self, data: &[u8]) -> (out: Result<Vec<u8>, DecryptError>)
        requires
            data@.len() >= NONCE_LEN,
        ensures
            data@.len() <= NONCE_LEN + MAX_PLAIN_LEN + TAG_LEN ==> (out is Ok <==> opened(
                self.0@,
                data@,
            ) is Some),
            out is Ok ==> Some(out->Ok_0@) == opened(self.0@, data@),
            out is Err ==> out->Err_0 == DecryptError::Unauthentic,
            data@.len() < NONCE_LEN + TAG_LEN ==> out is Err,
            data@.len() > NONCE_LEN + MAX_PLAIN_LEN + TAG_LEN ==> out is Err,
            out is Ok ==> data@ == sealed_under(
                self.0@,
                data@.take(NONCE_LEN as int),
                out->Ok_0@,
            ),
            out is Ok ==> data@.len() == NONCE_LEN + out->Ok_0@.len() + TAG_LEN,
            forall|nonce: Seq<u8>, p: Seq<u8>|
                nonce.len() == NONCE_LEN && p.len() <= MAX_PLAIN_LEN && data@.len() <= NONCE_LEN
                    + MAX_PLAIN_LEN + TAG_LEN && data@ == #[trigger] sealed_under(self.0@, nonce, p)
                    ==> out is Ok && out->Ok_0@ == p,
            forall|nonce: Seq<u8>, p: Seq<u8>|
                nonce.len() == NONCE_LEN && p.len() <= MAX_PLAIN_LEN && data@.len() >= NONCE_LEN
                    + TAG_LEN && same_before_tag(data@, #[trigger] sealed_under(self.0@, nonce, p))
                    && data@ != sealed_under(self.0@, nonce, p) ==> out is Err,
            data@.len() <= 274_877_906_844 ==> (out is Ok <==> aead_open(
                self.0@,
                data@.take(12),
                data@.skip(12),
            ) is Some),
            out is Ok ==> Some(out->Ok_0@) == aead_open(self.0@, data@.take(12), data@.skip(12)),
            out is Ok ==> data@.skip(12) == aead_seal(self.0@, data@.take(12), out->Ok_0@),
            out is Ok ==> data@.len() == out->Ok_0@.len() + 28,
            forall|p: Seq<u8>|
                p.len() <= 274_877_906_816 && data@.len() <= 274_877_906_844 && data@.skip(12)
                    == #[trigger] aead_seal(self.0@, data@.take(12), p) ==> out is Ok
                    && out->Ok_0@ == p,
            forall|p: Seq<u8>|
                ({
                    let body = #[trigger] aead_seal(self.0@, data@.take(12), p);
                    &&& p.len() <= 274_877_906_816
                    &&& data@.len() >= 28
                    &&& body.len() == data@.len() - 12
                    &&& body.take(body.len() - 16) == data@.skip(12).take(body.len() - 16)
                    &&& body != data@.skip(12)
                }) ==> out is Err,
    {
        let (nonce, body) = unframe(data);
        proof {
            law_framing_undoes_unframing(data@);
        }
        if body.len() > TAG_LEN && (body.len() - TAG_LEN) as u64 > MAX_PLAIN_LEN {
            return Err(DecryptError::Unauthentic);
        }
        match aead_decrypt(&self.0, nonce, body) {
            Ok(plain) => {
                proof {
                    assert forall|n: Seq<u8>, p: Seq<u8>|
                        n.len() == NONCE_LEN && p.len() <= MAX_PLAIN_LEN && same_before_tag(
                            data@,
                            #[trigger] sealed_under(self.0@, n, p),
                        ) implies plain@ == p && data@ == sealed_under(self.0@, n, p) by {
                        lemma_same_before_tag_unframed(data@, n, aead_seal(self.0@, n, p));
                    }
                }
                Ok(plain)
            },
            Err(_) => {
                proof {
                    assert forall|n: Seq<u8>, p: Seq<u8>|
                        n.len() == NONCE_LEN && p.len() <= MAX_PLAIN_LEN implies data@
                        != #[trigger] sealed_under(self.0@, n, p) by {
                        law_unframing_undoes_framing(n, aead_seal(self.0@, n, p));
                    }
                }
                Err(DecryptError::Unauthentic)
            },
        }
    }
}

} // verus!
