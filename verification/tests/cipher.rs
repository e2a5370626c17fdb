use chacha20poly1305::aead::generic_array::GenericArray;
use chacha20poly1305::aead::Aead;
use chacha20poly1305::{ChaCha20Poly1305, KeyInit};
use rainbow_beacon::cipher::{
    frame, nonce_of, unframe, ChaCha, DecryptError, NONCE_LEN, TAG_LEN,
};
use sha2::{Digest, Sha256};

fn key(byte: u8) -> ChaCha {
    ChaCha([byte; 32])
}

#[test]
fn opens_what_it_seals() {
    for len in [0usize, 1, 15, 16, 17, 63, 64, 65, 1000] {
        let data: Vec<u8> = (0..len).map(|i| (i % 251) as u8).collect();
        let sealed = key(7).encrypt(&data);
        assert_eq!(sealed.len(), NONCE_LEN + len + TAG_LEN);
        assert_eq!(key(7).decrypt(&sealed), Ok(data));
    }
}

#[test]
fn nonce_is_the_head_of_the_digest() {
    let sealed = key(1).encrypt(b"abc");
    assert_eq!(
        sealed[..12],
        [0xba, 0x78, 0x16, 0xbf, 0x8f, 0x01, 0xcf, 0xea, 0x41, 0x41, 0x40, 0xde]
    );
}

#[test]
fn body_is_the_aead_ciphertext() {
    let data = b"the body behind the nonce";
    let digest = Sha256::digest(data);
    let cipher = ChaCha20Poly1305::new(GenericArray::from_slice(&[9; 32]));
    let body = cipher
        .encrypt(GenericArray::from_slice(&digest[..12]), data.as_slice())
        .unwrap();
    let sealed = key(9).encrypt(data);
    assert_eq!(sealed[..12], digest[..12]);
    assert_eq!(sealed[12..], body[..]);
    assert_ne!(&sealed[12..12 + data.len()], data.as_slice());
}

#[test]
fn sealing_is_convergent() {
    assert_eq!(key(3).encrypt(b"same"), key(3).encrypt(b"same"));
    assert_ne!(key(3).encrypt(b"same"), key(4).encrypt(b"same"));
    assert_ne!(key(3).encrypt(b"same"), key(3).encrypt(b"other"));
}

#[test]
fn any_nonce_opens_that_sealed() {
    let cipher = ChaCha20Poly1305::new(GenericArray::from_slice(&[5; 32]));
    let nonce = [42u8; 12];
    let body = cipher
        .encrypt(GenericArray::from_slice(&nonce), b"plain".as_slice())
        .unwrap();
    let mut data = nonce.to_vec();
    data.extend_from_slice(&body);
    assert_eq!(key(5).decrypt(&data), Ok(b"plain".to_vec()));
}

#[test]
fn tampering_is_refused() {
    let sealed = key(2).encrypt(b"some data");
    for at in 0..sealed.len() {
        let mut bad = sealed.clone();
        bad[at] ^= 1;
        assert_eq!(key(2).decrypt(&bad), Err(DecryptError::Unauthentic));
    }
    assert_eq!(key(8).decrypt(&sealed), Err(DecryptError::Unauthentic));
}

#[test]
fn any_other_tag_is_refused() {
    let sealed = key(2).encrypt(b"some data");
    let tag = sealed.len() - TAG_LEN;
    for at in tag..sealed.len() {
        for change in 1..=255u8 {
            let mut bad = sealed.clone();
            bad[at] ^= change;
            assert_eq!(key(2).decrypt(&bad), Err(DecryptError::Unauthentic));
        }
    }
    let mut bad = sealed.clone();
    bad[tag..].fill(0);
    assert_eq!(key(2).decrypt(&bad), Err(DecryptError::Unauthentic));
}

#[test]
fn no_room_for_a_tag_is_refused() {
    for len in NONCE_LEN..NONCE_LEN + TAG_LEN {
        assert_eq!(key(2).decrypt(&vec![0; len]), Err(DecryptError::Unauthentic));
    }
}

#[test]
fn framing_is_undone() {
    let digest: [u8; 32] = core::array::from_fn(|i| i as u8);
    let nonce = nonce_of(&digest);
    assert_eq!(nonce, [0, 1, 2, 3, 4, 5, 6, 7, 8, 9, 10, 11]);
    let data = frame(nonce.clone(), vec![20, 21]);
    assert_eq!(data, [0, 1, 2, 3, 4, 5, 6, 7, 8, 9, 10, 11, 20, 21]);
    assert_eq!(unframe(&data), (&nonce[..], &[20u8, 21][..]));
    assert_eq!(unframe(&nonce), (&nonce[..], &[][..]));
}
