use object_rainbow::ToOutput;
use rainbow_beacon::cipher::ChaCha;
use rainbow_beacon::digest::{chunk_id, hash_text, password_key, ChunkId};
use rainbow_beacon::text::{decimal, hex};

const ABC: [u8; 32] = [
    0xba, 0x78, 0x16, 0xbf, 0x8f, 0x01, 0xcf, 0xea, 0x41, 0x41, 0x40, 0xde, 0x5d, 0xae, 0x22, 0x23,
    0xb0, 0x03, 0x61, 0xa3, 0x96, 0x17, 0x7a, 0x9c, 0xb4, 0x10, 0xff, 0x61, 0xf2, 0x00, 0x15, 0xad,
];

#[test]
fn chunk_is_identified_by_hash_and_length() {
    assert_eq!(chunk_id(b"abc"), ChunkId { hash: ABC, len: 3 });
    assert_eq!(chunk_id(b"").len, 0);
    assert_ne!(chunk_id(b"abd").hash, ABC);
}

#[test]
fn hash_is_that_of_the_object() {
    let data = b"some bytes".to_vec();
    assert_eq!(chunk_id(&data).hash, data.data_hash().into_bytes());
    let password = "pässwörd".to_string();
    assert_eq!(password_key(&password).0, password.data_hash().into_bytes());
}

#[test]
fn password_becomes_its_hash() {
    assert_eq!(password_key("abc"), ChaCha(ABC));
    assert_ne!(password_key("abd"), ChaCha(ABC));
}

#[test]
fn hash_text_is_upper_case_hexadecimal() {
    assert_eq!(
        hash_text(&ABC),
        "BA7816BF8F1CFEA414140DE5DAE2223B0361A396177A9CB410FF61F2015AD"
    );
    let data = b"abc".to_vec();
    assert_eq!(hash_text(&ABC), format!("{}", data.data_hash()));
}

#[test]
fn bytes_are_written_without_leading_zero() {
    assert_eq!(hex(&[]), "");
    assert_eq!(hex(&[0, 9, 10, 15, 16, 255]), "09AF10FF");
}

#[test]
fn numbers_are_written_in_decimal() {
    assert_eq!(decimal(0), "0");
    assert_eq!(decimal(9), "9");
    assert_eq!(decimal(10), "10");
    assert_eq!(decimal(1_234_567_890), "1234567890");
    assert_eq!(decimal(usize::MAX), format!("{}", usize::MAX));
}
