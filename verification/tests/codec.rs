use nanopass::codec::{decode, decode_plain, encode, encode_plain, AuthFailure};
use nanopass::password::{ArrayString, PasswordItem};

fn item(name: &[u8], pass: &[u8]) -> PasswordItem {
    PasswordItem { name: ArrayString::from_bytes(name), pass: ArrayString::from_bytes(pass) }
}

fn key_counting() -> [u8; 32] {
    let mut key = [0u8; 32];
    for (i, b) in key.iter_mut().enumerate() {
        *b = i as u8;
    }
    key
}

const NIST_KEY: [u8; 32] = [
    0x60, 0x3d, 0xeb, 0x10, 0x15, 0xca, 0x71, 0xbe, 0x2b, 0x73, 0xae, 0xf0, 0x85, 0x7d, 0x77, 0x81,
    0x1f, 0x35, 0x2c, 0x07, 0x3b, 0x61, 0x08, 0xd7, 0x2d, 0x98, 0x10, 0xa3, 0x09, 0x14, 0xdf, 0xf4,
];

const NIST_IV: [u8; 16] = [
    0x00, 0x01, 0x02, 0x03, 0x04, 0x05, 0x06, 0x07, 0x08, 0x09, 0x0a, 0x0b, 0x0c, 0x0d, 0x0e, 0x0f,
];

const NIST_PLAIN: [u8; 64] = [
    0x6b, 0xc1, 0xbe, 0xe2, 0x2e, 0x40, 0x9f, 0x96, 0xe9, 0x3d, 0x7e, 0x11, 0x73, 0x93, 0x17, 0x2a,
    0xae, 0x2d, 0x8a, 0x57, 0x1e, 0x03, 0xac, 0x9c, 0x9e, 0xb7, 0x6f, 0xac, 0x45, 0xaf, 0x8e, 0x51,
    0x30, 0xc8, 0x1c, 0x46, 0xa3, 0x5c, 0xe4, 0x11, 0xe5, 0xfb, 0xc1, 0x19, 0x1a, 0x0a, 0x52, 0xef,
    0xf6, 0x9f, 0x24, 0x45, 0xdf, 0x4f, 0x9b, 0x17, 0xad, 0x2b, 0x41, 0x7b, 0xe6, 0x6c, 0x37, 0x10,
];

const NIST_CIPHER: [u8; 64] = [
    0xf5, 0x8c, 0x4c, 0x04, 0xd6, 0xe5, 0xf1, 0xba, 0x77, 0x9e, 0xab, 0xfb, 0x5f, 0x7b, 0xfb, 0xd6,
    0x9c, 0xfc, 0x4e, 0x96, 0x7e, 0xdb, 0x80, 0x8d, 0x67, 0x9f, 0x77, 0x7b, 0xc6, 0x70, 0x2c, 0x7d,
    0x39, 0xf2, 0x33, 0x69, 0xa9, 0xd9, 0xba, 0xcf, 0xa5, 0x30, 0xe2, 0x63, 0x04, 0x23, 0x14, 0x61,
    0xb2, 0xeb, 0x05, 0xe2, 0xc3, 0x9b, 0xe9, 0xfc, 0xda, 0x6c, 0x19, 0x07, 0x8c, 0x6a, 0x9d, 0x1b,
];

const NIST_TAG: [u8; 16] = [
    0x07, 0xd9, 0x32, 0xea, 0xec, 0x04, 0x46, 0x52, 0x1c, 0x3e, 0xbb, 0x52, 0xb7, 0xd3, 0x8f, 0x4c,
];

const ALICE_NONCE: [u8; 16] = [
    0xa0, 0xa1, 0xa2, 0xa3, 0xa4, 0xa5, 0xa6, 0xa7, 0xa8, 0xa9, 0xaa, 0xab, 0xac, 0xad, 0xae, 0xaf,
];

const ALICE_CIPHER: [u8; 64] = [
    0xea, 0x07, 0x09, 0x12, 0x1a, 0x5c, 0x3a, 0x19, 0x0e, 0xbe, 0x2a, 0x5d, 0x72, 0x55, 0x97, 0x8e,
    0xc0, 0x24, 0xf1, 0x79, 0x47, 0x5a, 0x35, 0xdf, 0x83, 0x1d, 0x00, 0x28, 0x42, 0xbe, 0x58, 0x5b,
    0x5c, 0xb1, 0xd7, 0xb2, 0x58, 0xc5, 0x69, 0xd7, 0x64, 0x34, 0xcd, 0x5d, 0x05, 0x00, 0x89, 0x03,
    0x89, 0x68, 0x71, 0x63, 0x95, 0x01, 0x6e, 0x57, 0xa4, 0x77, 0x71, 0x52, 0x8f, 0xf9, 0x74, 0x41,
];

const ALICE_TAG: [u8; 16] = [
    0x64, 0xc0, 0x79, 0xf5, 0xb4, 0x1c, 0x51, 0x16, 0xe2, 0xda, 0x02, 0x3d, 0x74, 0x4a, 0x1a, 0x3b,
];

fn nist_item() -> PasswordItem {
    item(&NIST_PLAIN[..32], &NIST_PLAIN[32..])
}

#[test]
fn a_plain_record_is_the_name_then_the_password() {
    let record = encode_plain(&item(b"alice", b"p@ss1"));
    let mut expected = [0u8; 64];
    expected[..5].copy_from_slice(b"alice");
    expected[32..37].copy_from_slice(b"p@ss1");
    assert_eq!(record, expected);
    assert_eq!(encode_plain(&nist_item()), NIST_PLAIN);
}

#[test]
fn every_plain_record_decodes_to_the_entry_with_its_bytes() {
    let mut record = [0u8; 64];
    for (i, b) in record.iter_mut().enumerate() {
        *b = (i as u8).wrapping_mul(37).wrapping_add(11);
    }
    let entry = decode_plain(&record);
    assert_eq!(entry.name.bytes(), &record[..32]);
    assert_eq!(entry.pass.bytes(), &record[32..]);
    assert_eq!(encode_plain(&entry), record);
    assert_eq!(decode_plain(&[0u8; 64]), PasswordItem::new());
}

#[test]
fn plain_round_trip_gives_the_entry_back() {
    for entry in [item(b"alice", b"p@ss1"), item(b"", b""), nist_item(), item(&[0xff; 32], &[0; 32])] {
        assert_eq!(decode_plain(&encode_plain(&entry)), entry);
    }
}

#[test]
fn a_sealed_record_is_nonce_then_ciphertext_then_tag() {
    let record = encode(&nist_item(), &NIST_KEY, &NIST_IV);
    assert_eq!(record.len(), 96);
    assert_eq!(&record[..16], &NIST_IV);
    assert_eq!(&record[16..80], &NIST_CIPHER);
    assert_eq!(&record[80..], &NIST_TAG);
}

#[test]
fn sealing_alice_gives_the_known_record() {
    let record = encode(&item(b"alice", b"p@ss1"), &key_counting(), &ALICE_NONCE);
    assert_eq!(&record[..16], &ALICE_NONCE);
    assert_eq!(&record[16..80], &ALICE_CIPHER);
    assert_eq!(&record[80..], &ALICE_TAG);
}

#[test]
fn the_first_cipher_block_is_the_cipher_on_name_and_nonce() {
    let plain = [
        0x00, 0x11, 0x22, 0x33, 0x44, 0x55, 0x66, 0x77, 0x88, 0x99, 0xaa, 0xbb, 0xcc, 0xdd, 0xee,
        0xff,
    ];
    let expected = [
        0x8e, 0xa2, 0xb7, 0xca, 0x51, 0x67, 0x45, 0xbf, 0xea, 0xfc, 0x49, 0x90, 0x4b, 0x49, 0x60,
        0x89,
    ];
    let record = encode(&item(&plain, b""), &key_counting(), &[0u8; 16]);
    assert_eq!(&record[16..32], &expected);
    let mut masked = plain;
    for b in masked.iter_mut() {
        *b ^= 0x5a;
    }
    let record = encode(&item(&masked, b""), &key_counting(), &[0x5a; 16]);
    assert_eq!(&record[16..32], &expected);
}

#[test]
fn a_known_record_decodes_to_its_entry() {
    let mut record = [0u8; 96];
    record[..16].copy_from_slice(&NIST_IV);
    record[16..80].copy_from_slice(&NIST_CIPHER);
    record[80..].copy_from_slice(&NIST_TAG);
    assert_eq!(decode(&record, &NIST_KEY), Ok(nist_item()));
    let mut record = [0u8; 96];
    record[..16].copy_from_slice(&ALICE_NONCE);
    record[16..80].copy_from_slice(&ALICE_CIPHER);
    record[80..].copy_from_slice(&ALICE_TAG);
    assert_eq!(decode(&record, &key_counting()), Ok(item(b"alice", b"p@ss1")));
}

#[test]
fn sealed_round_trip_gives_the_entry_back() {
    let entries = [item(b"alice", b"p@ss1"), item(b"", b""), nist_item(), item(&[0xff; 32], &[0; 32])];
    let keys = [[0u8; 32], key_counting(), NIST_KEY, [0xff; 32]];
    let nonces = [[0u8; 16], NIST_IV, ALICE_NONCE, [0xff; 16]];
    for entry in entries {
        for key in keys {
            for nonce in nonces {
                let record = encode(&entry, &key, &nonce);
                assert_eq!(decode(&record, &key), Ok(entry));
            }
        }
    }
}

#[test]
fn an_accepted_record_seals_to_itself_again() {
    let record = encode(&nist_item(), &key_counting(), &ALICE_NONCE);
    let entry = decode(&record, &key_counting()).unwrap();
    assert_eq!(encode(&entry, &key_counting(), &ALICE_NONCE), record);
}

#[test]
fn every_single_bit_flip_in_ciphertext_or_tag_is_refused() {
    let record = encode(&item(b"alice", b"p@ss1"), &key_counting(), &ALICE_NONCE);
    for bit in 128..768 {
        let mut altered = record;
        altered[bit / 8] ^= 1 << (bit % 8);
        assert_eq!(decode(&altered, &key_counting()), Err(AuthFailure));
    }
}

#[test]
fn every_single_bit_flip_in_the_nonce_is_refused() {
    let record = encode(&nist_item(), &NIST_KEY, &NIST_IV);
    for bit in 0..128 {
        let mut altered = record;
        altered[bit / 8] ^= 1 << (bit % 8);
        assert_eq!(decode(&altered, &key_counting()), Err(AuthFailure));
    }
}

#[test]
fn random_byte_changes_in_ciphertext_or_tag_are_refused() {
    let record = encode(&nist_item(), &NIST_KEY, &NIST_IV);
    let mut state = 0x1234_5678_9abc_def0u64;
    for _ in 0..2000 {
        state = state.wrapping_mul(6364136223846793005).wrapping_add(1442695040888963407);
        let at = 16 + ((state >> 33) % 80) as usize;
        let change = 1 + ((state >> 20) % 255) as u8;
        let mut altered = record;
        altered[at] ^= change;
        assert_eq!(decode(&altered, &NIST_KEY), Err(AuthFailure));
    }
}

#[test]
fn a_record_under_another_key_is_refused() {
    let record = encode(&item(b"alice", b"p@ss1"), &key_counting(), &ALICE_NONCE);
    assert_eq!(decode(&record, &NIST_KEY), Err(AuthFailure));
    assert_eq!(decode(&[0u8; 96], &key_counting()), Err(AuthFailure));
}

#[test]
fn another_nonce_gives_another_ciphertext() {
    let a = encode(&item(b"alice", b"p@ss1"), &key_counting(), &ALICE_NONCE);
    let b = encode(&item(b"alice", b"p@ss1"), &key_counting(), &NIST_IV);
    assert_ne!(&a[16..80], &b[16..80]);
    assert_ne!(&a[80..], &b[80..]);
}
