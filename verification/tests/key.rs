use kona_client::key::{InvalidPreimageKeyType, PreimageKey, PreimageKeyType};
use kona_client::primitives::B256;

const TYPES: [(PreimageKeyType, u8); 6] = [
    (PreimageKeyType::Local, 1),
    (PreimageKeyType::Keccak256, 2),
    (PreimageKeyType::GlobalGeneric, 3),
    (PreimageKeyType::Sha256, 4),
    (PreimageKeyType::Blob, 5),
    (PreimageKeyType::Precompile, 6),
];

#[test]
fn key_type_tags_round_trip() {
    for (key_type, tag) in TYPES {
        assert_eq!(key_type.tag(), tag);
        assert_eq!(PreimageKeyType::from_tag(tag), Ok(key_type));
    }
}

#[test]
fn key_type_refuses_other_tags() {
    assert_eq!(PreimageKeyType::from_tag(0), Err(InvalidPreimageKeyType(0)));
    assert_eq!(PreimageKeyType::from_tag(7), Err(InvalidPreimageKeyType(7)));
    assert_eq!(PreimageKeyType::from_tag(255), Err(InvalidPreimageKeyType(255)));
}

#[test]
fn key_bytes_are_tag_then_data() {
    let mut word = [0u8; 32];
    for (i, b) in word.iter_mut().enumerate() {
        *b = 0xa0 + i as u8;
    }
    for (key_type, tag) in TYPES {
        let key = PreimageKey::new(word, key_type);
        assert_eq!(key.key_type(), key_type);
        let bytes = key.to_bytes();
        assert_eq!(bytes[0], tag);
        assert_eq!(bytes[1..], word[1..]);
    }
}

#[test]
fn key_bytes_round_trip() {
    let mut bytes = [0x5au8; 32];
    for tag in 1u8..=6 {
        bytes[0] = tag;
        let key = PreimageKey::from_bytes(bytes).unwrap();
        assert_eq!(key.to_bytes(), bytes);
        assert_eq!(PreimageKey::from_bytes(key.to_bytes()), Ok(key));
    }
}

#[test]
fn key_from_bytes_refuses_unknown_tag() {
    let mut bytes = [0u8; 32];
    assert_eq!(PreimageKey::from_bytes(bytes), Err(InvalidPreimageKeyType(0)));
    bytes[0] = 9;
    assert_eq!(PreimageKey::from_bytes(bytes), Err(InvalidPreimageKeyType(9)));
}

#[test]
fn local_key_holds_slot_from_lowest_byte() {
    let key = PreimageKey::new_local(0x0102_0304_0506_0708);
    let mut expected = [0u8; 32];
    expected[0] = 1;
    expected[1..9].copy_from_slice(&[0x08, 0x07, 0x06, 0x05, 0x04, 0x03, 0x02, 0x01]);
    assert_eq!(key.to_bytes(), expected);
    assert_eq!(key.key_type(), PreimageKeyType::Local);

    let first = PreimageKey::new_local(1).to_bytes();
    let mut expected = [0u8; 32];
    expected[0] = 1;
    expected[1] = 1;
    assert_eq!(first, expected);
}

fn word(hex: &str) -> [u8; 32] {
    alloy_primitives::hex::decode(hex).unwrap().try_into().unwrap()
}

fn keccak256(data: &[u8]) -> B256 {
    B256(alloy_primitives::keccak256(data).0)
}

fn sha256(data: &[u8]) -> B256 {
    B256(<sha2::Sha256 as sha2::Digest>::digest(data).into())
}

#[test]
fn keccak_key_of_the_empty_value() {
    let digest = word("c5d2460186f7233c927e7db2dcc703c0e500b653ca82273b7bfad8045d85a470");
    let key = PreimageKey::new_keccak256(digest);
    assert!(key.verify(&[]));
    assert!(!key.verify(&[0]));
    assert_eq!(
        key.to_bytes(),
        word("02d2460186f7233c927e7db2dcc703c0e500b653ca82273b7bfad8045d85a470")
    );
}

#[test]
fn sha256_key_of_abc() {
    let digest = word("ba7816bf8f01cfea414140de5dae2223b00361a396177a9cb410ff61f20015ad");
    let key = PreimageKey::new(digest, PreimageKeyType::Sha256);
    assert!(key.verify(b"abc"));
    assert!(!key.verify(b"abd"));
    assert!(!PreimageKey::new(digest, PreimageKeyType::Keccak256).verify(b"abc"));
}

#[test]
fn keccak_key_verifies_its_preimage_only() {
    let value = b"preimage".to_vec();
    let key = PreimageKey::new_keccak256(keccak256(&value).0);
    assert!(key.verify(&value));
    assert!(!key.verify(b"another"));
    assert!(!key.verify(&[]));
}

#[test]
fn sha256_key_verifies_its_preimage_only() {
    let value = b"preimage".to_vec();
    let key = PreimageKey::new(sha256(&value).0, PreimageKeyType::Sha256);
    assert!(key.verify(&value));
    assert!(!key.verify(b"another"));
    let keccak = PreimageKey::new(sha256(&value).0, PreimageKeyType::Keccak256);
    assert!(!keccak.verify(&value));
}

#[test]
fn host_bound_keys_take_any_value() {
    for key_type in [
        PreimageKeyType::Local,
        PreimageKeyType::GlobalGeneric,
        PreimageKeyType::Blob,
        PreimageKeyType::Precompile,
    ] {
        let key = PreimageKey::new([7u8; 32], key_type);
        assert!(key.verify(b"anything"));
        assert!(key.verify(&[]));
    }
}

#[test]
fn word_equality_is_bytewise() {
    let a = B256([3u8; 32]);
    let mut other = [3u8; 32];
    assert!(a.eq_word(&B256(other)));
    other[31] = 4;
    assert!(!a.eq_word(&B256(other)));
    assert!(B256::zero().eq_word(&B256([0u8; 32])));
}
