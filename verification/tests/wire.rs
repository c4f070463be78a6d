use kona_client::key::PreimageKey;
use kona_client::wire::{announced_length, frame_hint, frame_request};

#[test]
fn hint_frame_is_length_then_text() {
    assert_eq!(
        frame_hint("l1-blob 00ff"),
        Ok(vec![0, 0, 0, 12, b'l', b'1', b'-', b'b', b'l', b'o', b'b', b' ', b'0', b'0', b'f', b'f'])
    );
    assert_eq!(frame_hint(""), Ok(vec![0, 0, 0, 0]));
    let long = "a".repeat(0x0102_03);
    let frame = frame_hint(&long).unwrap();
    assert_eq!(frame[..4], [0x00, 0x01, 0x02, 0x03]);
    assert_eq!(frame.len(), 4 + 0x0102_03);
    // The length counts bytes, not characters.
    assert_eq!(frame_hint("\u{e9}"), Ok(vec![0, 0, 0, 2, 0xc3, 0xa9]));
}

#[test]
fn request_frame_is_the_key() {
    let key = PreimageKey::new_local(3);
    assert_eq!(frame_request(&key), key.to_bytes());
}

#[test]
fn announced_length_is_big_endian() {
    assert_eq!(announced_length(&[0, 0, 0, 0, 0, 0, 0, 0]), 0);
    assert_eq!(announced_length(&[0, 0, 0, 0, 0, 0, 1, 0]), 256);
    assert_eq!(announced_length(&[1, 2, 3, 4, 5, 6, 7, 8]), 0x0102_0304_0506_0708);
    assert_eq!(announced_length(&[0xff; 8]), u64::MAX);
}
