use stegstr::bits::{bits_to_bytes, bytes_to_bits};
use stegstr::crypt::{derived_key_bytes, xor_crypt};
use stegstr::text::{b64, render_text};

#[test]
fn bytes_to_bits_msb_first() {
    assert_eq!(
        bytes_to_bits(&[0xA5]),
        vec![true, false, true, false, false, true, false, true]
    );
    assert_eq!(bytes_to_bits(&[]), Vec::<bool>::new());
    assert_eq!(bytes_to_bits(&[0x80, 0x01]).len(), 16);
}

#[test]
fn bits_to_bytes_pads_last_chunk() {
    assert_eq!(bits_to_bytes(&[true]), vec![0x80]);
    assert_eq!(bits_to_bytes(&[true, true, false, true]), vec![0xD0]);
    assert_eq!(
        bits_to_bytes(&[false, false, false, false, false, false, false, true, true]),
        vec![0x01, 0x80]
    );
    assert_eq!(bits_to_bytes(&[]), Vec::<u8>::new());
}

#[test]
fn bits_roundtrip() {
    let data: Vec<u8> = (0u8..=255).collect();
    assert_eq!(bits_to_bytes(&bytes_to_bits(&data)), data);
}

#[test]
fn b64_known_values() {
    assert_eq!(b64(b""), "");
    assert_eq!(b64(b"f"), "Zg==");
    assert_eq!(b64(b"fo"), "Zm8=");
    assert_eq!(b64(b"foo"), "Zm9v");
    assert_eq!(b64(b"hello"), "aGVsbG8=");
    assert_eq!(b64(&[0xff, 0xfe, 0x00]), "//4A");
    assert_eq!(b64(&[0xfb, 0xef]), "++8=");
}

#[test]
fn xor_known_values_and_involution() {
    assert_eq!(xor_crypt(&[0x00, 0xff, 0x0f], &[0xaa]), vec![0xaa, 0x55, 0xa5]);
    assert_eq!(xor_crypt(&[1, 2, 3, 4], &[1, 2]), vec![0, 0, 2, 6]);
    assert_eq!(xor_crypt(&[], &[]), Vec::<u8>::new());
    let key = derived_key_bytes();
    assert_eq!(key, b"stegstr-robust-open-mode-v1".to_vec());
    let msg = b"Contest test message";
    let enc = xor_crypt(msg, &key);
    assert_ne!(enc, msg.to_vec());
    assert_eq!(xor_crypt(&enc, &key), msg.to_vec());
}

#[test]
fn render_text_utf8_or_base64() {
    assert_eq!(render_text(b"hello"), "hello");
    assert_eq!(render_text("héllo".as_bytes()), "héllo");
    assert_eq!(render_text(&[0xff, 0xfe, 0x00]), "base64://4A");
    assert_eq!(render_text(b""), "");
}
