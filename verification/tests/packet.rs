use stegstr::message::{decode_text, detect_json, detect_text, open_message, seal_message};
use stegstr::packet::{check_crc, check_header, has_magic, pack_payload, unpack_payload, PackError, UnpackError};

const HI_PACKET: [u8; 18] = [
    83, 84, 69, 71, 83, 84, 82, 49, 1, 0, 0, 2, 104, 105, 0x21, 0x49, 0x4e, 0x1e,
];

#[test]
fn pack_exact_bytes() {
    assert_eq!(pack_payload(b"hi", false).unwrap(), HI_PACKET.to_vec());
    let enc = pack_payload(b"hi", true).unwrap();
    assert_eq!(enc[9], 1);
    assert_eq!(enc.len(), 18);
    let crc = crc32fast::hash(&enc[..14]);
    assert_eq!(&enc[14..], &crc.to_be_bytes());
}

#[test]
fn pack_refuses_large_body() {
    let body = vec![0u8; 65536];
    assert_eq!(pack_payload(&body, false), Err(PackError::TooLarge));
    let body = vec![7u8; 65535];
    let p = pack_payload(&body, false).unwrap();
    assert_eq!(p.len(), 65535 + 16);
    assert_eq!(unpack_payload(&p).unwrap(), (0, body));
}

#[test]
fn unpack_roundtrip() {
    assert_eq!(unpack_payload(&HI_PACKET).unwrap(), (0u8, b"hi".to_vec()));
    let p = pack_payload(b"", true).unwrap();
    assert_eq!(unpack_payload(&p).unwrap(), (1u8, Vec::new()));
    let mut with_tail = HI_PACKET.to_vec();
    with_tail.extend_from_slice(&[9, 9, 9]);
    assert_eq!(unpack_payload(&with_tail).unwrap(), (0u8, b"hi".to_vec()));
}

#[test]
fn unpack_errors() {
    assert_eq!(unpack_payload(&HI_PACKET[..15]), Err(UnpackError::TooShort));
    let mut bad = HI_PACKET.to_vec();
    bad[0] = b'X';
    assert_eq!(unpack_payload(&bad), Err(UnpackError::BadMagic));
    let mut bad = HI_PACKET.to_vec();
    bad[8] = 2;
    assert_eq!(unpack_payload(&bad), Err(UnpackError::UnsupportedVersion(2)));
    let mut bad = HI_PACKET.to_vec();
    bad[11] = 3;
    assert_eq!(unpack_payload(&bad), Err(UnpackError::Truncated));
    let mut bad = HI_PACKET.to_vec();
    bad[12] = b'H';
    assert_eq!(unpack_payload(&bad), Err(UnpackError::CrcMismatch));
}

#[test]
fn header_and_crc_steps() {
    assert!(has_magic(b"STEGSTR1xyz"));
    assert!(!has_magic(b"STEGSTR"));
    assert!(!has_magic(b"STEGSTR2"));
    assert_eq!(check_header(&HI_PACKET), Ok(2));
    assert_eq!(check_crc(&HI_PACKET, 2, 0x21494e1e), Ok((0, b"hi".to_vec())));
    assert_eq!(check_crc(&HI_PACKET, 2, 0x21494e1f), Err(UnpackError::CrcMismatch));
}

#[test]
fn seal_and_open() {
    let raw = "Contest test message – Stegstr Robust Edition".as_bytes();
    let plain = seal_message(raw, false).unwrap();
    assert_eq!(open_message(&plain, false).unwrap(), raw.to_vec());
    let sealed = seal_message(raw, true).unwrap();
    assert_eq!(sealed[9], 1);
    assert_ne!(&sealed[12..12 + raw.len()], raw);
    assert_eq!(open_message(&sealed, false).unwrap(), raw.to_vec());
    assert_eq!(open_message(&sealed, true).unwrap(), raw.to_vec());
    assert_eq!(seal_message(&vec![0u8; 70000], true), Err(PackError::TooLarge));
}

#[test]
fn detect_and_decode_text() {
    let sealed = seal_message(b"hello", true).unwrap();
    assert_eq!(detect_text(&sealed, false).unwrap(), "hello");
    let enc_body = &sealed[12..17];
    assert_eq!(decode_text(&sealed).unwrap(), render_expected(enc_body));
    let plain = seal_message(&[0xff, 0xfe, 0x00], false).unwrap();
    assert_eq!(detect_text(&plain, false).unwrap(), "base64://4A");
    assert_eq!(decode_text(&plain).unwrap(), "base64://4A");
    assert_eq!(detect_text(b"nothing here", false), Err(UnpackError::TooShort));
}

fn render_expected(b: &[u8]) -> String {
    match String::from_utf8(b.to_vec()) {
        Ok(s) => s,
        Err(_) => format!("base64:{}", stegstr::text::b64(b)),
    }
}

#[test]
fn every_single_bit_flip_is_caught() {
    let p = pack_payload(b"flip me", true).unwrap();
    for i in (9..10).chain(12..p.len()) {
        for bit in 0..8 {
            let mut q = p.clone();
            q[i] ^= 1 << bit;
            assert_eq!(unpack_payload(&q), Err(UnpackError::CrcMismatch), "byte {i} bit {bit}");
        }
    }
}

#[test]
fn detect_json_output() {
    let json = seal_message(br#"{"b":[1,2],"a":"x"}"#, false).unwrap();
    assert_eq!(
        detect_json(&json, false).unwrap(),
        "{\n  \"a\": \"x\",\n  \"b\": [\n    1,\n    2\n  ]\n}"
    );
    let text = seal_message(b"hello", true).unwrap();
    assert_eq!(
        detect_json(&text, false).unwrap(),
        "{\n  \"bytes\": 5,\n  \"mode\": \"detected\",\n  \"ok\": true,\n  \"payload\": \"hello\"\n}"
    );
    let binary = seal_message(&[0x66, 0xff], false).unwrap();
    assert_eq!(
        detect_json(&binary, false).unwrap(),
        "{\n  \"bytes\": 2,\n  \"mode\": \"detected\",\n  \"ok\": true,\n  \"payload\": \"f\u{fffd}\"\n}"
    );
    assert_eq!(detect_json(b"short", false), Err(UnpackError::TooShort));
}
