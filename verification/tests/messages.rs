use stegstr::carrier::{CapacityError, DetectError};
use stegstr::json::{detect_report, JsonScalar};
use stegstr::mode::{ascii_lowercase, EmbedError, Mode, ModeError};
use stegstr::packet::{PackError, UnpackError};
use stegstr::post::PostError;
use stegstr::text::{push_decimal, render_json};

#[test]
fn error_messages() {
    assert_eq!(PackError::TooLarge.message(), "payload exceeds 65535 bytes");
    assert_eq!(UnpackError::TooShort.message(), "no Stegstr payload found (packet too short)");
    assert_eq!(UnpackError::BadMagic.message(), "no Stegstr payload found (bad magic)");
    assert_eq!(UnpackError::UnsupportedVersion(2).message(), "unsupported payload version 2");
    assert_eq!(UnpackError::UnsupportedVersion(255).message(), "unsupported payload version 255");
    assert_eq!(UnpackError::Truncated.message(), "truncated Stegstr payload");
    assert_eq!(
        UnpackError::CrcMismatch.message(),
        "payload CRC mismatch — image may have been processed too aggressively, or this is not a Stegstr Robust image"
    );
    assert_eq!(
        Mode::parse("Nope").unwrap_err().message(),
        "unknown mode 'nope'. Use robust, armor-max, armor-standard, or lossless"
    );
    assert_eq!(
        ModeError::Unknown(String::new()).message(),
        "unknown mode ''. Use robust, armor-max, armor-standard, or lossless"
    );
    assert_eq!(
        EmbedError::TooLargeForJpeg { needed: 2400, available: 100 }.message(),
        "payload too large for JPEG modes: need 2400 coded bits, image has 100 blocks. Use a larger cover, --mode lossless, or a shorter payload."
    );
    assert_eq!(CapacityError::TooLargeForLossless.message(), "payload too large for lossless capacity");
    assert_eq!(DetectError::NoPayload.message(), "no valid Stegstr Robust payload detected");
    assert_eq!(PostError::BadPrivkeyLength.message(), "privkey-hex must be 64 hex characters");
}

#[test]
fn decimal_numerals() {
    for (n, text) in [(0u64, "0"), (7, "7"), (10, "10"), (1990, "1990"), (u64::MAX, "18446744073709551615")] {
        let mut s = String::from("n=");
        push_decimal(&mut s, n);
        assert_eq!(s, format!("n={text}"));
    }
}

#[test]
fn report_object_fields() {
    let obj = detect_report("hi".to_string(), 2);
    let keys: Vec<&str> = obj.fields.iter().map(|(k, _)| k.as_str()).collect();
    assert_eq!(keys, vec!["bytes", "mode", "ok", "payload"]);
    assert!(matches!(obj.fields[0].1, JsonScalar::Number(2)));
    assert!(matches!(&obj.fields[1].1, JsonScalar::Str(s) if s == "detected"));
    assert!(matches!(obj.fields[2].1, JsonScalar::Bool(true)));
    assert!(matches!(&obj.fields[3].1, JsonScalar::Str(s) if s == "hi"));
    assert_eq!(
        render_json(b"hi"),
        "{\n  \"bytes\": 2,\n  \"mode\": \"detected\",\n  \"ok\": true,\n  \"payload\": \"hi\"\n}"
    );
}

#[test]
fn lowercase_ascii_only() {
    assert_eq!(ascii_lowercase("ArMoR-MAX"), "armor-max");
    assert_eq!(ascii_lowercase("ÉTÉ Z@[`"), "ÉtÉ z@[`");
    assert_eq!(ascii_lowercase(""), "");
}
