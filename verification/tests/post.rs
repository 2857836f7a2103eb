use stegstr::post::{build_post, note_bundle, pubkey_seed, PostError, NOTE_CREATED_AT};

#[test]
fn seed_bytes() {
    assert_eq!(pubkey_seed("hi", None).unwrap(), b"hi:anon".to_vec());
    let key = "a".repeat(64);
    let mut expected = key.as_bytes().to_vec();
    expected.extend_from_slice(b":pubkey");
    assert_eq!(pubkey_seed("hi", Some(&key)).unwrap(), expected);
    assert_eq!(pubkey_seed("hi", Some("abc")), Err(PostError::BadPrivkeyLength));
}

#[test]
fn anonymous_post() {
    let b = build_post("Hello from Robust Stegstr", None).unwrap();
    assert_eq!(b.version, 1);
    assert_eq!(b.events.len(), 1);
    let e = &b.events[0];
    assert_eq!(e.kind, 1);
    assert_eq!(e.pubkey, "45ab96dca5502c5ede8fe252af3015c2d1a48400b7d8f2a73f97e694bd689243");
    assert_eq!(e.created_at, 1735689600);
    assert_eq!(e.created_at, NOTE_CREATED_AT);
    assert!(e.tags.is_empty());
    assert_eq!(e.content, "Hello from Robust Stegstr");
}

#[test]
fn keyed_post() {
    let key = "a".repeat(64);
    let b = build_post("x", Some(&key)).unwrap();
    assert_eq!(
        b.events[0].pubkey,
        "ae727349b44851926c0652649bdf7841a98a3909526144efc05c5947cc07997b"
    );
    assert!(matches!(build_post("x", Some("short")), Err(PostError::BadPrivkeyLength)));
}

#[test]
fn bundle_from_digest() {
    let b = note_bundle("m", &[0x00, 0x0f, 0xa0, 0xff]);
    assert_eq!(b.events[0].pubkey, "000fa0ff");
    assert_eq!(b.events[0].content, "m");
}
