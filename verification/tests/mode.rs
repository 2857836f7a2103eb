use stegstr::mode::{
    align_side, block_count, payload_source, platform_max_side, platform_quality,
    select_jpeg_mode, simulated_quality, survival_label, text_eq, usable_payload_bytes,
    EmbedError, Mode, ModeError, PayloadSource,
};

#[test]
fn parse_names_any_case() {
    assert_eq!(Mode::parse("robust").unwrap(), Mode::RobustFortress);
    assert_eq!(Mode::parse("Fortress").unwrap(), Mode::RobustFortress);
    assert_eq!(Mode::parse("JPEG").unwrap(), Mode::RobustFortress);
    assert_eq!(Mode::parse("armor-max").unwrap(), Mode::ArmorMax);
    assert_eq!(Mode::parse("ArmorMax").unwrap(), Mode::ArmorMax);
    assert_eq!(Mode::parse("armor").unwrap(), Mode::ArmorStandard);
    assert_eq!(Mode::parse("ARMOR-STANDARD").unwrap(), Mode::ArmorStandard);
    assert_eq!(Mode::parse("lossless").unwrap(), Mode::Lossless);
    assert_eq!(Mode::parse("PNG").unwrap(), Mode::Lossless);
    assert_eq!(Mode::parse("Bogus"), Err(ModeError::Unknown("bogus".to_string())));
    assert_eq!(Mode::parse(""), Err(ModeError::Unknown(String::new())));
}

#[test]
fn mode_properties() {
    for m in [Mode::RobustFortress, Mode::ArmorMax, Mode::ArmorStandard, Mode::Lossless] {
        assert_eq!(Mode::parse(m.name()).unwrap(), m);
    }
    assert_eq!(Mode::RobustFortress.repeat(), 15);
    assert_eq!(Mode::ArmorMax.repeat(), 8);
    assert_eq!(Mode::ArmorStandard.repeat(), 4);
    assert_eq!(Mode::Lossless.repeat(), 1);
    assert_eq!(Mode::ArmorStandard.name(), "armor-standard");
    assert!(Mode::ArmorMax.is_jpeg());
    assert!(!Mode::Lossless.is_jpeg());
    assert_eq!(Mode::RobustFortress.coded_bits(20), 2400);
}

#[test]
fn platforms() {
    assert_eq!(platform_max_side("instagram"), 1440);
    assert_eq!(platform_max_side("Telegram"), 2560);
    assert_eq!(platform_max_side("whatsapp"), 1600);
    assert_eq!(platform_max_side("other"), 1600);
    assert_eq!(platform_quality("INSTAGRAM"), 70);
    assert_eq!(platform_quality("telegram"), 75);
    assert_eq!(platform_quality("whatsapp"), 70);
    assert_eq!(simulated_quality("telegram"), 60);
    assert_eq!(simulated_quality("whatsapp"), 55);
}

#[test]
fn labels() {
    assert_eq!(survival_label(Mode::RobustFortress, None), "high (Fortress, target whatsapp)");
    assert_eq!(
        survival_label(Mode::RobustFortress, Some("telegram")),
        "high (Fortress, target telegram)"
    );
    assert_eq!(survival_label(Mode::ArmorMax, Some("x")), "usually high with carrier prep");
    assert_eq!(survival_label(Mode::ArmorStandard, None), "moderate — milder platforms");
    assert_eq!(survival_label(Mode::Lossless, None), "none on photo recompression");
}

#[test]
fn mode_selection() {
    assert_eq!(select_jpeg_mode(Mode::RobustFortress, 20, 2400), Ok(Mode::RobustFortress));
    assert_eq!(select_jpeg_mode(Mode::RobustFortress, 20, 2399), Ok(Mode::ArmorMax));
    assert_eq!(select_jpeg_mode(Mode::RobustFortress, 20, 700), Ok(Mode::ArmorStandard));
    assert_eq!(
        select_jpeg_mode(Mode::RobustFortress, 20, 100),
        Err(EmbedError::TooLargeForJpeg { needed: 2400, available: 100 })
    );
    assert_eq!(
        select_jpeg_mode(Mode::ArmorStandard, 20, 639),
        Err(EmbedError::TooLargeForJpeg { needed: 640, available: 639 })
    );
}

#[test]
fn capacity_and_geometry() {
    assert_eq!(usable_payload_bytes(Mode::RobustFortress, 30000, 0, 0), 234);
    assert_eq!(usable_payload_bytes(Mode::ArmorStandard, 100, 0, 0), 0);
    assert_eq!(usable_payload_bytes(Mode::Lossless, 0, 100, 100), 3734);
    assert_eq!(block_count(1600, 1200), 30000);
    assert_eq!(block_count(7, 100), 0);
    assert_eq!(align_side(1599), 1592);
    assert_eq!(align_side(100), 128);
}

#[test]
fn payload_arguments() {
    assert_eq!(payload_source("@bundle.json"), PayloadSource::File("bundle.json".to_string()));
    assert_eq!(payload_source("hello"), PayloadSource::Inline(b"hello".to_vec()));
    assert_eq!(payload_source(""), PayloadSource::Inline(Vec::new()));
    assert_eq!(payload_source("@"), PayloadSource::File(String::new()));
}

#[test]
fn text_equality() {
    assert!(text_eq("abc", "abc"));
    assert!(!text_eq("abc", "abd"));
    assert!(!text_eq("abc", "ab"));
}

#[test]
fn capacity_is_honest() {
    let usable = usable_payload_bytes(Mode::RobustFortress, 30000, 0, 0);
    assert_eq!(select_jpeg_mode(Mode::RobustFortress, usable + 16, 30000), Ok(Mode::RobustFortress));
    assert_eq!(select_jpeg_mode(Mode::RobustFortress, usable + 17, 30000), Ok(Mode::ArmorMax));
    let lossless = usable_payload_bytes(Mode::Lossless, 0, 100, 100);
    assert!(8 * (lossless + 16) <= 100 * 100 * 3);
    let packet = stegstr::message::seal_message(&vec![b'x'; lossless], false).unwrap();
    assert!(stegstr::carrier::embed_lsb(&vec![0u8; 100 * 100 * 3], &packet).is_ok());
}
