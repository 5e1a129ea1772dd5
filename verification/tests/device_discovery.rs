use aether::device_discovery::{
    discover, known_i2c_chips, lookup_i2c_chip, parse_alsa_cards, parse_hat_info, DeviceConfig,
};

#[test]
fn lookup_es7210_by_primary_address() {
    let chip = lookup_i2c_chip(0x40).expect("ES7210 should be in registry");
    assert_eq!(chip.name, "ES7210");
}

#[test]
fn lookup_wm8960() {
    let chip = lookup_i2c_chip(0x1A).expect("WM8960 should be in registry");
    assert_eq!(chip.name, "WM8960");
}

#[test]
fn lookup_ac108_alt_address() {
    let chip = lookup_i2c_chip(0x38).expect("AC108 alt addr should be in registry");
    assert_eq!(chip.name, "AC108");
}

#[test]
fn unknown_address_returns_none() {
    assert!(lookup_i2c_chip(0x7F).is_none());
    assert!(lookup_i2c_chip(0x00).is_none());
    assert!(lookup_i2c_chip(0x50).is_none()); // common EEPROM address, not audio
}

#[test]
fn registry_has_no_duplicate_addresses() {
    let mut seen = std::collections::HashSet::new();
    for chip in known_i2c_chips() {
        assert!(seen.insert(chip.addr), "duplicate I2C address 0x{:02X} for chip {}", chip.addr, chip.name);
    }
}

#[test]
fn all_registry_addresses_are_valid_7bit() {
    for chip in known_i2c_chips() {
        assert!(chip.addr <= 0x77, "address 0x{:02X} for {} exceeds 7-bit range", chip.addr, chip.name);
        assert!(chip.addr >= 0x08, "address 0x{:02X} for {} is reserved", chip.addr, chip.name);
    }
}

#[test]
fn every_registry_entry_is_found_by_its_address() {
    for chip in known_i2c_chips() {
        assert_eq!(lookup_i2c_chip(chip.addr).map(|c| c.name), Some(chip.name));
    }
}

const PROC_ASOUND_CARDS: &str = "\
 0 [b1              ]: bcm2835_hdmi - bcm2835 HDMI 1\n\
                       bcm2835 HDMI 1\n\
 1 [Headphones      ]: bcm2835_headpho - bcm2835 Headphones\n\
                       bcm2835 Headphones\n\
 2 [Device          ]: USB-Audio - USB Audio Device\n\
                       Generic USB Audio Device at usb-0000:01:00.0-1.2, full speed\n";

#[test]
fn parse_alsa_cards_count() {
    assert_eq!(parse_alsa_cards(PROC_ASOUND_CARDS).len(), 3);
}

#[test]
fn parse_alsa_cards_indices() {
    let cards = parse_alsa_cards(PROC_ASOUND_CARDS);
    assert_eq!(cards[0].index, 0);
    assert_eq!(cards[1].index, 1);
    assert_eq!(cards[2].index, 2);
}

#[test]
fn parse_alsa_cards_ids() {
    let cards = parse_alsa_cards(PROC_ASOUND_CARDS);
    assert_eq!(cards[0].id, "b1");
    assert_eq!(cards[1].id, "Headphones");
    assert_eq!(cards[2].id, "Device");
}

#[test]
fn parse_alsa_cards_usb_device_name() {
    let cards = parse_alsa_cards(PROC_ASOUND_CARDS);
    let usb = cards.iter().find(|c| c.id == "Device").unwrap();
    assert!(usb.name.contains("USB Audio"), "expected USB Audio in name, got: {}", usb.name);
}

#[test]
fn parse_alsa_cards_names_exactly() {
    let cards = parse_alsa_cards(PROC_ASOUND_CARDS);
    assert_eq!(cards[0].name, "bcm2835 HDMI 1");
    assert_eq!(cards[2].name, "USB Audio Device");
}

#[test]
fn parse_alsa_cards_empty_input() {
    assert!(parse_alsa_cards("").is_empty());
}

#[test]
fn parse_alsa_cards_single_card() {
    let input = " 0 [PCH             ]: HDA-Intel - HDA Intel PCH\n\
                  HDA Intel PCH at 0xe1238000 irq 48\n";
    let cards = parse_alsa_cards(input);
    assert_eq!(cards.len(), 1);
    assert_eq!(cards[0].index, 0);
    assert_eq!(cards[0].id, "PCH");
    assert!(cards[0].name.contains("HDA Intel PCH"));
}

#[test]
fn parse_hat_strips_null_terminator() {
    let hat = parse_hat_info(b"Waveshare\0", b"WM8960 Audio HAT\0").unwrap();
    assert_eq!(hat.vendor, "Waveshare");
    assert_eq!(hat.product, "WM8960 Audio HAT");
}

#[test]
fn parse_hat_no_null_still_works() {
    let hat = parse_hat_info(b"Seeed", b"ReSpeaker 4-Mic Array").unwrap();
    assert_eq!(hat.vendor, "Seeed");
    assert_eq!(hat.product, "ReSpeaker 4-Mic Array");
}

#[test]
fn parse_hat_empty_vendor_returns_none() {
    assert!(parse_hat_info(b"\0", b"some product\0").is_none());
}

#[test]
fn parse_hat_empty_product_returns_none() {
    assert!(parse_hat_info(b"some vendor\0", b"\0").is_none());
}

#[test]
fn parse_hat_invalid_utf8_returns_none() {
    assert!(parse_hat_info(&[0xFF, 0xFE], b"product\0").is_none());
}

#[test]
fn parse_hat_decodes_multibyte_utf8() {
    let hat = parse_hat_info("Café\0".as_bytes(), b"HAT\0").unwrap();
    assert_eq!(hat.vendor, "Café");
}

#[test]
fn discover_does_not_panic_on_any_host() {
    // A host without ALSA cards or a HAT.
    let report = discover(&DeviceConfig::default(), vec![], None);
    assert!(report.i2c_chips.is_empty(), "Phase 3 stub should be empty");
    let _ = report.hat;
}

#[test]
fn discover_warning_when_no_cards_and_no_override() {
    let report = discover(&DeviceConfig::default(), vec![], None);
    assert_eq!(report.warnings.len(), 1);
    for w in &report.warnings {
        assert!(!w.is_empty(), "warning strings must not be empty");
        assert!(w.contains("no ALSA cards"));
    }
}

#[test]
fn discover_no_warning_when_override_set() {
    let config = DeviceConfig { audio_input: Some("hw:2,0".to_string()), audio_output: None };
    let report = discover(&config, vec![], None);
    let has_no_card_warn = report.warnings.iter().any(|w| w.contains("no ALSA cards"));
    assert!(!has_no_card_warn, "override should suppress the no-cards warning");
}

#[test]
fn discover_no_warning_when_cards_found() {
    let cards = parse_alsa_cards(PROC_ASOUND_CARDS);
    let report = discover(&DeviceConfig::default(), cards, None);
    assert!(report.warnings.is_empty());
    assert_eq!(report.alsa_cards.len(), 3);
}

#[test]
fn lookup_gives_the_whole_registry_entry() {
    let chip = lookup_i2c_chip(0x19).unwrap();
    assert_eq!(chip.name, "TLV320AIC3104");
    assert_eq!(chip.description, "Stereo codec (Texas Instruments, ADDR=1)");
    for addr in (0u8..0x08).chain(0x78..=0xFF) {
        assert!(lookup_i2c_chip(addr).is_none());
    }
}
