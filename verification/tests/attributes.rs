use tockloader_lib::attributes::decode::{decode_attribute, decode_slots, padded_text};
use tockloader_lib::attributes::system_attributes::{
    SystemAttributes, ATTRIBUTES_ADDRESS, ATTRIBUTES_SIZE, BOOTLOADER_VERSION_ADDRESS,
    BOOTLOADER_VERSION_SIZE, KERNEL_ATTRIBUTES_SIZE,
};
use tockloader_lib::errors::{AttributeParseError, TockError};
use tockloader_lib::text::{parse_hex, text_of_utf8, trim_end_nul, trim_nul};

fn slot(key: &str, value: &[u8]) -> Vec<u8> {
    let mut slot = vec![0u8; 64];
    slot[0..key.len()].copy_from_slice(key.as_bytes());
    slot[8] = value.len() as u8;
    slot[9..9 + value.len()].copy_from_slice(value);
    slot
}

fn region() -> Vec<u8> {
    let mut region: Vec<u8> = Vec::new();
    region.extend_from_slice(&slot("board", b"microbit_v2"));
    region.extend_from_slice(&slot("arch", b"cortex-m4"));
    region.extend_from_slice(&slot("appaddr", b"0x40000"));
    region.extend_from_slice(&slot("boothash", b"9f2e4a6c"));
    region.extend_from_slice(&slot("extra", b"one"));
    region.resize(1024, 0);
    region
}

#[test]
fn a_slot_holds_a_key_and_a_value() {
    let attribute = decode_attribute(&slot("board", b"nucleo_f4")).unwrap();
    assert_eq!(attribute.key, "board");
    assert_eq!(attribute.value, "nucleo_f4");

    // A key of eight bytes has no padding; a value of 55 bytes fills the slot.
    let long = [b'x'; 55];
    let attribute = decode_attribute(&slot("boothash", &long)).unwrap();
    assert_eq!(attribute.key, "boothash");
    assert_eq!(attribute.value.len(), 55);

    // The padding of a value is dropped.
    let attribute = decode_attribute(&slot("arch", b"rv32\0\0")).unwrap();
    assert_eq!(attribute.value, "rv32");
}

#[test]
fn a_slot_with_a_bad_value_length_holds_nothing() {
    let mut empty = slot("board", b"");
    assert!(decode_attribute(&empty).is_none());
    empty[8] = 56;
    assert!(decode_attribute(&empty).is_none());
    empty[8] = 255;
    assert!(decode_attribute(&empty).is_none());
    empty[8] = 55;
    assert!(decode_attribute(&empty).is_some());
    empty[8] = 1;
    assert!(decode_attribute(&empty).is_some());
}

#[test]
fn a_slot_that_is_cut_short_holds_nothing() {
    let whole = slot("board", b"hail");
    assert!(decode_attribute(&whole[0..8]).is_none());
    assert!(decode_attribute(&whole[0..12]).is_none());
    assert!(decode_attribute(&whole[0..13]).is_some());
    assert!(decode_attribute(&[]).is_none());
}

#[test]
fn text_is_decoded_not_copied() {
    // Two bytes that encode one character.
    assert_eq!(padded_text(&[0xC3, 0xA9, 0, 0]), Some("\u{e9}".to_string()));
    assert_eq!(padded_text(&[0xE2, 0x82, 0xAC]), Some("\u{20ac}".to_string()));
    assert_eq!(padded_text(b"TOCK"), Some("TOCK".to_string()));
    assert_eq!(padded_text(&[0, 0, 0]), Some(String::new()));
    // A lead byte without what follows it, and a stray continuation byte.
    assert_eq!(padded_text(&[0x41, 0xC3]), None);
    assert_eq!(padded_text(&[0x80, 0x41]), None);
    assert!(decode_attribute(&slot("board", &[0xC3, 0x28])).is_none());
    assert!(decode_attribute(&slot("\u{e9}", b"ok")).is_some());
}

#[test]
fn a_bad_slot_leaves_its_neighbours_alone() {
    let mut region = region();
    // The second slot gets a value length of zero, the fourth one of 56.
    region[64 + 8] = 0;
    region[3 * 64 + 8] = 56;
    let slots = decode_slots(&region);
    assert_eq!(slots.len(), 16);
    assert_eq!(slots[0].as_ref().unwrap().value, "microbit_v2");
    assert!(slots[1].is_none());
    assert_eq!(slots[2].as_ref().unwrap().value, "0x40000");
    assert!(slots[3].is_none());
    assert_eq!(slots[4].as_ref().unwrap().key, "extra");
    for empty in &slots[5..] {
        assert!(empty.is_none());
    }
}

#[test]
fn slots_are_counted_with_a_short_last_one() {
    assert_eq!(decode_slots(&[]).len(), 0);
    assert_eq!(decode_slots(&[0; 64]).len(), 1);
    assert_eq!(decode_slots(&[0; 65]).len(), 2);
    let mut region = region();
    region.truncate(64 + 20);
    let slots = decode_slots(&region);
    assert_eq!(slots.len(), 2);
    assert_eq!(slots[1].as_ref().unwrap().value, "cortex-m4");
}

#[test]
fn the_first_four_slots_are_named() {
    let mut attributes = SystemAttributes::new();
    assert!(attributes.board.is_none());
    assert!(attributes.appaddr.is_none());
    attributes.read_slots(&region()).unwrap();
    assert_eq!(attributes.board.as_deref(), Some("microbit_v2"));
    assert_eq!(attributes.arch.as_deref(), Some("cortex-m4"));
    assert_eq!(attributes.appaddr, Some(0x40000));
    assert_eq!(attributes.boothash.as_deref(), Some("9f2e4a6c"));
    assert_eq!(attributes.other.len(), 1);
    assert_eq!(attributes.other[0].key, "extra");
    assert_eq!(attributes.other[0].value, "one");
    assert!(attributes.bootloader_version.is_none());
    assert_eq!(ATTRIBUTES_ADDRESS, 0x600);
    assert_eq!(ATTRIBUTES_SIZE, 1024);
}

#[test]
fn an_address_that_is_no_number_is_an_error() {
    let mut region = region();
    region[128..192].copy_from_slice(&slot("appaddr", b"0x4000g"));
    let mut attributes = SystemAttributes::new();
    assert!(matches!(
        attributes.read_slots(&region),
        Err(TockError::AttributeParsing(AttributeParseError::InvalidNumber))
    ));

    // Without the slot there is no address and no error.
    region[128 + 8] = 0;
    let mut attributes = SystemAttributes::new();
    attributes.read_slots(&region).unwrap();
    assert_eq!(attributes.appaddr, None);
    assert_eq!(attributes.boothash.as_deref(), Some("9f2e4a6c"));
}

#[test]
fn bootloader_version_is_trimmed() {
    let mut attributes = SystemAttributes::new();
    attributes.read_bootloader_version(b"1.1.3\0\0\0").unwrap();
    assert_eq!(attributes.bootloader_version.as_deref(), Some("1.1.3"));
    attributes.read_bootloader_version(b"\0\01.0\0\0\0").unwrap();
    assert_eq!(attributes.bootloader_version.as_deref(), Some("1.0"));
    attributes.read_bootloader_version(&[0; 8]).unwrap();
    assert_eq!(attributes.bootloader_version.as_deref(), Some(""));
    assert!(matches!(
        attributes.read_bootloader_version(&[0xFF, 0xFE, 0, 0, 0, 0, 0, 0]),
        Err(TockError::AttributeParsing(AttributeParseError::InvalidString))
    ));
    assert_eq!(BOOTLOADER_VERSION_ADDRESS, 0x40E);
    assert_eq!(BOOTLOADER_VERSION_SIZE, 8);
}

#[test]
fn kernel_attributes_lie_a_hundred_bytes_before_the_apps() {
    let mut attributes = SystemAttributes::new();
    match attributes.kernel_attributes_address() {
        Err(TockError::MissingAttribute(name)) => assert_eq!(name, "appaddr"),
        _ => panic!("an address without a start of applications"),
    }
    attributes.appaddr = Some(0x40000);
    assert_eq!(attributes.kernel_attributes_address().unwrap(), 0x40000 - 100);
    attributes.appaddr = Some(100);
    assert_eq!(attributes.kernel_attributes_address().unwrap(), 0);
    attributes.appaddr = Some(99);
    assert!(matches!(
        attributes.kernel_attributes_address(),
        Err(TockError::AttributeParsing(AttributeParseError::InvalidNumber))
    ));
    assert_eq!(KERNEL_ATTRIBUTES_SIZE, 100);
}

#[test]
fn kernel_attributes_are_read_at_their_offsets() {
    let mut raw = vec![0u8; 100];
    raw[0..4].copy_from_slice(&0x0001_0000u32.to_le_bytes());
    raw[4..8].copy_from_slice(&0x0003_0000u32.to_le_bytes());
    raw[80..84].copy_from_slice(&0x2000_4000u32.to_le_bytes());
    raw[84..88].copy_from_slice(&0x0001_C000u32.to_le_bytes());
    raw[95] = 2;
    raw[96..100].copy_from_slice(b"TOCK");
    let mut attributes = SystemAttributes::new();
    attributes.board = Some("hail".to_string());
    attributes.read_kernel_attributes(&raw).unwrap();
    assert_eq!(attributes.sentinel.as_deref(), Some("TOCK"));
    assert_eq!(attributes.kernel_version, Some(2));
    assert_eq!(attributes.app_mem_start, Some(0x2000_4000));
    assert_eq!(attributes.app_mem_len, Some(0x0001_C000));
    assert_eq!(attributes.kernel_bin_start, Some(0x0001_0000));
    assert_eq!(attributes.kernel_bin_len, Some(0x0003_0000));
    assert_eq!(attributes.board.as_deref(), Some("hail"));

    raw[96] = 0xFF;
    let mut attributes = SystemAttributes::new();
    assert!(matches!(
        attributes.read_kernel_attributes(&raw),
        Err(TockError::AttributeParsing(AttributeParseError::InvalidString))
    ));
    assert!(attributes.kernel_version.is_none());
}

#[test]
fn hexadecimal_addresses() {
    assert_eq!(parse_hex(b"40000"), Some(0x40000));
    assert_eq!(parse_hex(b"0x40000"), Some(0x40000));
    assert_eq!(parse_hex(b"0x0x10"), Some(0x10));
    assert_eq!(parse_hex(b"+1f"), Some(0x1F));
    assert_eq!(parse_hex(b"0x+1F"), Some(0x1F));
    assert_eq!(parse_hex(b"aBcDeF"), Some(0xABCDEF));
    assert_eq!(parse_hex(b"0"), Some(0));
    assert_eq!(parse_hex(b"00x10"), None);
    assert_eq!(parse_hex(b"FFFFFFFFFFFFFFFF"), Some(u64::MAX));
    assert_eq!(parse_hex(b"0000000000000000000001"), Some(1));
    assert_eq!(parse_hex(b"10000000000000000"), None);
    assert_eq!(parse_hex(b""), None);
    assert_eq!(parse_hex(b"0x"), None);
    assert_eq!(parse_hex(b"+"), None);
    assert_eq!(parse_hex(b"-1"), None);
    assert_eq!(parse_hex(b"++1"), None);
    assert_eq!(parse_hex(b"0X10"), None);
    assert_eq!(parse_hex(b"12g"), None);
    assert_eq!(parse_hex(b"1 "), None);
    assert_eq!(parse_hex(b" 1"), None);
}

#[test]
fn zero_bytes_are_trimmed() {
    assert_eq!(trim_end_nul(b"abc\0\0"), b"abc");
    assert_eq!(trim_end_nul(b"\0a\0b\0"), b"\0a\0b");
    assert_eq!(trim_end_nul(b"\0\0"), b"");
    assert_eq!(trim_end_nul(b""), b"");
    assert_eq!(trim_nul(b"\0\0abc\0"), b"abc");
    assert_eq!(trim_nul(b"a\0b"), b"a\0b");
    assert_eq!(trim_nul(b"\0\0\0"), b"");
}

#[test]
fn strict_text_takes_well_formed_utf8_only() {
    assert_eq!(text_of_utf8(b"_heart"), Some("_heart".to_string()));
    assert_eq!(text_of_utf8(&[0xC3, 0xA9]), Some("\u{e9}".to_string()));
    assert_eq!(text_of_utf8(b"a\0b"), Some("a\0b".to_string()));
    assert_eq!(text_of_utf8(&[]), Some(String::new()));
    // A lead byte alone, an overlong encoding and a surrogate.
    assert_eq!(text_of_utf8(&[0xC3]), None);
    assert_eq!(text_of_utf8(&[0xC0, 0x80]), None);
    assert_eq!(text_of_utf8(&[0xED, 0xA0, 0x80]), None);
}
