use tockloader_lib::attributes::decode::DecodedAttribute;
use tockloader_lib::attributes::system_attributes::SystemAttributes;
use tockloader_lib::bytes::{push_u16, push_u32, read_u16, read_u32, read_u64};
use tockloader_lib::command_impl::reshuffle_apps::append_bytes;
use tockloader_lib::devices::{
    ConnectedDevices, DebugProbeSummary, ProbeInfo, SerialPortSummary,
};
use tockloader_lib::errors::{AttributeParseError, TockError};
use tockloader_lib::tbf::checksum::checksum_for;
use tockloader_lib::tbf::parse::{copy_range, parse_tbf_header};
use tockloader_lib::text::{
    decimal_number, digit, first, hex_number, list_items, parse_version, trim, trim_end,
};

#[test]
fn integers_are_read_least_significant_byte_first() {
    let bytes = [0x01, 0x02, 0x03, 0x04, 0x05, 0x06, 0x07, 0x08, 0x09];
    assert_eq!(read_u16(&bytes, 0), 0x0201);
    assert_eq!(read_u16(&bytes, 7), 0x0908);
    assert_eq!(read_u32(&bytes, 0), 0x0403_0201);
    assert_eq!(read_u32(&bytes, 5), 0x0908_0706);
    assert_eq!(read_u64(&bytes, 0), 0x0807_0605_0403_0201);
    assert_eq!(read_u64(&bytes, 1), 0x0908_0706_0504_0302);
    assert_eq!(read_u32(&[0xFF, 0xFF, 0xFF, 0xFF], 0), u32::MAX);
}

#[test]
fn integers_are_written_least_significant_byte_first() {
    let mut buffer = vec![0xAA];
    push_u16(&mut buffer, 0x1234);
    push_u32(&mut buffer, 0x89AB_CDEF);
    push_u16(&mut buffer, 0);
    push_u32(&mut buffer, u32::MAX);
    assert_eq!(
        buffer,
        vec![0xAA, 0x34, 0x12, 0xEF, 0xCD, 0xAB, 0x89, 0, 0, 0xFF, 0xFF, 0xFF, 0xFF]
    );
    assert_eq!(read_u16(&buffer, 1), 0x1234);
    assert_eq!(read_u32(&buffer, 3), 0x89AB_CDEF);
}

#[test]
fn bytes_are_copied_and_appended() {
    let bytes = [10, 20, 30, 40, 50];
    assert_eq!(copy_range(&bytes, 1, 4), vec![20, 30, 40]);
    assert_eq!(copy_range(&bytes, 0, 5), bytes.to_vec());
    assert_eq!(copy_range(&bytes, 3, 3), Vec::<u8>::new());
    let mut out = vec![1, 2];
    append_bytes(&mut out, &bytes[3..]);
    append_bytes(&mut out, &[]);
    assert_eq!(out, vec![1, 2, 40, 50]);
}

#[test]
fn the_checksum_is_the_xor_of_the_words_but_its_own() {
    let mut header: Vec<u8> = Vec::new();
    for word in [0x0034_0002u32, 0x0000_2000, 0x0000_0001, 0xDEAD_BEEF, 0x0102_0304] {
        push_u32(&mut header, word);
    }
    // The flags given stand in for the flags stored.
    assert_eq!(
        checksum_for(&header, 1),
        0x0034_0002 ^ 0x0000_2000 ^ 1 ^ 0x0102_0304
    );
    assert_eq!(
        checksum_for(&header, 0x8000_0000),
        0x0034_0002 ^ 0x0000_2000 ^ 0x8000_0000 ^ 0x0102_0304
    );
    assert_eq!(checksum_for(&[], 5), 0);
    assert_eq!(checksum_for(&[1, 2, 3], 5), 0);
}

#[test]
fn digits_and_numbers() {
    assert_eq!(digit(b'0'), Some(0));
    assert_eq!(digit(b'9'), Some(9));
    assert_eq!(digit(b'a'), Some(10));
    assert_eq!(digit(b'f'), Some(15));
    assert_eq!(digit(b'z'), Some(35));
    assert_eq!(digit(b'A'), Some(10));
    assert_eq!(digit(b'F'), Some(15));
    assert_eq!(digit(b'Z'), Some(35));
    for other in [b'/', b':', b'@', b'[', b'`', b'{', b' ', b'+', 0, 0xFF] {
        assert_eq!(digit(other), None);
    }
    assert_eq!(hex_number(b"1f"), Some(0x1F));
    assert_eq!(hex_number(b"00040080"), Some(0x40080));
    assert_eq!(hex_number(b""), None);
    assert_eq!(hex_number(b"0x1f"), None);
    assert_eq!(hex_number(b"1g"), None);
    assert_eq!(hex_number(b"+1"), None);
    assert_eq!(hex_number(b"ffffffffffffffff"), Some(u64::MAX));
    assert_eq!(hex_number(b"10000000000000000"), None);
    assert_eq!(decimal_number(b"0"), Some(0));
    assert_eq!(decimal_number(b"0042"), Some(42));
    assert_eq!(decimal_number(b"18446744073709551615"), Some(u64::MAX));
    assert_eq!(decimal_number(b"18446744073709551616"), None);
    assert_eq!(decimal_number(b"1a"), None);
    assert_eq!(decimal_number(b""), None);
    assert_eq!(decimal_number(b"-1"), None);
}

#[test]
fn versions() {
    assert_eq!(parse_version(b"2.1"), Some((2, 1)));
    assert_eq!(parse_version(b"2"), Some((2, 0)));
    assert_eq!(parse_version(b"10.042"), Some((10, 42)));
    assert_eq!(parse_version(b"4294967295.4294967295"), Some((u32::MAX, u32::MAX)));
    assert_eq!(parse_version(b"4294967296.0"), None);
    assert_eq!(parse_version(b"0.4294967296"), None);
    assert_eq!(parse_version(b""), None);
    assert_eq!(parse_version(b"2."), None);
    assert_eq!(parse_version(b".1"), None);
    assert_eq!(parse_version(b"2.1.0"), None);
    assert_eq!(parse_version(b"v2.1"), None);
    assert_eq!(parse_version(b" 2.1"), None);
}

#[test]
fn lists_are_split_at_commas() {
    let items = |text: &[u8]| -> Vec<String> {
        list_items(text)
            .into_iter()
            .map(|item| String::from_utf8(item).unwrap())
            .collect()
    };
    assert_eq!(items(b"hail, imix,microbit_v2"), vec!["hail", "imix", "microbit_v2"]);
    assert_eq!(items(b"hail"), vec!["hail"]);
    assert_eq!(items(b"  nrf52 dk  "), vec!["nrf52 dk"]);
    assert_eq!(items(b",a,, b ,"), vec!["a", "b"]);
    assert!(items(b"").is_empty());
    assert!(items(b" , ,").is_empty());
}

#[test]
fn padding_is_trimmed_and_marks_are_found() {
    assert_eq!(trim(b"  a b  ", b' '), b"a b");
    assert_eq!(trim(b"xxx", b'x'), b"");
    assert_eq!(trim(b"", b'x'), b"");
    assert_eq!(trim_end(b"  a  ", b' '), b"  a");
    assert_eq!(first(b"a.b.c", b'.'), 1);
    assert_eq!(first(b".abc", b'.'), 0);
    assert_eq!(first(b"abc", b'.'), 3);
    assert_eq!(first(b"", b'.'), 0);
}

#[test]
fn a_slot_goes_to_the_field_of_its_index() {
    let attribute = |value: &str| {
        Some(DecodedAttribute::new("key".to_string(), value.to_string()))
    };
    let mut attributes = SystemAttributes::new();
    attributes.read_slot(0, attribute("imix")).unwrap();
    attributes.read_slot(1, attribute("cortex-m4")).unwrap();
    attributes.read_slot(2, attribute("0x30000")).unwrap();
    attributes.read_slot(3, attribute("abc")).unwrap();
    attributes.read_slot(4, attribute("four")).unwrap();
    attributes.read_slot(15, attribute("last")).unwrap();
    attributes.read_slot(7, None).unwrap();
    assert_eq!(attributes.board.as_deref(), Some("imix"));
    assert_eq!(attributes.arch.as_deref(), Some("cortex-m4"));
    assert_eq!(attributes.appaddr, Some(0x30000));
    assert_eq!(attributes.boothash.as_deref(), Some("abc"));
    let other: Vec<&str> = attributes.other.iter().map(|a| a.value.as_str()).collect();
    assert_eq!(other, vec!["four", "last"]);

    // An empty slot changes nothing; a bad address is an error and changes
    // nothing either.
    attributes.read_slot(0, None).unwrap();
    assert_eq!(attributes.board.as_deref(), Some("imix"));
    assert!(matches!(
        attributes.read_slot(2, attribute("forty")),
        Err(TockError::AttributeParsing(AttributeParseError::InvalidNumber))
    ));
    assert_eq!(attributes.appaddr, Some(0x30000));
}

#[test]
fn writeable_flash_regions_are_listed() {
    let mut header: Vec<u8> = Vec::new();
    push_u16(&mut header, 2);
    push_u16(&mut header, 36);
    push_u32(&mut header, 1024);
    push_u32(&mut header, 1);
    push_u32(&mut header, 0);
    push_u16(&mut header, 2);
    push_u16(&mut header, 16);
    push_u32(&mut header, 0x100);
    push_u32(&mut header, 0x80);
    push_u32(&mut header, 0x200);
    push_u32(&mut header, 0x40);
    let sum: u32 = checksum_for(&header, 1);
    header[12..16].copy_from_slice(&sum.to_le_bytes());

    let parsed = parse_tbf_header(&header, 2).unwrap();
    assert_eq!(parsed.number_writeable_flash_regions(), 2);
    assert_eq!(parsed.get_writeable_flash_region(0), (0x100, 0x80));
    assert_eq!(parsed.get_writeable_flash_region(1), (0x200, 0x40));
    assert_eq!(parsed.get_writeable_flash_region(2), (0, 0));

    // A list that is no whole number of regions is refused.
    header[18] = 12;
    let sum: u32 = checksum_for(&header, 1);
    header[12..16].copy_from_slice(&sum.to_le_bytes());
    assert!(parse_tbf_header(&header, 2).is_err());
}

#[test]
fn device_records_hold_what_they_are_given() {
    let info = ProbeInfo::new(3, "/dev/ttyACM0".to_string(), "UsbPort".to_string());
    assert_eq!(*info.port(), 3);
    assert_eq!(info.port_name(), "/dev/ttyACM0");
    assert_eq!(info.port_probe(), "UsbPort");
    let devices = ConnectedDevices {
        debug_probes: vec![DebugProbeSummary {
            identifier: "J-Link".to_string(),
            vendor_id: 0x1366,
            product_id: 0x1015,
            serial_number: None,
        }],
        serial_ports: vec![SerialPortSummary {
            port_name: "/dev/ttyACM0".to_string(),
            usb_vid: Some(0x0d28),
            usb_pid: Some(0x0204),
            manufacturer: None,
            product: Some("BBC micro:bit".to_string()),
            serial_number: None,
        }],
    };
    assert_eq!(devices.debug_probes[0].vendor_id, 0x1366);
    assert_eq!(devices.serial_ports[0].usb_pid, Some(0x0204));
}
