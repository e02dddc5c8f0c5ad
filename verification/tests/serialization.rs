use tockloader_lib::tbf::parse::{parse_tbf_header, parse_tbf_header_lengths};
use tockloader_lib::tbf::types::{TbfHeader, TbfParseError};

fn put_u16(buffer: &mut Vec<u8>, value: u16) {
    buffer.extend_from_slice(&value.to_le_bytes());
}

fn put_u32(buffer: &mut Vec<u8>, value: u32) {
    buffer.extend_from_slice(&value.to_le_bytes());
}

fn put_name(buffer: &mut Vec<u8>, name: &str) {
    put_u16(buffer, 3);
    put_u16(buffer, name.len() as u16);
    buffer.extend_from_slice(name.as_bytes());
    while buffer.len() % 4 != 0 {
        buffer.push(0);
    }
}

fn seal(header: &mut Vec<u8>) {
    let mut checksum: u32 = 0;
    for (i, chunk) in header.chunks_exact(4).enumerate() {
        if i != 3 {
            checksum ^= u32::from_le_bytes([chunk[0], chunk[1], chunk[2], chunk[3]]);
        }
    }
    header[12..16].copy_from_slice(&checksum.to_le_bytes());
}

fn xor_of_words(header: &[u8]) -> u32 {
    header
        .chunks_exact(4)
        .fold(0, |x, chunk| x ^ u32::from_le_bytes([chunk[0], chunk[1], chunk[2], chunk[3]]))
}

/// An application of 8192 bytes with a Main element, the name `_heart` and
/// kernel version 2.0 in a header of 52 bytes.
fn simple_flash() -> Vec<u8> {
    let mut buffer: Vec<u8> = Vec::new();
    put_u16(&mut buffer, 2);
    put_u16(&mut buffer, 52);
    put_u32(&mut buffer, 8192);
    put_u32(&mut buffer, 1);
    put_u32(&mut buffer, 0);
    put_u16(&mut buffer, 1);
    put_u16(&mut buffer, 12);
    put_u32(&mut buffer, 41);
    put_u32(&mut buffer, 0);
    put_u32(&mut buffer, 4848);
    put_name(&mut buffer, "_heart");
    put_u16(&mut buffer, 8);
    put_u16(&mut buffer, 4);
    put_u16(&mut buffer, 2);
    put_u16(&mut buffer, 0);
    seal(&mut buffer);
    buffer.resize(8192, 0);
    buffer
}

/// An application with a Main and a Program element in a header of 76
/// bytes, and zeros behind it.
fn program_flash(total: u32, ram: u32, binary_end: u32, name: &str) -> Vec<u8> {
    let mut buffer: Vec<u8> = Vec::new();
    put_u16(&mut buffer, 2);
    put_u16(&mut buffer, 76);
    put_u32(&mut buffer, total);
    put_u32(&mut buffer, 1);
    put_u32(&mut buffer, 0);
    put_u16(&mut buffer, 1);
    put_u16(&mut buffer, 12);
    put_u32(&mut buffer, 41);
    put_u32(&mut buffer, 0);
    put_u32(&mut buffer, ram);
    put_u16(&mut buffer, 9);
    put_u16(&mut buffer, 20);
    put_u32(&mut buffer, 41);
    put_u32(&mut buffer, 0);
    put_u32(&mut buffer, ram);
    put_u32(&mut buffer, binary_end);
    put_u32(&mut buffer, 0);
    put_name(&mut buffer, name);
    put_u16(&mut buffer, 8);
    put_u16(&mut buffer, 4);
    put_u16(&mut buffer, 2);
    put_u16(&mut buffer, 0);
    seal(&mut buffer);
    buffer.resize(total as usize, 0);
    buffer
}

// Serialization

#[test]
fn serialize_identical_with_original() {
    let buffer: Vec<u8> = simple_flash();

    let (_, header_len, _) = parse_tbf_header_lengths(&buffer[0..8].try_into().unwrap())
        .ok()
        .unwrap();

    let header = parse_tbf_header(&buffer[0..header_len as usize], 2).unwrap();
    let serialized = header.serialize().unwrap();

    // Check if serialize matches original buffer
    assert_eq!(&buffer[0..16], &serialized[..]);
}

// Flag modifications
#[test]
fn flags_modifications() {
    let mut buffer = program_flash(8192, 4848, 5836, "_heart");
    let (_, header_len, _) = parse_tbf_header_lengths(&buffer[0..8].try_into().unwrap())
        .ok()
        .unwrap();

    let mut header = parse_tbf_header(&buffer[0..header_len as usize], 2).unwrap();
    assert!(header.enabled());
    header
        .set_sticky(true, &buffer[0..header_len as usize])
        .unwrap();
    // Set sticky without parsing
    assert!(header.sticky());
    // Unset
    header
        .set_sticky(false, &buffer[0..header_len as usize])
        .unwrap();

    // Disable
    header
        .set_enabled(false, &buffer[0..header_len as usize])
        .unwrap();
    let serialized = header.serialize().unwrap();
    buffer[0..16].copy_from_slice(&serialized);

    let reparsed = parse_tbf_header(&buffer[0..header_len as usize], 2).unwrap();
    assert!(!reparsed.enabled());

    // Enable
    let mut header = reparsed;
    header
        .set_enabled(true, &buffer[0..header_len as usize])
        .unwrap();
    let serialized = header.serialize().unwrap();
    buffer[0..16].copy_from_slice(&serialized);

    let reparsed = parse_tbf_header(&buffer[0..header_len as usize], 2).unwrap();
    assert!(reparsed.enabled());
}

#[test]
fn padding_header_set_flags() {
    let buffer = vec![
        0x02, 0x00, 0x10, 0x00, 0x10, 0x00, 0x00, 0x00, 0x00, 0x00, 0x00, 0x00, 0x12, 0x00, 0x10,
        0x00,
    ];

    let (_, header_len, _) = parse_tbf_header_lengths(&buffer[0..8].try_into().unwrap())
        .ok()
        .unwrap();
    let mut header = parse_tbf_header(&buffer[0..header_len as usize], 2).unwrap();

    assert!(!header.is_app());

    let serialized = header.serialize();
    assert!(serialized.is_ok());

    assert!(header.set_flags(0x06000001, &buffer).is_ok());

    let serialized = header.serialize().unwrap();
    let flags = u32::from_le_bytes(serialized[8..12].try_into().unwrap());
    assert_eq!(flags, 0x06000001);
}

#[test]
fn fields_preserved() {
    let buffer = simple_flash();
    let (_, header_len, _) = parse_tbf_header_lengths(&buffer[0..8].try_into().unwrap())
        .ok()
        .unwrap();

    let mut header = parse_tbf_header(&buffer[0..header_len as usize], 2).unwrap();

    let header_size = header.header_size();
    let total_size = header.total_size();

    header
        .set_flags(0x00000003, &buffer[0..header_len as usize])
        .unwrap();
    let serialized = header.serialize().unwrap();

    let _version = u16::from_le_bytes(serialized[0..2].try_into().unwrap());
    let _header_size = u16::from_le_bytes(serialized[2..4].try_into().unwrap());
    let _total_size = u32::from_le_bytes(serialized[4..8].try_into().unwrap());

    // Check other fields are unchanged
    assert_eq!(_version, 2);
    assert_eq!(header_size, _header_size);
    assert_eq!(total_size, _total_size);
}

#[test]
fn multiple_flags_set() {
    let buffer = simple_flash();
    let (_, header_len, _) = parse_tbf_header_lengths(&buffer[0..8].try_into().unwrap())
        .ok()
        .unwrap();

    let mut header = parse_tbf_header(&buffer[0..header_len as usize], 2).unwrap();

    // Trying to set multiple times to check consistency
    for i in 1..21 {
        header
            .set_flags(i, &buffer[0..header_len as usize])
            .unwrap();
        assert_eq!(header.enabled(), i % 2 == 1);
    }
}

// Checksum //
#[test]
fn checksum() {
    // Try with empty_buffer
    let empty_buffer: Vec<u8> = vec![];
    let result = TbfHeader::compute_checksum(&empty_buffer, 0x00000006D);
    assert_eq!(result.unwrap(), 0x00000000);

    let mut buffer = simple_flash();
    let (_, header_len, _) = parse_tbf_header_lengths(&buffer[0..8].try_into().unwrap())
        .ok()
        .unwrap();

    let mut header = parse_tbf_header(&buffer[0..header_len as usize], 2).unwrap();

    // Test with array of multiple flags for checksum validation
    for flags in [0x000FABCD, 0x00000001, 0x00000002, 0x00000003] {
        header
            .set_flags(flags, &buffer[0..header_len as usize])
            .unwrap();
        let serialized = header.serialize().unwrap();
        buffer[0..16].copy_from_slice(&serialized);

        let result = parse_tbf_header(&buffer[0..header_len as usize], 2);
        assert!(result.is_ok(), "Checksum validation failed for {flags}");
    }
}

// Complete use //
#[test]
fn serialization_multiple_checks() {
    let mut buffer = program_flash(4096, 4612, 1168, "c_hello");
    let (_, header_len, _) = parse_tbf_header_lengths(&buffer[0..8].try_into().unwrap())
        .ok()
        .unwrap();

    let mut header = parse_tbf_header(&buffer[0..header_len as usize], 2).unwrap();
    assert!(header.enabled());

    // Disable
    header
        .set_enabled(false, &buffer[0..header_len as usize])
        .unwrap();
    let serialized = header.serialize().unwrap();
    buffer[0..16].copy_from_slice(&serialized);

    let header = parse_tbf_header(&buffer[0..header_len as usize], 2).unwrap();
    assert!(!header.enabled());

    // Enable and set sticky
    let mut header = header;
    header
        .set_enabled(true, &buffer[0..header_len as usize])
        .unwrap();
    header
        .set_sticky(true, &buffer[0..header_len as usize])
        .unwrap();
    let serialized = header.serialize().unwrap();
    buffer[0..16].copy_from_slice(&serialized);

    let header = parse_tbf_header(&buffer[0..header_len as usize], 2).unwrap();
    assert!(header.enabled());
    assert!(header.sticky());

    // Disable sticky with high bits
    let flags = 0xD6D6FFF1;
    let mut header = header;
    header
        .set_flags(flags, &buffer[0..header_len as usize])
        .unwrap();
    let serialized = header.serialize().unwrap();
    buffer[0..16].copy_from_slice(&serialized);

    let header = parse_tbf_header(&buffer[0..header_len as usize], 2).unwrap();
    assert!(header.enabled());
    assert!(!header.sticky());
    let flags_buffer = u32::from_le_bytes(buffer[8..12].try_into().unwrap());
    assert_eq!(flags_buffer, flags);
}

#[test]
fn corrupt() {
    let mut buffer = simple_flash();
    let (_, header_len, _) = parse_tbf_header_lengths(&buffer[0..8].try_into().unwrap())
        .ok()
        .unwrap();

    // Corrupt the checksum manually and check for parsing error
    buffer[12] ^= 0x6D;

    let result = parse_tbf_header(&buffer[0..header_len as usize], 2);
    assert!(result.is_err());
}

#[test]
fn corrupt_checksum_is_reported_as_a_mismatch() {
    let mut buffer = simple_flash();
    let stored = u32::from_le_bytes(buffer[12..16].try_into().unwrap());
    buffer[12] ^= 0x6D;
    assert_eq!(
        parse_tbf_header(&buffer[0..52], 2).unwrap_err(),
        TbfParseError::ChecksumMismatch(stored ^ 0x6D, stored)
    );
}

#[test]
fn every_single_bit_of_the_checksum_is_guarded() {
    let buffer = simple_flash();
    let stored = u32::from_le_bytes(buffer[12..16].try_into().unwrap());
    for bit in 0..32 {
        let mut corrupted = buffer[0..52].to_vec();
        corrupted[12 + bit / 8] ^= 1 << (bit % 8);
        assert_eq!(
            parse_tbf_header(&corrupted, 2).unwrap_err(),
            TbfParseError::ChecksumMismatch(stored ^ (1 << bit), stored)
        );
    }
}

#[test]
fn checksum_of_known_words() {
    // Words 0x00100002 and 0x00000040, then flags and checksum, then
    // 0x11223344; three odd bytes at the end take no part.
    let mut header: Vec<u8> = Vec::new();
    put_u32(&mut header, 0x0010_0002);
    put_u32(&mut header, 0x0000_0040);
    put_u32(&mut header, 0xAAAA_AAAA);
    put_u32(&mut header, 0xBBBB_BBBB);
    put_u32(&mut header, 0x1122_3344);
    header.extend_from_slice(&[9, 9, 9]);
    assert_eq!(
        TbfHeader::compute_checksum(&header, 1).unwrap(),
        0x0010_0002 ^ 0x40 ^ 1 ^ 0x1122_3344
    );
    assert_eq!(
        TbfHeader::compute_checksum(&header[0..8], 0xFFFF_FFFF).unwrap(),
        0x0010_0002 ^ 0x40
    );
    assert_eq!(
        TbfHeader::compute_checksum(&header[0..12], 0x0F0F_0F0F).unwrap(),
        0x0010_0002 ^ 0x40 ^ 0x0F0F_0F0F
    );
}

#[test]
fn set_flags_keeps_the_xor_of_all_words_at_zero() {
    let mut buffer = simple_flash();
    let mut header = parse_tbf_header(&buffer[0..52], 2).unwrap();
    for flags in [0u32, 1, 2, 3, 0x8000_0000, 0xFFFF_FFFF, 0x1234_5678] {
        header.set_flags(flags, &buffer[0..52]).unwrap();
        buffer[0..16].copy_from_slice(&header.serialize().unwrap());
        assert_eq!(xor_of_words(&buffer[0..52]), 0);
        assert_eq!(
            TbfHeader::compute_checksum(&buffer[0..52], flags).unwrap(),
            header.checksum()
        );
    }
}

#[test]
fn disabling_and_enabling_restores_the_prologue() {
    let original = simple_flash();
    let mut buffer = original.clone();
    let mut header = parse_tbf_header(&buffer[0..52], 2).unwrap();
    assert!(header.enabled());

    header.set_flags(0, &buffer[0..52]).unwrap();
    buffer[0..16].copy_from_slice(&header.serialize().unwrap());
    assert_eq!(&buffer[8..12], &[0, 0, 0, 0]);
    assert_eq!(xor_of_words(&buffer[0..52]), 0);
    let mut header = parse_tbf_header(&buffer[0..52], 2).unwrap();
    assert!(!header.enabled());

    header.set_flags(1, &buffer[0..52]).unwrap();
    buffer[0..16].copy_from_slice(&header.serialize().unwrap());
    assert_eq!(&buffer[0..16], &original[0..16]);
}

#[test]
fn set_flags_twice_is_set_flags_once() {
    let buffer = simple_flash();
    let mut once = parse_tbf_header(&buffer[0..52], 2).unwrap();
    once.set_flags(0xABCD_0003, &buffer[0..52]).unwrap();
    let mut twice = parse_tbf_header(&buffer[0..52], 2).unwrap();
    twice.set_flags(0xABCD_0003, &buffer[0..52]).unwrap();
    twice.set_flags(0xABCD_0003, &buffer[0..52]).unwrap();
    assert_eq!(once.serialize().unwrap(), twice.serialize().unwrap());
}

#[test]
fn high_bits_survive_enable_and_sticky() {
    let buffer = simple_flash();
    let mut header = parse_tbf_header(&buffer[0..52], 2).unwrap();
    header.set_flags(0xD6D6_FFF0, &buffer[0..52]).unwrap();
    for (enabled, sticky) in [(true, true), (false, true), (true, false), (false, false)] {
        header.set_enabled(enabled, &buffer[0..52]).unwrap();
        header.set_sticky(sticky, &buffer[0..52]).unwrap();
        assert_eq!(header.enabled(), enabled);
        assert_eq!(header.sticky(), sticky);
        assert_eq!(
            header.get_application_flags() & 0xFFFF_FFFC,
            0xD6D6_FFF0
        );
        assert_eq!(
            header.get_application_flags() & 3,
            (enabled as u32) | ((sticky as u32) << 1)
        );
    }
    // Setting the value that is there changes nothing.
    let before = header.serialize().unwrap();
    header.set_enabled(false, &buffer[0..52]).unwrap();
    header.set_sticky(false, &buffer[0..52]).unwrap();
    assert_eq!(header.serialize().unwrap(), before);
}
