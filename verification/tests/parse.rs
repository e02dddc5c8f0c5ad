use tockloader_lib::tbf::parse::{parse_tbf_footer, parse_tbf_header, parse_tbf_header_lengths};
use tockloader_lib::tbf::permissions::{
    decode_permissions, decode_storage_permissions, TbfHeaderDriverPermission,
};
use tockloader_lib::tbf::types::{
    InitialTbfParseError, TbfFooterV2Credentials, TbfFooterV2CredentialsType, TbfParseError,
};

fn put_u16(buffer: &mut Vec<u8>, value: u16) {
    buffer.extend_from_slice(&value.to_le_bytes());
}

fn put_u32(buffer: &mut Vec<u8>, value: u32) {
    buffer.extend_from_slice(&value.to_le_bytes());
}

fn put_name(buffer: &mut Vec<u8>, name: &str) {
    put_u16(buffer, 3);
    put_u16(buffer, name.len() as u16);
    buffer.extend_from_slice(name.as_bytes());
    while buffer.len() % 4 != 0 {
        buffer.push(0);
    }
}

fn seal(header: &mut Vec<u8>) {
    let mut checksum: u32 = 0;
    for (i, chunk) in header.chunks_exact(4).enumerate() {
        if i != 3 {
            checksum ^= u32::from_le_bytes([chunk[0], chunk[1], chunk[2], chunk[3]]);
        }
    }
    header[12..16].copy_from_slice(&checksum.to_le_bytes());
}

/// An application of 8192 bytes with a Main element, the name `_heart` and
/// kernel version 2.0 in a header of 52 bytes.
fn simple_flash() -> Vec<u8> {
    let mut buffer: Vec<u8> = Vec::new();
    put_u16(&mut buffer, 2);
    put_u16(&mut buffer, 52);
    put_u32(&mut buffer, 8192);
    put_u32(&mut buffer, 1);
    put_u32(&mut buffer, 0);
    put_u16(&mut buffer, 1);
    put_u16(&mut buffer, 12);
    put_u32(&mut buffer, 41);
    put_u32(&mut buffer, 0);
    put_u32(&mut buffer, 4848);
    put_name(&mut buffer, "_heart");
    put_u16(&mut buffer, 8);
    put_u16(&mut buffer, 4);
    put_u16(&mut buffer, 2);
    put_u16(&mut buffer, 0);
    assert_eq!(buffer.len(), 52);
    seal(&mut buffer);
    buffer.resize(8192, 0);
    buffer
}

/// The header of 76 bytes of an application with a Main and a Program
/// element.
fn program_header(total: u32, ram: u32, binary_end: u32, name: &str) -> Vec<u8> {
    let mut buffer: Vec<u8> = Vec::new();
    put_u16(&mut buffer, 2);
    put_u16(&mut buffer, 76);
    put_u32(&mut buffer, total);
    put_u32(&mut buffer, 1);
    put_u32(&mut buffer, 0);
    put_u16(&mut buffer, 1);
    put_u16(&mut buffer, 12);
    put_u32(&mut buffer, 41);
    put_u32(&mut buffer, 0);
    put_u32(&mut buffer, ram);
    put_u16(&mut buffer, 9);
    put_u16(&mut buffer, 20);
    put_u32(&mut buffer, 41);
    put_u32(&mut buffer, 0);
    put_u32(&mut buffer, ram);
    put_u32(&mut buffer, binary_end);
    put_u32(&mut buffer, 0);
    put_name(&mut buffer, name);
    put_u16(&mut buffer, 8);
    put_u16(&mut buffer, 4);
    put_u16(&mut buffer, 2);
    put_u16(&mut buffer, 0);
    assert_eq!(buffer.len(), 76);
    seal(&mut buffer);
    buffer
}

const SHA256_DIGEST: [u8; 32] = [
    214u8, 17, 81, 32, 51, 178, 249, 35, 161, 33, 109, 184, 195, 46, 238, 158, 141, 54, 63, 94, 60,
    245, 50, 228, 239, 107, 231, 127, 220, 158, 77, 160,
];

/// An application of 8192 bytes whose binary ends at 5836 and is followed
/// by a SHA-256 footer and a reserved footer of 2312 bytes.
fn sha256_flash() -> Vec<u8> {
    let mut buffer = program_header(8192, 4848, 5836, "_heart");
    buffer.resize(5836, 0);
    put_u16(&mut buffer, 128);
    put_u16(&mut buffer, 36);
    put_u32(&mut buffer, 3);
    buffer.extend_from_slice(&SHA256_DIGEST);
    put_u16(&mut buffer, 128);
    put_u16(&mut buffer, 2312);
    put_u32(&mut buffer, 0);
    buffer.resize(8192, 0);
    buffer
}

fn rsa4096_key() -> Vec<u8> {
    (0..512u32).map(|i| (i * 7 + 3) as u8).collect()
}

fn rsa4096_signature() -> Vec<u8> {
    (0..512u32).map(|i| (i * 13 + 5) as u8).collect()
}

/// An application of 4096 bytes whose binary ends at 1168 and is followed
/// by an RSA-4096 footer and a reserved footer of 1892 bytes.
fn rsa4096_flash() -> Vec<u8> {
    let mut buffer = program_header(4096, 4612, 1168, "c_hello");
    buffer.resize(1168, 0);
    put_u16(&mut buffer, 128);
    put_u16(&mut buffer, 1028);
    put_u32(&mut buffer, 2);
    buffer.extend_from_slice(&rsa4096_key());
    buffer.extend_from_slice(&rsa4096_signature());
    put_u16(&mut buffer, 128);
    put_u16(&mut buffer, 1892);
    put_u32(&mut buffer, 0);
    buffer.resize(4096, 0);
    buffer
}

#[test]
fn simple_tbf() {
    let buffer = simple_flash();

    let (ver, header_len, whole_len) = parse_tbf_header_lengths(&buffer[0..8].try_into().unwrap())
        .ok()
        .unwrap();
    assert_eq!(ver, 2);
    assert_eq!(header_len, 52);
    assert_eq!(whole_len, 8192);

    let header = parse_tbf_header(&buffer[0..header_len as usize], 2).unwrap();
    assert!(header.enabled());
    assert_eq!(header.get_minimum_app_ram_size(), 4848);
    assert_eq!(header.get_init_function_offset(), 41);
    assert_eq!(header.get_protected_trailer_size(), 0);
    assert_eq!(header.get_application_flags(), 1);
    assert_eq!(header.get_package_name().unwrap(), "_heart");
    assert_eq!(header.get_kernel_version().unwrap(), (2, 0));
}

#[test]
fn footer_sha256() {
    let buffer: Vec<u8> = sha256_flash();

    let (ver, header_len, whole_len) = parse_tbf_header_lengths(&buffer[0..8].try_into().unwrap())
        .ok()
        .unwrap();
    assert_eq!(ver, 2);
    assert_eq!(header_len, 76);
    assert_eq!(whole_len, 8192);

    let header = parse_tbf_header(&buffer[0..header_len as usize], 2).unwrap();
    assert!(header.enabled());
    assert_eq!(header.get_minimum_app_ram_size(), 4848);
    assert_eq!(header.get_init_function_offset(), 41);
    assert_eq!(header.get_protected_trailer_size(), 0);
    assert_eq!(header.get_application_flags(), 1);
    assert_eq!(header.get_package_name().unwrap(), "_heart");
    assert_eq!(header.get_kernel_version().unwrap(), (2, 0));
    let binary_offset = header.get_binary_end() as usize;
    assert_eq!(binary_offset, 5836);

    let (footer, footer_size) = parse_tbf_footer(&buffer[binary_offset..]).unwrap();
    assert_eq!(footer_size, 36);
    let correct_sha256 = [
        214u8, 17, 81, 32, 51, 178, 249, 35, 161, 33, 109, 184, 195, 46, 238, 158, 141, 54, 63, 94,
        60, 245, 50, 228, 239, 107, 231, 127, 220, 158, 77, 160,
    ];
    if let TbfFooterV2Credentials::SHA256(creds) = footer {
        assert_eq!(
            creds.get_format().unwrap(),
            TbfFooterV2CredentialsType::SHA256
        );
        assert_eq!(creds.get_hash(), &correct_sha256);
    } else {
        panic!("Footer is not of type SHA256!");
    }

    let second_footer_offset = binary_offset + footer_size as usize + 4;
    let (footer, footer_size) = parse_tbf_footer(&buffer[second_footer_offset..]).unwrap();
    assert_eq!(footer_size, 2312);
    if let TbfFooterV2Credentials::Reserved(padding) = footer {
        assert_eq!(padding, 2312);
    } else {
        panic!("Footer is not of type 'Reserved'!");
    }
}

#[test]
fn footer_rsa4096() {
    let buffer: Vec<u8> = rsa4096_flash();

    let (ver, header_len, whole_len) = parse_tbf_header_lengths(&buffer[0..8].try_into().unwrap())
        .ok()
        .unwrap();
    assert_eq!(ver, 2);
    assert_eq!(header_len, 76);
    assert_eq!(whole_len, 4096);

    let header = parse_tbf_header(&buffer[0..header_len as usize], 2).unwrap();
    assert!(header.enabled());
    assert_eq!(header.get_minimum_app_ram_size(), 4612);
    assert_eq!(header.get_init_function_offset(), 41);
    assert_eq!(header.get_protected_trailer_size(), 0);
    assert_eq!(header.get_application_flags(), 1);
    assert_eq!(header.get_package_name().unwrap(), "c_hello");
    assert_eq!(header.get_kernel_version().unwrap(), (2, 0));
    let binary_offset = header.get_binary_end() as usize;
    assert_eq!(binary_offset, 1168);

    let (footer, footer_size) = parse_tbf_footer(&buffer[binary_offset..]).unwrap();
    assert_eq!(footer_size, 1028);
    let correct_key = rsa4096_key();
    let correct_signature = rsa4096_signature();
    if let TbfFooterV2Credentials::Rsa4096Key(creds) = footer {
        assert_eq!(
            creds.get_format().unwrap(),
            TbfFooterV2CredentialsType::Rsa4096Key
        );
        assert_eq!(creds.get_public_key(), &correct_key);
        assert_eq!(creds.get_signature(), &correct_signature);
    } else {
        panic!("Footer is not of type SHA256!");
    }

    let second_footer_offset = binary_offset + footer_size as usize + 4;
    let (footer, footer_size) = parse_tbf_footer(&buffer[second_footer_offset..]).unwrap();
    assert_eq!(footer_size, 1892);
    if let TbfFooterV2Credentials::Reserved(padding) = footer {
        assert_eq!(padding, 1892);
    } else {
        panic!("Footer is not of type 'Reserved'!");
    }
}

#[test]
fn shortid_valid() {
    let buffer: Vec<u8> = vec![
        0x02, 0x00, 0x2c, 0x00, 0x90, 0x00, 0x00, 0x00, 0x00, 0x00, 0x00, 0x00, 0x6a, 0x70, 0x41,
        0x73, 0x03, 0x00, 0x08, 0x00, 0x5f, 0x74, 0x65, 0x73, 0x74, 0x00, 0x00, 0x00, 0x08, 0x00,
        0x04, 0x00, 0x00, 0x00, 0x00, 0x00, 0x0a, 0x00, 0x04, 0x00, 0xd2, 0x04, 0x00, 0x00,
    ];

    let (_ver, header_len, _) = parse_tbf_header_lengths(&buffer[0..8].try_into().unwrap())
        .ok()
        .unwrap();

    let header = parse_tbf_header(&buffer[0..header_len as usize], 2).unwrap();

    // The expected ShortID is 1234 (0x4d2 in hex).
    let expected_short_id = core::num::NonZeroU32::new(1234).map(|id| id.get());
    assert_eq!(header.get_fixed_short_id(), expected_short_id);
}

#[test]
fn shortid_invalid() {
    let invalid_short_buffer: Vec<u8> = vec![
        0x02, 0x00, 0x32, 0x00, 0xa5, 0x00, 0x00, 0x00, 0x00, 0x00, 0x00, 0x00, 0x0c, 0xfc, 0xae,
        0x47, 0x03, 0x00, 0x08, 0x00, 0x5f, 0x74, 0x65, 0x73, 0x74, 0x00, 0x00, 0x00, 0x08, 0x00,
        0x04, 0x00, 0x00, 0x00, 0x00, 0x00, 0x0a, 0x00, 0x04, 0x00, 0xd2, 0x04, 0x00, 0x00,
    ];

    let result = parse_tbf_header(&invalid_short_buffer, 2);
    assert!(result.is_err());
    let error = result.unwrap_err();
    let debug_string = error.message();

    assert!(debug_string.contains("Checksum verification failed"));
}

#[test]
fn shortid_nonexistent() {
    // The simple application has no ShortID element.
    let buffer = simple_flash();

    let (_ver, header_len, _) = parse_tbf_header_lengths(&buffer[0..8].try_into().unwrap())
        .ok()
        .unwrap();

    let header = parse_tbf_header(&buffer[0..header_len as usize], 2).unwrap();

    assert_eq!(header.get_fixed_short_id(), None);
}

#[test]
fn ecdsa_nist_p256_smoke_test() {
    let tlv_type_credentials: u16 = 128; // 2 bytes
    let credential_format: u32 = TbfFooterV2CredentialsType::EcdsaNistP256 as u32; // 6
    let signature_r = [0xAA; 32];
    let signature_s = [0xBB; 32];

    // Length of payload: 4 (format) + 32 (r) + 32 (s) = 68
    let tlv_length: u16 = 68;

    let mut buffer = Vec::new();

    buffer.extend_from_slice(&tlv_type_credentials.to_le_bytes()); // 2 bytes
    buffer.extend_from_slice(&tlv_length.to_le_bytes()); // 2 bytes
    buffer.extend_from_slice(&credential_format.to_le_bytes()); // 4 bytes
    buffer.extend_from_slice(&signature_r); // 32 bytes
    buffer.extend_from_slice(&signature_s); // 32 bytes

    assert_eq!(buffer.len(), 4 + tlv_length as usize);

    match parse_tbf_footer(&buffer) {
        Ok((footer, returned_footer_size)) => {
            assert_eq!(returned_footer_size, tlv_length as u32);
            if let TbfFooterV2Credentials::EcdsaNistP256(ecdsa) = footer {
                assert_eq!(ecdsa.get_signature_r(), &signature_r);
                assert_eq!(ecdsa.get_signature_s(), &signature_s);
            } else {
                panic!("Footer is not of type EcdsaNistP256!");
            }
        }
        Err(e) => {
            panic!("Failed to parse footer: {:?}", e);
        }
    }
}

#[test]
fn lengths_of_a_zero_header_length_are_refused() {
    let prologue: [u8; 8] = [0x02, 0x00, 0x00, 0x00, 0x00, 0x20, 0x00, 0x00];
    assert_eq!(
        parse_tbf_header_lengths(&prologue),
        Err(InitialTbfParseError::InvalidHeader(8192))
    );
}

#[test]
fn lengths_of_a_header_longer_than_the_application_are_refused() {
    let prologue: [u8; 8] = [0x02, 0x00, 0x34, 0x00, 0x33, 0x00, 0x00, 0x00];
    assert_eq!(
        parse_tbf_header_lengths(&prologue),
        Err(InitialTbfParseError::InvalidHeader(0x33))
    );
    let exact: [u8; 8] = [0x02, 0x00, 0x34, 0x00, 0x34, 0x00, 0x00, 0x00];
    assert_eq!(parse_tbf_header_lengths(&exact), Ok((2, 0x34, 0x34)));
}

#[test]
fn lengths_of_another_version_are_refused() {
    let erased: [u8; 8] = [0x00, 0x00, 0x34, 0x00, 0x00, 0x20, 0x00, 0x00];
    assert_eq!(
        parse_tbf_header_lengths(&erased),
        Err(InitialTbfParseError::UnableToParse)
    );
    let newer: [u8; 8] = [0x03, 0x00, 0x34, 0x00, 0x00, 0x20, 0x00, 0x00];
    assert_eq!(
        parse_tbf_header_lengths(&newer),
        Err(InitialTbfParseError::UnableToParse)
    );
}

#[test]
fn header_errors_name_what_is_wrong() {
    let buffer = simple_flash();
    assert_eq!(
        parse_tbf_header(&buffer[0..52], 1).unwrap_err(),
        TbfParseError::UnsupportedVersion(1)
    );
    assert_eq!(
        parse_tbf_header(&buffer[0..12], 2).unwrap_err(),
        TbfParseError::InternalError
    );

    let stored = u32::from_le_bytes([buffer[12], buffer[13], buffer[14], buffer[15]]);
    let mut flipped = buffer[0..52].to_vec();
    flipped[15] ^= 0x80;
    assert_eq!(
        parse_tbf_header(&flipped, 2).unwrap_err(),
        TbfParseError::ChecksumMismatch(stored ^ 0x8000_0000, stored)
    );

    // A Main element of eight bytes instead of twelve.
    let mut short_main: Vec<u8> = Vec::new();
    put_u16(&mut short_main, 2);
    put_u16(&mut short_main, 28);
    put_u32(&mut short_main, 64);
    put_u32(&mut short_main, 1);
    put_u32(&mut short_main, 0);
    put_u16(&mut short_main, 1);
    put_u16(&mut short_main, 8);
    put_u32(&mut short_main, 41);
    put_u32(&mut short_main, 0);
    seal(&mut short_main);
    assert_eq!(
        parse_tbf_header(&short_main, 2).unwrap_err(),
        TbfParseError::BadTlvEntry(1)
    );

    // An element that announces more bytes than the header holds.
    let mut cut: Vec<u8> = Vec::new();
    put_u16(&mut cut, 2);
    put_u16(&mut cut, 24);
    put_u32(&mut cut, 64);
    put_u32(&mut cut, 1);
    put_u32(&mut cut, 0);
    put_u16(&mut cut, 8);
    put_u16(&mut cut, 4);
    put_u16(&mut cut, 2);
    put_u16(&mut cut, 0);
    cut.truncate(22);
    cut.extend_from_slice(&[0, 0]);
    cut[18] = 12;
    seal(&mut cut);
    assert_eq!(
        parse_tbf_header(&cut, 2).unwrap_err(),
        TbfParseError::BadTlvEntry(8)
    );

    // A name that is not UTF-8.
    let mut bad_name: Vec<u8> = Vec::new();
    put_u16(&mut bad_name, 2);
    put_u16(&mut bad_name, 24);
    put_u32(&mut bad_name, 64);
    put_u32(&mut bad_name, 1);
    put_u32(&mut bad_name, 0);
    put_u16(&mut bad_name, 3);
    put_u16(&mut bad_name, 4);
    bad_name.extend_from_slice(&[0xC3, 0x28, 0x41, 0x42]);
    seal(&mut bad_name);
    assert_eq!(
        parse_tbf_header(&bad_name, 2).unwrap_err(),
        TbfParseError::BadProcessName
    );

    // An element whose value runs past the end.
    let mut overrun: Vec<u8> = Vec::new();
    put_u16(&mut overrun, 2);
    put_u16(&mut overrun, 24);
    put_u32(&mut overrun, 64);
    put_u32(&mut overrun, 1);
    put_u32(&mut overrun, 0);
    put_u16(&mut overrun, 77);
    put_u16(&mut overrun, 40);
    put_u32(&mut overrun, 0);
    seal(&mut overrun);
    assert_eq!(
        parse_tbf_header(&overrun, 2).unwrap_err(),
        TbfParseError::NotEnoughFlash
    );
}

#[test]
fn elements_of_other_types_are_kept_as_found() {
    let mut buffer: Vec<u8> = Vec::new();
    put_u16(&mut buffer, 2);
    put_u16(&mut buffer, 44);
    put_u32(&mut buffer, 1024);
    put_u32(&mut buffer, 1);
    put_u32(&mut buffer, 0);
    // An element of a type that the parser does not decode, five bytes long.
    put_u16(&mut buffer, 0x77);
    put_u16(&mut buffer, 5);
    buffer.extend_from_slice(&[1, 2, 3, 4, 5, 0, 0, 0]);
    // Fixed addresses: RAM 0x20008000, flash 0x00040080.
    put_u16(&mut buffer, 5);
    put_u16(&mut buffer, 8);
    put_u32(&mut buffer, 0x2000_8000);
    put_u32(&mut buffer, 0x0004_0080);
    // Writeable flash regions: none.
    put_u16(&mut buffer, 2);
    put_u16(&mut buffer, 0);
    seal(&mut buffer);

    let header = parse_tbf_header(&buffer, 2).unwrap();
    assert!(!header.is_app());
    assert_eq!(header.elements.other.len(), 1);
    assert_eq!(header.elements.other[0].tipe, 0x77);
    assert_eq!(header.elements.other[0].value, vec![1, 2, 3, 4, 5]);
    assert_eq!(header.get_fixed_address_flash(), Some(0x0004_0080));
    assert_eq!(header.get_fixed_address_ram(), Some(0x2000_8000));
    assert_eq!(header.number_writeable_flash_regions(), 0);
    assert_eq!(header.get_binary_end(), 1024);
    assert_eq!(header.get_package_name(), None);
}

#[test]
fn footer_errors_name_what_is_wrong() {
    assert_eq!(
        parse_tbf_footer(&[128, 0, 36]).unwrap_err(),
        TbfParseError::NotEnoughFlash
    );
    assert_eq!(
        parse_tbf_footer(&[3, 0, 4, 0, 0, 0, 0, 0]).unwrap_err(),
        TbfParseError::BadTlvEntry(3)
    );
    assert_eq!(
        parse_tbf_footer(&[128, 0, 8, 0, 0, 0, 0, 0]).unwrap_err(),
        TbfParseError::NotEnoughFlash
    );
    assert_eq!(
        parse_tbf_footer(&[128, 0, 2, 0, 0, 0]).unwrap_err(),
        TbfParseError::InternalError
    );
    assert_eq!(
        parse_tbf_footer(&[128, 0, 4, 0, 99, 0, 0, 0]).unwrap_err(),
        TbfParseError::InternalError
    );
    // A SHA-256 footer that is too short for its digest.
    let mut short: Vec<u8> = vec![128, 0, 12, 0, 3, 0, 0, 0];
    short.extend_from_slice(&[0; 8]);
    assert_eq!(
        parse_tbf_footer(&short).unwrap_err(),
        TbfParseError::NotEnoughFlash
    );
}

#[test]
fn credential_kinds_have_their_codes() {
    let kinds = [
        (TbfFooterV2CredentialsType::Reserved, 0u32, 0usize),
        (TbfFooterV2CredentialsType::Rsa3072Key, 1, 768),
        (TbfFooterV2CredentialsType::Rsa4096Key, 2, 1024),
        (TbfFooterV2CredentialsType::SHA256, 3, 32),
        (TbfFooterV2CredentialsType::SHA384, 4, 48),
        (TbfFooterV2CredentialsType::SHA512, 5, 64),
        (TbfFooterV2CredentialsType::EcdsaNistP256, 6, 64),
        (TbfFooterV2CredentialsType::Rsa2048Key, 10, 512),
    ];
    for (kind, code, length) in kinds {
        assert_eq!(kind.code(), code);
        assert_eq!(TbfFooterV2CredentialsType::from_code(code), Some(kind));
        assert_eq!(kind.data_length(), length);
    }
    assert_eq!(TbfFooterV2CredentialsType::from_code(7), None);
}

#[test]
fn permissions_are_decoded_on_demand() {
    let mut buffer: Vec<u8> = Vec::new();
    put_u16(&mut buffer, 2);
    put_u16(&mut buffer, 0);
    put_u32(&mut buffer, 2048);
    put_u32(&mut buffer, 1);
    put_u32(&mut buffer, 0);
    put_u16(&mut buffer, 1);
    put_u16(&mut buffer, 12);
    put_u32(&mut buffer, 41);
    put_u32(&mut buffer, 0);
    put_u32(&mut buffer, 4848);
    // Permissions: two drivers.
    put_u16(&mut buffer, 6);
    put_u16(&mut buffer, 34);
    put_u16(&mut buffer, 2);
    put_u32(&mut buffer, 0x0000_0002);
    put_u32(&mut buffer, 0);
    buffer.extend_from_slice(&0x0000_0000_0000_000Fu64.to_le_bytes());
    put_u32(&mut buffer, 0x0009_0001);
    put_u32(&mut buffer, 1);
    buffer.extend_from_slice(&0x8000_0000_0000_0001u64.to_le_bytes());
    buffer.extend_from_slice(&[0, 0]);
    // Persistent ACL: write under 7, read 7 and 9, modify 7.
    put_u16(&mut buffer, 7);
    put_u16(&mut buffer, 20);
    put_u32(&mut buffer, 7);
    put_u16(&mut buffer, 2);
    put_u32(&mut buffer, 7);
    put_u32(&mut buffer, 9);
    put_u16(&mut buffer, 1);
    put_u32(&mut buffer, 7);
    let length = buffer.len() as u16;
    buffer[2..4].copy_from_slice(&length.to_le_bytes());
    seal(&mut buffer);

    let header = parse_tbf_header(&buffer, 2).unwrap();
    assert!(header.is_app());
    assert_eq!(
        header.get_permissions(),
        Some(vec![
            TbfHeaderDriverPermission { driver_number: 2, offset: 0, allowed_commands: 0xF },
            TbfHeaderDriverPermission {
                driver_number: 0x0009_0001,
                offset: 1,
                allowed_commands: 0x8000_0000_0000_0001,
            },
        ])
    );
    let storage = header.get_storage_permissions().unwrap();
    assert_eq!(storage.write_id, 7);
    assert_eq!(storage.read_ids, vec![7, 9]);
    assert_eq!(storage.modify_ids, vec![7]);

    // A header without these elements has neither.
    let plain = simple_flash();
    let header = parse_tbf_header(&plain[0..52], 2).unwrap();
    assert_eq!(header.get_permissions(), None);
    assert!(header.get_storage_permissions().is_none());
}

#[test]
fn permissions_that_are_cut_short_are_refused() {
    assert_eq!(decode_permissions(&[]), None);
    assert_eq!(decode_permissions(&[0]), None);
    assert_eq!(decode_permissions(&[0, 0]), Some(Vec::new()));
    assert_eq!(decode_permissions(&[1, 0, 1, 2, 3]), None);
    let mut one = vec![1u8, 0];
    one.extend_from_slice(&[0xAA; 16]);
    assert_eq!(decode_permissions(&one).unwrap().len(), 1);
    one.pop();
    assert_eq!(decode_permissions(&one), None);

    assert!(decode_storage_permissions(&[0; 5]).is_none());
    assert!(decode_storage_permissions(&[0; 6]).is_none());
    let none = decode_storage_permissions(&[0; 8]).unwrap();
    assert_eq!(none.write_id, 0);
    assert!(none.read_ids.is_empty());
    assert!(none.modify_ids.is_empty());
    // One identifier to read is announced and none is there.
    assert!(decode_storage_permissions(&[0, 0, 0, 0, 1, 0, 0, 0]).is_none());
    // One identifier to modify is announced and none is there.
    assert!(decode_storage_permissions(&[0, 0, 0, 0, 0, 0, 1, 0]).is_none());
}
