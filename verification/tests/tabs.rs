use tockloader_lib::attributes::app_attributes::AppAttributes;
use tockloader_lib::board_settings::BoardSettings;
use tockloader_lib::command_impl::reshuffle_apps::TockApp;
use tockloader_lib::errors::{TabError, TockloaderError};
use tockloader_lib::tabs::tab::{
    address_part, ends_with, is_metadata_name, is_tbf_name, last_dot, name_suits, parse_tbf_name,
    starts_with, Metadata, Tab, TbfFile,
};
use tockloader_lib::tbf::parse::parse_tbf_header;

fn put_u16(buffer: &mut Vec<u8>, value: u16) {
    buffer.extend_from_slice(&value.to_le_bytes());
}

fn put_u32(buffer: &mut Vec<u8>, value: u32) {
    buffer.extend_from_slice(&value.to_le_bytes());
}

fn seal(header: &mut [u8]) {
    let mut checksum: u32 = 0;
    for (i, chunk) in header.chunks_exact(4).enumerate() {
        if i != 3 {
            checksum ^= u32::from_le_bytes([chunk[0], chunk[1], chunk[2], chunk[3]]);
        }
    }
    header[12..16].copy_from_slice(&checksum.to_le_bytes());
}

/// A binary of 512 bytes; built for the flash address given, if one is
/// given.
fn binary(fixed_flash: Option<u32>) -> Vec<u8> {
    let mut app: Vec<u8> = Vec::new();
    put_u16(&mut app, 2);
    put_u16(&mut app, if fixed_flash.is_some() { 44 } else { 32 });
    put_u32(&mut app, 512);
    put_u32(&mut app, 1);
    put_u32(&mut app, 0);
    put_u16(&mut app, 1);
    put_u16(&mut app, 12);
    put_u32(&mut app, 41);
    put_u32(&mut app, 0);
    put_u32(&mut app, 2048);
    if let Some(flash) = fixed_flash {
        put_u16(&mut app, 5);
        put_u16(&mut app, 8);
        put_u32(&mut app, 0x2000_8000);
        put_u32(&mut app, flash);
    }
    seal(&mut app);
    app.resize(512, 0xEE);
    app
}

fn tab(only_for_boards: Option<Vec<&str>>) -> Tab {
    Tab::new(
        Metadata {
            minimum_tock_kernel_version: Some((2, 1)),
            only_for_boards: only_for_boards
                .map(|boards| boards.into_iter().map(|b| b.to_string()).collect()),
        },
        vec![
            TbfFile { filename: "cortex-m0.tbf".to_string(), data: vec![0] },
            TbfFile { filename: "cortex-m4.tbf".to_string(), data: binary(None) },
            TbfFile {
                filename: "cortex-m4.0x00040080.0x20008000.tbf".to_string(),
                data: vec![4, 4],
            },
            TbfFile {
                filename: "rv32imac.0x20040080.0x80002800.tbf".to_string(),
                data: binary(Some(0x2004_0080)),
            },
        ],
    )
}

fn settings(arch: Option<&str>, start_address: u64) -> BoardSettings {
    BoardSettings { arch: arch.map(|a| a.to_string()), start_address, page_size: 512 }
}

#[test]
fn the_binary_is_the_first_whose_name_starts_with_the_architecture() {
    let tab = tab(None);
    assert_eq!(tab.extract_binary("cortex-m0").unwrap(), vec![0]);
    assert_eq!(tab.extract_binary("cortex-m4").unwrap(), binary(None));
    assert_eq!(
        tab.extract_binary("cortex-m4.0x00040080").unwrap(),
        vec![4, 4]
    );
    assert_eq!(tab.extract_binary("cortex").unwrap(), vec![0]);
    assert_eq!(tab.extract_binary("").unwrap(), vec![0]);
}

#[test]
fn a_missing_binary_is_an_error_that_names_the_architecture() {
    match tab(None).extract_binary("cortex-m7") {
        Err(TockloaderError::Tab(TabError::MissingBinary(arch))) => {
            assert_eq!(arch, "cortex-m7")
        }
        _ => panic!("a binary for an architecture that the tab does not hold"),
    }
    assert!(Tab::new(
        Metadata { minimum_tock_kernel_version: None, only_for_boards: None },
        Vec::new()
    )
    .extract_binary("")
    .is_err());
}

#[test]
fn a_tab_is_for_the_boards_it_names() {
    let any = tab(None);
    assert!(any.is_compatible_with_board(&"hail".to_string()));
    let some = tab(Some(vec!["hail", "imix"]));
    assert!(some.is_compatible_with_board(&"hail".to_string()));
    assert!(some.is_compatible_with_board(&"imix".to_string()));
    assert!(!some.is_compatible_with_board(&"hai".to_string()));
    assert!(!some.is_compatible_with_board(&"microbit_v2".to_string()));
    let none = tab(Some(Vec::new()));
    assert!(!none.is_compatible_with_board(&"hail".to_string()));
}

#[test]
fn every_kernel_version_is_accepted() {
    let tab = tab(None);
    assert!(tab.is_compatible_with_kernel_verison(0));
    assert!(tab.is_compatible_with_kernel_verison(1));
    assert!(tab.is_compatible_with_kernel_verison(u32::MAX));
}

#[test]
fn a_tab_needs_metadata() {
    assert!(matches!(
        Tab::from_parts(None, Vec::new()),
        Err(TockloaderError::Tab(TabError::MissingMetadata))
    ));
    let made = Tab::from_parts(
        Some(Metadata { minimum_tock_kernel_version: None, only_for_boards: None }),
        vec![TbfFile { filename: "cortex-m4.tbf".to_string(), data: vec![1] }],
    )
    .unwrap();
    assert_eq!(made.tbf_files.len(), 1);
}

#[test]
fn prefixes_and_suffixes() {
    assert!(starts_with(b"cortex-m4.tbf", b"cortex-m4"));
    assert!(starts_with(b"cortex-m4", b"cortex-m4"));
    assert!(starts_with(b"abc", b""));
    assert!(!starts_with(b"cortex-m", b"cortex-m4"));
    assert!(!starts_with(b"cortex-m0.tbf", b"cortex-m4"));
    assert!(ends_with(b"cortex-m4.tbf", b".tbf"));
    assert!(ends_with(b".tbf", b".tbf"));
    assert!(!ends_with(b"tbf", b".tbf"));
    assert!(!ends_with(b"metadata.toml", b".tbf"));
}

#[test]
fn an_app_from_a_tab_is_flexible_or_fixed() {
    let tab = tab(None);
    match TockApp::from_tab(&tab, &settings(Some("cortex-m4"), 0x40000)) {
        Some(TockApp::Flexible(app)) => {
            assert_eq!(app.size, 512);
            assert_eq!(app.idx, None);
            assert_eq!(app.board_address, None);
        }
        _ => panic!("a binary without a fixed address is flexible"),
    }
    match TockApp::from_tab(&tab, &settings(Some("rv32imac"), 0x2004_0000)) {
        Some(TockApp::Fixed(app)) => {
            assert_eq!(app.size, 512);
            // The address is aligned down to a multiple of 1024.
            assert_eq!(app.candidate_addresses, vec![0x2004_0000]);
            assert_eq!(app.board_address, None);
        }
        _ => panic!("a binary with a fixed address is fixed"),
    }
}

#[test]
fn an_app_that_cannot_be_installed_is_refused() {
    let tab = tab(None);
    // No architecture, or none that the tab holds.
    assert!(TockApp::from_tab(&tab, &settings(None, 0x40000)).is_none());
    assert!(TockApp::from_tab(&tab, &settings(Some("cortex-m7"), 0x40000)).is_none());
    // A binary that is no application.
    assert!(TockApp::from_tab(&tab, &settings(Some("cortex-m0"), 0x40000)).is_none());
    // Built for an address before the start of the applications.
    assert!(TockApp::from_tab(&tab, &settings(Some("rv32imac"), 0x2004_0081)).is_none());
    assert!(TockApp::from_tab(&tab, &settings(Some("rv32imac"), 0x2004_0080)).is_some());

    let good = binary(None);
    let board = settings(None, 0x40000);
    assert!(TockApp::from_binary(&good, &board).is_some());
    assert!(TockApp::from_binary(&good[0..7], &board).is_none());
    assert!(TockApp::from_binary(&good[0..20], &board).is_none());
    let mut damaged = good.clone();
    damaged[13] ^= 0x40;
    assert!(TockApp::from_binary(&damaged, &board).is_none());
    let mut erased = good.clone();
    erased[0] = 0;
    assert!(TockApp::from_binary(&erased, &board).is_none());
}

#[test]
fn an_app_from_the_board_keeps_its_address() {
    let flexible = binary(None);
    let header = parse_tbf_header(&flexible[0..32], 2).unwrap();
    let installed = AppAttributes::new(0x40400, header, Vec::new());
    match TockApp::from_app_attributes(&installed, &settings(None, 0x40000)) {
        TockApp::Flexible(app) => {
            assert_eq!(app.size, 512);
            assert_eq!(app.board_address, Some(0x40400));
            assert_eq!(app.idx, None);
        }
        _ => panic!("an application without a fixed address is flexible"),
    }
    let fixed = binary(Some(0x0004_0880));
    let header = parse_tbf_header(&fixed[0..44], 2).unwrap();
    let installed = AppAttributes::new(0x40800, header, Vec::new());
    match TockApp::from_app_attributes(&installed, &settings(None, 0x40000)) {
        TockApp::Fixed(app) => {
            assert_eq!(app.size, 512);
            assert_eq!(app.candidate_addresses, vec![0x0004_0880]);
            assert_eq!(app.board_address, Some(0x40800));
        }
        _ => panic!("an application with a fixed address is fixed"),
    }
}

#[test]
fn default_settings() {
    let settings = BoardSettings::default();
    assert_eq!(settings.arch, None);
    assert_eq!(settings.start_address, 0x30000);
    assert_eq!(settings.page_size, 512);
}

#[test]
fn file_names_say_what_they_hold() {
    assert!(is_metadata_name("metadata.toml"));
    assert!(!is_metadata_name("metadata.tom"));
    assert!(!is_metadata_name("Metadata.toml"));
    assert!(!is_metadata_name("xmetadata.toml"));
    assert!(is_tbf_name("cortex-m4.tbf"));
    assert!(is_tbf_name(".tbf"));
    assert!(!is_tbf_name("cortex-m4.tbf.bak"));
    assert!(!is_tbf_name("metadata.toml"));
}

#[test]
fn the_name_of_a_binary_says_its_architecture_and_addresses() {
    let plain = parse_tbf_name(b"cortex-m4.tbf").unwrap();
    assert_eq!(plain.arch, b"cortex-m4");
    assert_eq!(plain.fixed, None);

    let fixed = parse_tbf_name(b"cortex-m4.0x00040080.0x20008000.tbf").unwrap();
    assert_eq!(fixed.arch, b"cortex-m4");
    assert_eq!(fixed.fixed, Some((0x0004_0080, 0x2000_8000)));

    let fixed = parse_tbf_name(b"rv32imac.0x20040080.0x80002800.tbf").unwrap();
    assert_eq!(fixed.arch, b"rv32imac");
    assert_eq!(fixed.fixed, Some((0x2004_0080, 0x8000_2800)));

    // Parts that are no addresses belong to the architecture.
    let odd = parse_tbf_name(b"cortex-m4.0x00040080.tbf").unwrap();
    assert_eq!(odd.arch, b"cortex-m4.0x00040080");
    assert_eq!(odd.fixed, None);
    let odd = parse_tbf_name(b"cortex-m4.00040080.0x20008000.tbf").unwrap();
    assert_eq!(odd.arch, b"cortex-m4.00040080.0x20008000");
    assert_eq!(odd.fixed, None);
    let odd = parse_tbf_name(b"a.0x.0x1.tbf").unwrap();
    assert_eq!(odd.arch, b"a.0x.0x1");
    let odd = parse_tbf_name(b"a.0x1.0xg.tbf").unwrap();
    assert_eq!(odd.fixed, None);

    assert!(parse_tbf_name(b"metadata.toml").is_none());
    assert!(parse_tbf_name(b"tbf").is_none());
    assert_eq!(parse_tbf_name(b".tbf").unwrap().arch, b"");
}

#[test]
fn dots_and_address_parts() {
    assert_eq!(last_dot(b"a.b.c"), Some(3));
    assert_eq!(last_dot(b".abc"), Some(0));
    assert_eq!(last_dot(b"abc."), Some(3));
    assert_eq!(last_dot(b"abc"), None);
    assert_eq!(last_dot(b""), None);
    assert_eq!(address_part(b"0x00040080"), Some(0x40080));
    assert_eq!(address_part(b"0xFFFFFFFFFFFFFFFF"), Some(u64::MAX));
    assert_eq!(address_part(b"0x1FFFFFFFFFFFFFFFF"), None);
    assert_eq!(address_part(b"0x"), None);
    assert_eq!(address_part(b"40080"), None);
    assert_eq!(address_part(b"0x+1"), None);
    assert_eq!(address_part(b"0x0x1"), None);
}

#[test]
fn binaries_are_offered_by_architecture_and_addresses() {
    assert!(name_suits(b"cortex-m4.tbf", b"cortex-m4", 0x40000, 0x2000_0000));
    assert!(!name_suits(b"cortex-m4.tbf", b"cortex-m", 0x40000, 0x2000_0000));
    assert!(!name_suits(b"cortex-m0.tbf", b"cortex-m4", 0x40000, 0x2000_0000));
    let fixed = b"cortex-m4.0x00040080.0x20008000.tbf";
    assert!(name_suits(fixed, b"cortex-m4", 0x40000, 0x2000_0000));
    assert!(name_suits(fixed, b"cortex-m4", 0x40080, 0x2000_8000));
    assert!(!name_suits(fixed, b"cortex-m4", 0x40081, 0x2000_8000));
    assert!(!name_suits(fixed, b"cortex-m4", 0x40080, 0x2000_8001));

    let tab = tab(None);
    assert_eq!(
        tab.filter_tbfs(&settings(Some("cortex-m4"), 0x40000), 0x2000_0000),
        vec![1, 2]
    );
    assert_eq!(
        tab.filter_tbfs(&settings(Some("cortex-m4"), 0x40081), 0x2000_0000),
        vec![1]
    );
    assert_eq!(
        tab.filter_tbfs(&settings(Some("rv32imac"), 0), 0x8000_2800),
        vec![3]
    );
    assert_eq!(
        tab.filter_tbfs(&settings(Some("rv32imac"), 0), 0x8000_2801),
        Vec::<usize>::new()
    );
    assert!(tab.filter_tbfs(&settings(Some("cortex"), 0), 0).is_empty());
    assert!(tab.filter_tbfs(&settings(None, 0), 0).is_empty());
}
