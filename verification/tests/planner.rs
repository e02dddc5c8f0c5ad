use tockloader_lib::board_settings::BoardSettings;
use tockloader_lib::command_impl::placement::{gap_to_page, place_in_order, FixedSlot, FlexibleSlot};
use tockloader_lib::command_impl::reshuffle_apps::{
    align_down, create_padding, create_pkt, packet_fits, reshuffle_apps,
    reshuffle_apps_in_orders,
    sort_by_address, FixedApp, FlexibleApp, Index, TockApp,
};
use tockloader_lib::tbf::parse::{parse_tbf_header, parse_tbf_header_lengths};

fn settings(start_address: u64, page_size: u64) -> BoardSettings {
    BoardSettings { arch: None, start_address, page_size }
}

fn flexible(size: u64) -> TockApp {
    TockApp::Flexible(FlexibleApp::new(size, None))
}

fn fixed(size: u64, address: u64) -> TockApp {
    TockApp::Fixed(FixedApp::new(size, vec![address]))
}

fn entries(layout: &[Index]) -> Vec<(Option<usize>, u64, u64)> {
    layout.iter().map(|e| (e.idx, e.address, e.size)).collect()
}

#[test]
fn planner_with_no_apps_gives_an_empty_layout() {
    let layout = reshuffle_apps(&settings(0x40000, 512), Vec::new()).unwrap();
    assert!(layout.is_empty());
}

#[test]
fn two_flexible_apps_need_no_padding() {
    let apps = vec![flexible(1024), flexible(2048)];
    let layout = reshuffle_apps(&settings(0x40000, 512), apps).unwrap();
    assert_eq!(
        entries(&layout),
        vec![(Some(0), 0x40000, 1024), (Some(1), 0x40400, 2048)]
    );
    let total: u64 = layout.iter().map(|e| e.size).sum();
    assert_eq!(total, 3072);
    assert!(layout.iter().all(|e| e.idx.is_some()));
}

#[test]
fn the_order_with_less_padding_wins() {
    // In the order given, 412 bytes are lost behind the first app; the
    // other way round none are.
    let apps = vec![flexible(100), flexible(512)];
    let layout = reshuffle_apps(&settings(0, 512), apps).unwrap();
    assert_eq!(entries(&layout), vec![(Some(1), 0, 512), (Some(0), 512, 100)]);
}

#[test]
fn of_two_orders_with_the_same_padding_the_first_stays() {
    let apps = vec![flexible(100), flexible(612)];
    let layout = reshuffle_apps(&settings(0, 512), apps).unwrap();
    assert_eq!(
        entries(&layout),
        vec![(Some(0), 0, 100), (None, 100, 412), (Some(1), 512, 612)]
    );
}

#[test]
fn a_fixed_app_at_the_start_address_has_no_padding_before_it() {
    let apps = vec![flexible(512), fixed(1024, 0x40000)];
    let layout = reshuffle_apps(&settings(0x40000, 512), apps).unwrap();
    assert_eq!(
        entries(&layout),
        vec![(Some(1), 0x40000, 1024), (Some(0), 0x40400, 512)]
    );
}

#[test]
fn flexible_apps_fill_the_gap_before_a_fixed_app() {
    let apps = vec![fixed(2048, 0x41000), flexible(1024), flexible(8192)];
    let layout = reshuffle_apps(&settings(0x40000, 512), apps).unwrap();
    assert_eq!(
        entries(&layout),
        vec![
            (Some(1), 0x40000, 1024),
            (None, 0x40400, 0xC00),
            (Some(0), 0x41000, 2048),
            (Some(2), 0x41800, 8192),
        ]
    );
    // Addresses rise, entries touch, and the whole is the apps plus padding.
    for pair in layout.windows(2) {
        assert!(pair[0].address < pair[1].address);
        assert_eq!(pair[0].address + pair[0].size, pair[1].address);
    }
    let total: u64 = layout.iter().map(|e| e.size).sum();
    assert_eq!(total, 2048 + 1024 + 8192 + 0xC00);
}

#[test]
fn fixed_apps_are_placed_in_order_of_address() {
    let apps = vec![fixed(1024, 0x48000), fixed(1024, 0x40000)];
    let layout = reshuffle_apps(&settings(0x40000, 512), apps).unwrap();
    assert_eq!(
        entries(&layout),
        vec![
            (Some(1), 0x40000, 1024),
            (None, 0x40400, 0x7C00),
            (Some(0), 0x48000, 1024),
        ]
    );
}

#[test]
fn only_the_first_candidate_address_counts() {
    let apps = vec![TockApp::Fixed(FixedApp::new(256, vec![0x40400, 0x40000]))];
    let layout = reshuffle_apps(&settings(0x40000, 512), apps).unwrap();
    assert_eq!(
        entries(&layout),
        vec![(None, 0x40000, 0x400), (Some(0), 0x40400, 256)]
    );
}

#[test]
fn a_fixed_app_without_candidates_has_no_layout() {
    let apps = vec![flexible(64), TockApp::Fixed(FixedApp::new(256, Vec::new()))];
    assert!(reshuffle_apps(&settings(0x40000, 512), apps).is_none());
}

#[test]
fn a_fixed_app_before_the_start_address_has_no_layout() {
    let apps = vec![fixed(1024, 0x3F000)];
    assert!(reshuffle_apps(&settings(0x40000, 512), apps).is_none());
}

#[test]
fn overlapping_fixed_apps_have_no_layout() {
    let apps = vec![fixed(2048, 0x40000), fixed(1024, 0x40400)];
    assert!(reshuffle_apps(&settings(0x40000, 512), apps).is_none());
}

#[test]
fn more_than_nine_flexible_apps_with_a_fixed_one_are_refused() {
    let mut apps: Vec<TockApp> = (0..10).map(|_| flexible(512)).collect();
    apps.push(fixed(512, 0x80000));
    assert!(reshuffle_apps(&settings(0x40000, 512), apps).is_none());

    let mut apps: Vec<TockApp> = (0..9).map(|_| flexible(512)).collect();
    apps.push(fixed(512, 0x80000));
    assert!(reshuffle_apps(&settings(0x40000, 512), apps).is_some());
}

#[test]
fn ten_flexible_apps_alone_are_planned() {
    let apps: Vec<TockApp> = (0..10).map(|_| flexible(512)).collect();
    let layout = reshuffle_apps(&settings(0x40000, 512), apps).unwrap();
    assert_eq!(layout.len(), 10);
    for (i, entry) in layout.iter().enumerate() {
        assert_eq!(entry.idx, Some(i));
        assert_eq!(entry.address, 0x40000 + 512 * i as u64);
    }
}

#[test]
fn an_order_that_does_not_fit_is_passed_over() {
    // Behind the app of 600 bytes the cursor is at 600 and the next page
    // at 1024; the app of 100 bytes is taken to fit before 1112 and then
    // runs into the fixed app. The other order fits.
    let apps = vec![flexible(600), flexible(100), fixed(100, 1112)];
    let board = settings(0, 512);
    let layout = reshuffle_apps(&board, apps.clone()).unwrap();
    assert_eq!(
        entries(&layout),
        vec![
            (Some(1), 0, 100),
            (None, 100, 412),
            (Some(0), 512, 600),
            (Some(2), 1112, 100),
        ]
    );
    // With only the order that does not fit, there is no layout.
    assert!(reshuffle_apps_in_orders(&board, &apps, &vec![vec![0, 1]]).is_none());
    assert!(reshuffle_apps_in_orders(&board, &apps, &vec![vec![0, 1], vec![1, 0]]).is_some());
    assert!(reshuffle_apps_in_orders(&board, &apps, &Vec::new()).is_none());
}

#[test]
fn the_orders_tried_are_those_given() {
    let apps = vec![flexible(100), flexible(512)];
    let board = settings(0, 512);
    let only_first = reshuffle_apps_in_orders(&board, &apps, &vec![vec![0, 1]]).unwrap();
    assert_eq!(
        entries(&only_first),
        vec![(Some(0), 0, 100), (None, 100, 412), (Some(1), 512, 512)]
    );
    let both = reshuffle_apps_in_orders(&board, &apps, &vec![vec![0, 1], vec![1, 0]]).unwrap();
    assert_eq!(entries(&both), vec![(Some(1), 0, 512), (Some(0), 512, 100)]);
    // An order that names an app that is not there gives no layout.
    assert!(reshuffle_apps_in_orders(&board, &apps, &vec![vec![0, 2]]).is_none());
}

#[test]
fn one_order_is_laid_out_as_asked() {
    let fixed_slots = vec![FixedSlot { idx: 7, address: 4096, size: 100 }];
    let flexible_slots = vec![
        FlexibleSlot { idx: 3, size: 1000 },
        FlexibleSlot { idx: 5, size: 3000 },
    ];
    let layout = place_in_order(0, 1024, &fixed_slots, &flexible_slots, &vec![1, 0]).unwrap();
    assert_eq!(layout.padding, 72 + 24);
    assert_eq!(
        entries(&layout.entries),
        vec![
            (Some(5), 0, 3000),
            (None, 3000, 72),
            (Some(3), 3072, 1000),
            (None, 4072, 24),
            (Some(7), 4096, 100),
        ]
    );
    let layout = place_in_order(0, 1024, &fixed_slots, &flexible_slots, &vec![0, 1]).unwrap();
    assert_eq!(layout.padding, 24 + 72);
    assert_eq!(
        entries(&layout.entries),
        vec![
            (Some(3), 0, 1000),
            (None, 1000, 24),
            (Some(5), 1024, 3000),
            (None, 4024, 72),
            (Some(7), 4096, 100),
        ]
    );
    // An app that does not fit before the fixed one goes behind it.
    let wide = vec![FlexibleSlot { idx: 9, size: 5000 }];
    let layout = place_in_order(0, 1024, &fixed_slots, &wide, &vec![0]).unwrap();
    assert_eq!(layout.padding, 4096 + 924);
    assert_eq!(
        entries(&layout.entries),
        vec![
            (None, 0, 4096),
            (Some(7), 4096, 100),
            (None, 4196, 924),
            (Some(9), 5120, 5000),
        ]
    );
    // An app that would end beyond the last address cannot be placed.
    let huge = vec![FlexibleSlot { idx: 0, size: u64::MAX }];
    assert!(place_in_order(1024, 1024, &Vec::new(), &huge, &vec![0]).is_none());
}

#[test]
fn gaps_to_the_next_page() {
    assert_eq!(gap_to_page(0, 512), Some(0));
    assert_eq!(gap_to_page(1, 512), Some(511));
    assert_eq!(gap_to_page(512, 512), Some(0));
    assert_eq!(gap_to_page(0x40001, 1024), Some(1023));
    assert_eq!(gap_to_page(0, 0), Some(0));
    assert_eq!(gap_to_page(5, 0), None);
}

#[test]
fn sorting_by_address_keeps_equal_addresses_in_order() {
    let slots = vec![
        FixedSlot { idx: 0, address: 30, size: 1 },
        FixedSlot { idx: 1, address: 10, size: 1 },
        FixedSlot { idx: 2, address: 30, size: 1 },
        FixedSlot { idx: 3, address: 20, size: 1 },
        FixedSlot { idx: 4, address: 10, size: 1 },
    ];
    let sorted: Vec<usize> = sort_by_address(&slots).iter().map(|s| s.idx).collect();
    assert_eq!(sorted, vec![1, 4, 3, 0, 2]);
}

#[test]
fn fixed_addresses_are_aligned_down() {
    assert_eq!(align_down(0x40080), 0x40000);
    assert_eq!(align_down(0x40000), 0x40000);
    assert_eq!(align_down(0x403FF), 0x40000);
    assert_eq!(align_down(0x40400), 0x40400);
    assert_eq!(align_down(1023), 0);
}

#[test]
fn replace_idx_returns_the_index_before() {
    let mut app = flexible(64);
    assert_eq!(app.get_idx(), None);
    assert_eq!(app.replace_idx(3), None);
    assert_eq!(app.replace_idx(5), Some(3));
    assert_eq!(app.get_idx(), Some(5));
    assert_eq!(app.get_size(), 64);
    let entry = app.as_index(0x1000);
    assert_eq!((entry.idx, entry.address, entry.size), (Some(5), 0x1000, 64));

    let mut app = fixed(128, 0x2000);
    assert_eq!(app.replace_idx(1), None);
    assert_eq!(app.get_idx(), Some(1));
    assert_eq!(app.get_size(), 128);
}

#[test]
fn padding_binary_is_a_header_and_zeros() {
    let padding = create_padding(64);
    assert_eq!(padding.len(), 64);
    assert_eq!(
        &padding[0..16],
        &[0x02, 0x00, 0x10, 0x00, 0x40, 0x00, 0x00, 0x00, 0, 0, 0, 0, 0x42, 0x00, 0x10, 0x00]
    );
    assert!(padding[16..].iter().all(|b| *b == 0));

    // It parses as padding of that length.
    let (version, header_size, total_size) =
        parse_tbf_header_lengths(&padding[0..8].try_into().unwrap()).unwrap();
    assert_eq!((version, header_size, total_size), (2, 16, 64));
    let header = parse_tbf_header(&padding[0..16], 2).unwrap();
    assert!(!header.is_app());
    assert!(!header.enabled());
    assert_eq!(header.total_size(), 64);

    // It is never shorter than its header.
    assert_eq!(create_padding(16).len(), 16);
    assert_eq!(create_padding(4).len(), 16);
    assert_eq!(create_padding(17).len(), 17);
}

#[test]
fn packet_is_the_binaries_in_layout_order() {
    let layout = vec![
        Index { idx: Some(1), address: 0, size: 3 },
        Index { idx: None, address: 3, size: 20 },
        Index { idx: Some(0), address: 23, size: 2 },
    ];
    let binaries = vec![vec![0xA0, 0xA1], vec![0xB0, 0xB1, 0xB2]];
    let pkt = create_pkt(layout, binaries);
    let mut expected = vec![0xB0, 0xB1, 0xB2];
    expected.extend_from_slice(&create_padding(20));
    expected.extend_from_slice(&[0xA0, 0xA1]);
    assert_eq!(pkt, expected);
    assert_eq!(pkt.len(), 25);

    assert!(create_pkt(Vec::new(), Vec::new()).is_empty());
}

/// Checks all that must hold of a layout of `apps`, and returns its padding.
fn check_layout(board: &BoardSettings, apps: &[TockApp], layout: &[Index]) -> u64 {
    let mut cursor = board.start_address;
    let mut padding = 0;
    let mut seen = vec![false; apps.len()];
    for entry in layout {
        assert_eq!(entry.address, cursor);
        match entry.idx {
            None => {
                assert!(entry.size >= 1);
                padding += entry.size;
            }
            Some(idx) => {
                assert!(!seen[idx]);
                seen[idx] = true;
                match &apps[idx] {
                    TockApp::Flexible(app) => {
                        assert_eq!(entry.size, app.size);
                        assert_eq!(entry.address % board.page_size, 0);
                    }
                    TockApp::Fixed(app) => {
                        assert_eq!(entry.size, app.size);
                        assert_eq!(entry.address, app.candidate_addresses[0]);
                        assert!(app.candidate_addresses.contains(&entry.address));
                    }
                }
            }
        }
        cursor += entry.size;
    }
    assert!(seen.iter().all(|s| *s));
    for pair in layout.windows(2) {
        assert!(pair[0].address < pair[1].address);
    }
    let sizes: u64 = apps.iter().map(|app| app.get_size()).sum();
    assert_eq!(cursor - board.start_address, sizes + padding);
    padding
}

#[test]
fn layouts_are_valid() {
    let board = settings(0x30000, 512);
    let cases: Vec<Vec<TockApp>> = vec![
        vec![flexible(1)],
        vec![flexible(700), flexible(300), flexible(1200), flexible(512)],
        vec![fixed(4096, 0x30000)],
        vec![fixed(100, 0x31000), flexible(512), fixed(300, 0x30400), flexible(2000)],
        vec![
            flexible(1000),
            fixed(2048, 0x34000),
            flexible(3000),
            fixed(1024, 0x32000),
            flexible(5000),
            flexible(24),
        ],
        vec![TockApp::Fixed(FixedApp::new(64, vec![0x30040, 0x50000])), flexible(64)],
    ];
    for apps in cases {
        let layout = reshuffle_apps(&board, apps.clone()).unwrap();
        check_layout(&board, &apps, &layout);
    }
}

#[test]
fn no_order_has_less_padding_than_the_layout() {
    let board = settings(0x30000, 512);
    let apps = vec![flexible(700), fixed(1000, 0x31000), flexible(300), flexible(1200)];
    let best = check_layout(&board, &apps, &reshuffle_apps(&board, apps.clone()).unwrap());
    let orders = [
        vec![0, 1, 2],
        vec![0, 2, 1],
        vec![1, 0, 2],
        vec![1, 2, 0],
        vec![2, 0, 1],
        vec![2, 1, 0],
    ];
    let mut least = u64::MAX;
    for order in orders {
        if let Some(layout) = reshuffle_apps_in_orders(&board, &apps, &vec![order]) {
            least = least.min(check_layout(&board, &apps, &layout));
        }
    }
    assert_eq!(best, least);
}

#[test]
fn a_packet_fits_when_it_is_the_layout_byte_for_byte() {
    let binaries = vec![vec![0xA0; 100], vec![0xB0; 512]];
    let layout = vec![
        Index { idx: Some(1), address: 0x1000, size: 512 },
        Index { idx: None, address: 0x1200, size: 16 },
        Index { idx: Some(0), address: 0x1210, size: 100 },
    ];
    assert!(packet_fits(&layout, &binaries));
    let pkt = create_pkt(layout.clone(), binaries.clone());
    assert_eq!(pkt.len(), 512 + 16 + 100);
    // Each binary stands at its entry's address, counted from the start.
    assert_eq!(&pkt[0..512], &binaries[1][..]);
    assert_eq!(&pkt[0x200..0x210], &create_padding(16)[..]);
    assert_eq!(&pkt[0x210..0x210 + 100], &binaries[0][..]);

    // A gap too short for a padding header.
    let mut short = layout.clone();
    short[1].size = 15;
    assert!(!packet_fits(&short, &binaries));
    assert_ne!(create_pkt(short, binaries.clone()).len(), 512 + 15 + 100);
    // A gap too long for a header to state.
    let mut long = layout.clone();
    long[1].size = 0x1_0000_0000;
    assert!(!packet_fits(&long, &binaries));
    long[1].size = 0xFFFF_FFFF;
    assert!(packet_fits(&long, &binaries));
    // A binary of another size than its entry, and one that is not there.
    let mut other = layout.clone();
    other[2].size = 99;
    assert!(!packet_fits(&other, &binaries));
    let mut missing = layout.clone();
    missing[0].idx = Some(2);
    assert!(!packet_fits(&missing, &binaries));
    assert!(packet_fits(&Vec::new(), &Vec::new()));
}

#[test]
fn an_order_that_names_an_app_twice_gives_a_layout_that_does_too() {
    // The planner lays out what the orders say; only orders that name
    // each flexible application once give valid layouts.
    let apps = vec![flexible(512), flexible(512)];
    let board = settings(0, 512);
    let layout = reshuffle_apps_in_orders(&board, &apps, &vec![vec![0, 0]]).unwrap();
    assert_eq!(entries(&layout), vec![(Some(0), 0, 512), (Some(0), 512, 512)]);
    let layout = reshuffle_apps(&board, apps.clone()).unwrap();
    assert_eq!(entries(&layout), vec![(Some(0), 0, 512), (Some(1), 512, 512)]);
}
