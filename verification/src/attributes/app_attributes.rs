//! The applications installed on a board.

use crate::tbf::parse::{
    parse_tbf_footer, parse_tbf_header, parse_tbf_header_lengths, spec_parse_footer,
    spec_parse_header, spec_parse_lengths,
};
use crate::tbf::types::{
    TbfFooterV2Credentials, TbfFooterV2CredentialsView, TbfHeader, TbfHeaderView,
};
use vstd::prelude::*;

verus! {

/// A footer of an application: its credential and the length of its value.
#[derive(Clone, Debug)]
pub struct TbfFooter {
    pub credentials: TbfFooterV2Credentials,
    pub size: u32,
}

impl TbfFooter {
    /// The footer with this credential and this length.
    pub fn new(credentials: TbfFooterV2Credentials, size: u32) -> (footer: TbfFooter)
        ensures
            footer.credentials == credentials,
            footer.size == size,
    {
        TbfFooter { credentials, size }
    }
}

/// An installed application: where it is, its header and its footers.
#[derive(Clone, Debug)]
pub struct AppAttributes {
    pub address: u64,
    pub tbf_header: TbfHeader,
    pub tbf_footers: Vec<TbfFooter>,
}

impl AppAttributes {
    /// The application at `address` with this header and these footers.
    pub fn new(address: u64, header_data: TbfHeader, footers_data: Vec<TbfFooter>) -> (app:
        AppAttributes)
        ensures
            app.address == address,
            app.tbf_header == header_data,
            app.tbf_footers == footers_data,
    {
        AppAttributes { address, tbf_header: header_data, tbf_footers: footers_data }
    }
}

impl View for TbfFooter {
    type V = (TbfFooterV2CredentialsView, u32);

    open spec fn view(&self) -> (TbfFooterV2CredentialsView, u32) {
        (self.credentials@, self.size)
    }
}

/// What an `AppAttributes` holds, as mathematical values.
#[verifier::ext_equal]
pub struct AppAttributesView {
    pub address: u64,
    pub header: TbfHeaderView,
    pub footers: Seq<(TbfFooterV2CredentialsView, u32)>,
}

/// The footers held by `footers`, as mathematical values.
pub open spec fn footers_view(footers: Seq<TbfFooter>) -> Seq<(TbfFooterV2CredentialsView, u32)> {
    Seq::new(footers.len(), |i: int| footers[i]@)
}

/// The applications held by `apps`, as mathematical values.
pub open spec fn apps_view(apps: Seq<AppAttributes>) -> Seq<AppAttributesView> {
    Seq::new(apps.len(), |i: int| apps[i]@)
}

impl View for AppAttributes {
    type V = AppAttributesView;

    open spec fn view(&self) -> AppAttributesView {
        AppAttributesView {
            address: self.address,
            header: self.tbf_header@,
            footers: footers_view(self.tbf_footers@),
        }
    }
}

/// What the walk over the installed applications asks for next.
#[derive(Clone, Copy, Debug, PartialEq, Eq, Structural)]
pub enum WalkRequest {
    /// Read `length` bytes at `address` and supply them.
    Read { address: u64, length: u32 },
    /// The walk is over.
    Done,
}

/// Where the walk stands within the application at its address.
#[derive(Clone, Debug)]
pub enum WalkStage {
    /// The first eight bytes are wanted.
    Lengths,
    /// The lengths are known; the header is wanted.
    Header { version: u16, header_size: u16, total_size: u32 },
    /// The header is known; the footer at `offset` is wanted.
    Footers { total_size: u32, header: TbfHeader, footers: Vec<TbfFooter>, offset: u32 },
    /// The chain has ended.
    Done,
}

/// What a `WalkStage` holds, as mathematical values.
#[verifier::ext_equal]
pub enum WalkStageView {
    Lengths,
    Header { version: u16, header_size: u16, total_size: u32 },
    Footers {
        total_size: u32,
        header: TbfHeaderView,
        footers: Seq<(TbfFooterV2CredentialsView, u32)>,
        offset: u32,
    },
    Done,
}

impl View for WalkStage {
    type V = WalkStageView;

    open spec fn view(&self) -> WalkStageView {
        match self {
            WalkStage::Lengths => WalkStageView::Lengths,
            WalkStage::Header { version, header_size, total_size } => WalkStageView::Header {
                version: *version,
                header_size: *header_size,
                total_size: *total_size,
            },
            WalkStage::Footers { total_size, header, footers, offset } => WalkStageView::Footers {
                total_size: *total_size,
                header: header@,
                footers: footers_view(footers@),
                offset: *offset,
            },
            WalkStage::Done => WalkStageView::Done,
        }
    }
}

/// The walk over the chain of installed applications: the address of the
/// application it stands at, the applications found before it, and where
/// it stands within this one.
///
/// The walk itself reads nothing. It says what to read, takes what was
/// read, and says what to read next, until the chain ends: at the first
/// place that holds no header, or a header or footer that does not parse.
/// What was found until then is the inventory.
#[derive(Clone, Debug)]
pub struct InventoryWalk {
    pub address: u64,
    pub apps: Vec<AppAttributes>,
    pub stage: WalkStage,
}

/// What an `InventoryWalk` holds, as mathematical values.
#[verifier::ext_equal]
pub struct InventoryWalkView {
    pub address: u64,
    pub apps: Seq<AppAttributesView>,
    pub stage: WalkStageView,
}

impl View for InventoryWalk {
    type V = InventoryWalkView;

    open spec fn view(&self) -> InventoryWalkView {
        InventoryWalkView { address: self.address, apps: apps_view(self.apps@), stage: self.stage@ }
    }
}

impl InventoryWalkView {
    /// The walk that stands at `start_address` and has found nothing.
    pub open spec fn start(start_address: u64) -> InventoryWalkView {
        InventoryWalkView {
            address: start_address,
            apps: Seq::empty(),
            stage: WalkStageView::Lengths,
        }
    }

    /// This walk at its end, with what it has found.
    pub open spec fn ended(self) -> InventoryWalkView {
        InventoryWalkView { stage: WalkStageView::Done, ..self }
    }

    /// This walk at the application after the one of `total_size` bytes it
    /// stands at, or at its end if there is no address for it.
    pub open spec fn at_next_app(self, total_size: u32) -> InventoryWalkView {
        if self.address + total_size > u64::MAX {
            self.ended()
        } else {
            InventoryWalkView {
                address: (self.address + total_size) as u64,
                apps: self.apps,
                stage: WalkStageView::Lengths,
            }
        }
    }

    /// What the walk asks for: the first eight bytes of the application it
    /// stands at, then its header, then what is left of it from each footer
    /// on. It never asks for no bytes at all.
    pub open spec fn request(self) -> WalkRequest {
        match self.stage {
            WalkStageView::Lengths => WalkRequest::Read { address: self.address, length: 8 },
            WalkStageView::Header { header_size, .. } => if header_size == 0 {
                WalkRequest::Done
            } else {
                WalkRequest::Read { address: self.address, length: header_size as u32 }
            },
            WalkStageView::Footers { total_size, offset, .. } => if offset < total_size
                && self.address + offset <= u64::MAX {
                WalkRequest::Read {
                    address: (self.address + offset) as u64,
                    length: (total_size - offset) as u32,
                }
            } else {
                WalkRequest::Done
            },
            WalkStageView::Done => WalkRequest::Done,
        }
    }

    /// The walk after `data` was read for it.
    ///
    /// Eight bytes that give no valid lengths end the walk, and so does a
    /// header or a footer that does not parse. A header without a Main
    /// element is padding: the walk goes on behind it. The footers of an
    /// application start where its binary ends; each is followed by the
    /// next, four bytes and its length further on, until the application's
    /// total length is reached. Then the application is added to those
    /// found and the walk goes on behind it.
    pub open spec fn supply(self, data: Seq<u8>) -> InventoryWalkView {
        match self.stage {
            WalkStageView::Lengths => if data.len() != 8 {
                self.ended()
            } else {
                match spec_parse_lengths(data) {
                    Err(_) => self.ended(),
                    Ok((version, header_size, total_size)) => InventoryWalkView {
                        stage: WalkStageView::Header { version, header_size, total_size },
                        ..self
                    },
                }
            },
            WalkStageView::Header { version, header_size, total_size } => match spec_parse_header(
                data,
                version,
            ) {
                Err(_) => self.ended(),
                Ok(header) => if total_size == 0 {
                    self.ended()
                } else if !header.is_app() {
                    self.at_next_app(total_size)
                } else if header.binary_end() > total_size {
                    self.ended()
                } else if header.binary_end() == total_size {
                    (InventoryWalkView {
                        apps: self.apps.push(
                            AppAttributesView {
                                address: self.address,
                                header,
                                footers: Seq::empty(),
                            },
                        ),
                        ..self
                    }).at_next_app(total_size)
                } else {
                    InventoryWalkView {
                        stage: WalkStageView::Footers {
                            total_size,
                            header,
                            footers: Seq::empty(),
                            offset: header.binary_end(),
                        },
                        ..self
                    }
                },
            },
            WalkStageView::Footers { total_size, header, footers, offset } => match spec_parse_footer(
                data,
            ) {
                Err(_) => self.ended(),
                Ok(footer) => if offset + footer.1 + 4 >= total_size {
                    (InventoryWalkView {
                        apps: self.apps.push(
                            AppAttributesView {
                                address: self.address,
                                header,
                                footers: footers.push(footer),
                            },
                        ),
                        ..self
                    }).at_next_app(total_size)
                } else {
                    InventoryWalkView {
                        stage: WalkStageView::Footers {
                            total_size,
                            header,
                            footers: footers.push(footer),
                            offset: (offset + footer.1 + 4) as u32,
                        },
                        ..self
                    }
                },
            },
            WalkStageView::Done => self,
        }
    }
}

impl InventoryWalk {
    /// The walk that starts at `start_address`.
    pub fn new(start_address: u64) -> (walk: InventoryWalk)
        ensures
            walk@ == InventoryWalkView::start(start_address),
    {
        let walk = InventoryWalk {
            address: start_address,
            apps: Vec::new(),
            stage: WalkStage::Lengths,
        };
        assert(walk@ =~= InventoryWalkView::start(start_address));
        walk
    }

    /// What to read next, or that the walk is over.
    pub fn request(&self) -> (request: WalkRequest)
        ensures
            request == self@.request(),
    {
        match &self.stage {
            WalkStage::Lengths => WalkRequest::Read { address: self.address, length: 8 },
            WalkStage::Header { version: _, header_size, total_size: _ } => {
                if *header_size == 0 {
                    WalkRequest::Done
                } else {
                    WalkRequest::Read { address: self.address, length: *header_size as u32 }
                }
            },
            WalkStage::Footers { total_size, header: _, footers: _, offset } => {
                if *offset < *total_size {
                    match self.address.checked_add(*offset as u64) {
                        Some(address) => WalkRequest::Read {
                            address,
                            length: *total_size - *offset,
                        },
                        None => WalkRequest::Done,
                    }
                } else {
                    WalkRequest::Done
                }
            },
            WalkStage::Done => WalkRequest::Done,
        }
    }

    /// Goes on to the application behind the one of `total_size` bytes at
    /// which the walk stands.
    fn go_to_next_app(&mut self, total_size: u32)
        ensures
            final(self)@ == old(self)@.at_next_app(total_size),
    {
        match self.address.checked_add(total_size as u64) {
            Some(address) => {
                self.address = address;
                self.stage = WalkStage::Lengths;
            },
            None => {
                self.stage = WalkStage::Done;
            },
        }
        assert(self@ =~= old(self)@.at_next_app(total_size));
    }

    /// Takes what was read for the last request.
    pub fn supply(&mut self, data: &[u8])
        ensures
            final(self)@ == old(self)@.supply(data@),
    {
        let ghost before = self@;
        let mut stage: WalkStage = WalkStage::Done;
        std::mem::swap(&mut stage, &mut self.stage);
        assert(self@ =~= before.ended());
        match stage {
            WalkStage::Lengths => {
                if data.len() == 8 {
                    let first: [u8; 8] = [
                        data[0],
                        data[1],
                        data[2],
                        data[3],
                        data[4],
                        data[5],
                        data[6],
                        data[7],
                    ];
                    assert(first@ =~= data@);
                    match parse_tbf_header_lengths(&first) {
                        Err(_) => {},
                        Ok((version, header_size, total_size)) => {
                            self.stage = WalkStage::Header { version, header_size, total_size };
                            assert(self@ =~= before.supply(data@));
                        },
                    }
                }
            },
            WalkStage::Header { version, header_size, total_size } => {
                match parse_tbf_header(data, version) {
                    Err(_) => {},
                    Ok(header) => {
                        if total_size == 0 {
                        } else if !header.is_app() {
                            self.go_to_next_app(total_size);
                        } else {
                            let binary_end: u32 = header.get_binary_end();
                            if binary_end > total_size {
                            } else if binary_end == total_size {
                                let ghost found = AppAttributesView {
                                    address: self.address,
                                    header: header@,
                                    footers: Seq::empty(),
                                };
                                let app = AppAttributes::new(self.address, header, Vec::new());
                                assert(app@ =~= found);
                                self.apps.push(app);
                                assert(apps_view(self.apps@) =~= before.apps.push(found));
                                self.go_to_next_app(total_size);
                            } else {
                                self.stage = WalkStage::Footers {
                                    total_size,
                                    header,
                                    footers: Vec::new(),
                                    offset: binary_end,
                                };
                                assert(self@ =~= before.supply(data@));
                            }
                        }
                    },
                }
            },
            WalkStage::Footers { total_size, header, footers, offset } => {
                let mut footers = footers;
                let ghost earlier = footers_view(footers@);
                match parse_tbf_footer(data) {
                    Err(_) => {},
                    Ok((credentials, length)) => {
                        let ghost footer = (credentials@, length);
                        footers.push(TbfFooter::new(credentials, length));
                        assert(footers_view(footers@) =~= earlier.push(footer));
                        let next: u64 = offset as u64 + length as u64 + 4;
                        if next >= total_size as u64 {
                            let ghost found = AppAttributesView {
                                address: self.address,
                                header: header@,
                                footers: earlier.push(footer),
                            };
                            let app = AppAttributes::new(self.address, header, footers);
                            assert(app@ =~= found);
                            self.apps.push(app);
                            assert(apps_view(self.apps@) =~= before.apps.push(found));
                            self.go_to_next_app(total_size);
                        } else {
                            self.stage = WalkStage::Footers {
                                total_size,
                                header,
                                footers,
                                offset: next as u32,
                            };
                            assert(self@ =~= before.supply(data@));
                        }
                    },
                }
            },
            WalkStage::Done => {},
        }
    }

    /// The applications found.
    pub fn into_apps(self) -> (apps: Vec<AppAttributes>)
        ensures
            apps_view(apps@) == self@.apps,
    {
        self.apps
    }
}

/// What reading `length` bytes at `address` gives when the flash from
/// `base` on holds `image`, or nothing if the bytes asked for do not all lie
/// in the image.
pub open spec fn spec_read(image: Seq<u8>, base: u64, address: u64, length: u32) -> Option<
    Seq<u8>,
> {
    if address >= base && address - base + length <= image.len() {
        Some(image.subrange(address - base, address - base + length))
    } else {
        None
    }
}

/// How much of the image lies at and behind the application at which the
/// walk stands.
pub open spec fn spec_span_left(image: Seq<u8>, base: u64, walk: InventoryWalkView) -> nat {
    if walk.address < base + image.len() {
        (base + image.len() - walk.address) as nat
    } else {
        0
    }
}

/// How many stages the walk has before it within the application at which
/// it stands.
pub open spec fn spec_stages_left(walk: InventoryWalkView) -> nat {
    match walk.stage {
        WalkStageView::Lengths => 3,
        WalkStageView::Header { .. } => 2,
        WalkStageView::Footers { .. } => 1,
        WalkStageView::Done => 0,
    }
}

/// How many bytes of footers the walk has before it within the application
/// at which it stands.
pub open spec fn spec_footers_left(walk: InventoryWalkView) -> nat {
    match walk.stage {
        WalkStageView::Footers { total_size, offset, .. } => if offset < total_size {
            (total_size - offset) as nat
        } else {
            0
        },
        _ => 0,
    }
}

/// The applications that the walk `walk` ends with when every read is
/// answered from `image`, which is what the flash holds from `base` on. A
/// read that the image cannot answer ends the walk.
pub open spec fn spec_walk(image: Seq<u8>, base: u64, walk: InventoryWalkView) -> Seq<
    AppAttributesView,
>
    decreases spec_span_left(image, base, walk), spec_stages_left(walk), spec_footers_left(walk),
{
    match walk.request() {
        WalkRequest::Done => walk.apps,
        WalkRequest::Read { address, length } => match spec_read(image, base, address, length) {
            None => walk.apps,
            Some(data) => spec_walk(image, base, walk.supply(data)),
        },
    }
}

/// The applications installed from `start_address` on, in the flash that
/// `image` shows from `base` on.
pub open spec fn spec_installed_apps(image: Seq<u8>, base: u64, start_address: u64) -> Seq<
    AppAttributesView,
> {
    spec_walk(image, base, InventoryWalkView::start(start_address))
}

/// Two walks over the same flash find the same applications: what a walk
/// finds depends on nothing but what the flash holds and where the walk
/// starts.
pub proof fn lemma_walks_agree(
    image: Seq<u8>,
    base: u64,
    start_address: u64,
    first: Seq<AppAttributesView>,
    second: Seq<AppAttributesView>,
)
    requires
        first == spec_installed_apps(image, base, start_address),
        second == spec_installed_apps(image, base, start_address),
    ensures
        first == second,
{
}

/// Walks the applications installed from `start_address` on in a copy of
/// the flash: `image` holds what the flash holds from `base` on.
pub fn read_apps_from_image(image: &[u8], base: u64, start_address: u64) -> (apps: Vec<
    AppAttributes,
>)
    ensures
        apps_view(apps@) == spec_installed_apps(image@, base, start_address),
{
    let mut walk = InventoryWalk::new(start_address);
    loop
        invariant
            spec_walk(image@, base, walk@) == spec_installed_apps(image@, base, start_address),
        decreases
                spec_span_left(image@, base, walk@),
                spec_stages_left(walk@),
                spec_footers_left(walk@),
    {
        match walk.request() {
            WalkRequest::Done => {
                return walk.into_apps();
            },
            WalkRequest::Read { address, length } => {
                if address < base || address - base > image.len() as u64 || length as u64
                    > image.len() as u64 - (address - base) {
                    return walk.into_apps();
                }
                let from: usize = (address - base) as usize;
                walk.supply(vstd::slice::slice_subrange(image, from, from + length as usize));
            },
        }
    }
}

} // verus!
