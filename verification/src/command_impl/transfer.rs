//! What is sent to a board to read, write, erase, uninstall and disable.

use crate::attributes::app_attributes::{apps_view, AppAttributes, AppAttributesView};
use crate::bootloader_serial::{Command, Response};
use crate::bytes::{push_u16, push_u32, read_u32, u16_bytes, u32_bytes};
use crate::command_impl::reshuffle_apps::{append_bytes, spec_zeros};
use crate::tbf::checksum::{
    checksum_holds, lemma_checksum_ignores_prologue_words, lemma_patched_words, stored_checksum,
    stored_flags, with_flags_and_checksum, word, word_count, word_for_checksum, xor_for_checksum,
};
use crate::tbf::parse::{spec_base, spec_parse_header, spec_parse_lengths};
use crate::tbf::types::{TbfHeaderView, TbfParseError, FLAG_ENABLED};
use vstd::prelude::*;
use vstd::utf8::{encode_utf8, encode_utf8_decode_utf8};

verus! {

/// Size of the blank page that is written behind the applications that
/// move down when one is uninstalled.
pub const BLANK_PAGE_SIZE: usize = 512;

/// The low 32 bits of `address`: the serial protocol addresses no more.
pub open spec fn spec_wire_address(address: u64) -> u32 {
    (address % 0x1_0000_0000) as u32
}

/// The low 16 bits of `length`: the serial protocol counts no further.
pub open spec fn spec_wire_length(length: usize) -> u16 {
    (length % 0x1_0000) as u16
}

/// The payload that asks for `length` bytes from `address`: the address in
/// four bytes, the length in two, both little-endian.
pub open spec fn spec_read_range_payload(address: u64, length: usize) -> Seq<u8> {
    u32_bytes(spec_wire_address(address)) + u16_bytes(spec_wire_length(length))
}

/// Builds the payload of a `ReadRange` command.
pub fn read_range_payload(address: u64, length: usize) -> (payload: Vec<u8>)
    ensures
        payload@ == spec_read_range_payload(address, length),
        payload@.len() == 6,
{
    let mut payload: Vec<u8> = Vec::new();
    push_u32(&mut payload, (address % 0x1_0000_0000) as u32);
    push_u16(&mut payload, (length % 0x1_0000) as u16);
    payload
}

/// Builds the payload of an `ErasePage` command: the address of the page in
/// four bytes, little-endian.
pub fn erase_page_payload(address: u64) -> (payload: Vec<u8>)
    ensures
        payload@ == u32_bytes(spec_wire_address(address)),
{
    let mut payload: Vec<u8> = Vec::new();
    push_u32(&mut payload, (address % 0x1_0000_0000) as u32);
    payload
}

/// The length of `length` bytes once they fill whole pages of `page_size`
/// bytes.
pub open spec fn spec_padded_size(length: int, page_size: int) -> int
    recommends
        page_size > 0,
{
    if length % page_size == 0 {
        length
    } else {
        length + page_size - length % page_size
    }
}

/// `data` with zero bytes added up to a whole number of pages.
pub open spec fn spec_pad_to_pages(data: Seq<u8>, page_size: int) -> Seq<u8>
    recommends
        page_size > 0,
{
    data + spec_zeros((spec_padded_size(data.len() as int, page_size) - data.len()) as nat)
}

/// Pads `data` with zero bytes up to a whole number of pages. Nothing for a
/// page size of zero, or if the padded length does not fit the machine.
pub fn pad_to_pages(data: &[u8], page_size: usize) -> (padded: Option<Vec<u8>>)
    ensures
        match padded {
            Some(p) => page_size > 0 && p@ == spec_pad_to_pages(data@, page_size as int) && (
            p@.len() as int) % (page_size as int) == 0,
            None => page_size == 0 || spec_padded_size(data@.len() as int, page_size as int)
                > usize::MAX,
        },
{
    if page_size == 0 {
        return None;
    }
    let rest: usize = data.len() % page_size;
    let missing: usize = if rest == 0 {
        0
    } else {
        page_size - rest
    };
    if missing > usize::MAX - data.len() {
        return None;
    }
    let mut padded: Vec<u8> = Vec::new();
    append_bytes(&mut padded, data);
    let mut added: usize = 0;
    while added < missing
        invariant
            added <= missing,
            padded@ == data@ + spec_zeros(added as nat),
        decreases missing - added,
    {
        padded.push(0);
        added = added + 1;
        assert(padded@ =~= data@ + spec_zeros(added as nat));
    }
    assert((data@.len() + missing) % (page_size as int) == 0) by (nonlinear_arith)
        requires
            page_size > 0,
            rest == (data@.len() as int) % (page_size as int),
            missing == if rest == 0 {
                0
            } else {
                page_size - rest
            },
    ;
    Some(padded)
}

/// One command for the bootloader: what to ask, with which payload, and
/// which response to expect.
#[derive(Clone, Debug)]
pub struct SerialRequest {
    pub command: Command,
    pub payload: Vec<u8>,
    pub response: Response,
}

/// What a `SerialRequest` holds, as mathematical values.
#[verifier::ext_equal]
pub struct SerialRequestView {
    pub command: Command,
    pub payload: Seq<u8>,
    pub response: Response,
}

impl View for SerialRequest {
    type V = SerialRequestView;

    open spec fn view(&self) -> SerialRequestView {
        SerialRequestView { command: self.command, payload: self.payload@, response: self.response }
    }
}

/// The requests held by `requests`, as mathematical values.
pub open spec fn requests_view(requests: Seq<SerialRequest>) -> Seq<SerialRequestView> {
    Seq::new(requests.len(), |i: int| requests[i]@)
}

/// The request that writes the page of index `page` of `padded` to the
/// board: the address of the page, then its bytes.
pub open spec fn spec_write_page(
    address: u64,
    padded: Seq<u8>,
    page_size: int,
    page: int,
) -> SerialRequestView {
    SerialRequestView {
        command: Command::WritePage,
        payload: u32_bytes(((address + page * page_size) % 0x1_0000_0000) as u32)
            + padded.subrange(page * page_size, page * page_size + page_size),
        response: Response::OK,
    }
}

/// The request that erases the page behind what was written, which marks
/// the end of the chain of applications.
pub open spec fn spec_erase_behind(address: u64, written: int) -> SerialRequestView {
    SerialRequestView {
        command: Command::ErasePage,
        payload: u32_bytes(((address + written) % 0x1_0000_0000) as u32),
        response: Response::OK,
    }
}

/// The requests that write `data` to `address` over the serial line: the
/// data is padded with zero bytes to whole pages, each page is written with
/// a `WritePage`, and the page behind the last is erased.
pub open spec fn spec_serial_write(address: u64, data: Seq<u8>, page_size: int) -> Seq<
    SerialRequestView,
>
    recommends
        page_size > 0,
{
    let padded = spec_pad_to_pages(data, page_size);
    Seq::new(
        (padded.len() / (page_size as nat) + 1) as nat,
        |i: int|
            if i < padded.len() / (page_size as nat) {
                spec_write_page(address, padded, page_size, i)
            } else {
                spec_erase_behind(address, padded.len() as int)
            },
    )
}

/// Plans the requests that write `data` to `address` over the serial line.
/// Nothing for a page size of zero, or if the padded data does not fit the
/// machine.
pub fn plan_serial_write(address: u64, data: &[u8], page_size: usize) -> (plan: Option<
    Vec<SerialRequest>,
>)
    ensures
        match plan {
            Some(requests) => page_size > 0 && requests_view(requests@) == spec_serial_write(
                address,
                data@,
                page_size as int,
            ),
            None => page_size == 0 || spec_padded_size(data@.len() as int, page_size as int)
                > usize::MAX,
        },
{
    let padded: Vec<u8> = match pad_to_pages(data, page_size) {
        None => {
            return None;
        },
        Some(padded) => padded,
    };
    let pages: usize = padded.len() / page_size;
    assert(pages * page_size <= padded@.len()) by (nonlinear_arith)
        requires
            page_size > 0,
            pages == (padded@.len() as int) / (page_size as int),
    ;
    let mut requests: Vec<SerialRequest> = Vec::new();
    let mut page: usize = 0;
    while page < pages
        invariant
            page_size > 0,
            page <= pages,
            pages == padded@.len() / (page_size as nat),
            pages * page_size <= padded@.len() <= usize::MAX,
            requests@.len() == page,
            forall|i: int|
                0 <= i < page ==> (#[trigger] requests@[i])@ == spec_write_page(
                    address,
                    padded@,
                    page_size as int,
                    i,
                ),
        decreases pages - page,
    {
        assert(page * page_size + page_size <= pages * page_size) by (nonlinear_arith)
            requires
                page < pages,
                page_size > 0,
        ;
        let start: usize = page * page_size;
        let mut payload: Vec<u8> = Vec::new();
        let target: u64 = ((address as u128 + start as u128) % 0x1_0000_0000) as u64;
        push_u32(&mut payload, target as u32);
        append_bytes(
            &mut payload,
            vstd::slice::slice_subrange(padded.as_slice(), start, start + page_size),
        );
        let request = SerialRequest {
            command: Command::WritePage,
            payload,
            response: Response::OK,
        };
        assert(request@ =~= spec_write_page(address, padded@, page_size as int, page as int));
        requests.push(request);
        page = page + 1;
    }
    let mut payload: Vec<u8> = Vec::new();
    let behind: u64 = ((address as u128 + padded.len() as u128) % 0x1_0000_0000) as u64;
    push_u32(&mut payload, behind as u32);
    let erase = SerialRequest { command: Command::ErasePage, payload, response: Response::OK };
    assert(erase@ =~= spec_erase_behind(address, padded@.len() as int));
    requests.push(erase);
    assert(requests_view(requests@) =~= spec_serial_write(address, data@, page_size as int));
    Some(requests)
}

/// What erases all applications when written where they start: one zero
/// byte.
pub fn erase_marker() -> (marker: Vec<u8>)
    ensures
        marker@ == seq![0u8],
{
    let mut marker: Vec<u8> = Vec::new();
    marker.push(0);
    marker
}

/// Once its first byte is zero, a place holds no header: its lengths do not
/// parse, and the chain of applications ends there.
pub proof fn lemma_erased_place_ends_chain(first: Seq<u8>)
    requires
        first.len() == 8,
        first[0] == 0,
    ensures
        spec_parse_lengths(first) is Err,
{
    let lo: u8 = first[0];
    let hi: u8 = first[1];
    assert((lo as u16) | ((hi as u16) << 8) != 2) by (bit_vector)
        requires
            lo == 0,
    ;
}

/// What is written to uninstall an application: the applications behind it,
/// as they were read from the board, and a blank page behind them.
pub fn uninstall_image(tail: &[u8]) -> (image: Vec<u8>)
    ensures
        image@ == tail@ + spec_zeros(BLANK_PAGE_SIZE as nat),
{
    let mut image: Vec<u8> = Vec::new();
    append_bytes(&mut image, tail);
    let mut added: usize = 0;
    while added < BLANK_PAGE_SIZE
        invariant
            added <= BLANK_PAGE_SIZE,
            image@ == tail@ + spec_zeros(added as nat),
        decreases BLANK_PAGE_SIZE - added,
    {
        image.push(0);
        added = added + 1;
        assert(image@ =~= tail@ + spec_zeros(added as nat));
    }
    image
}

/// The sum of the sizes `sizes` from index `from` on.
pub open spec fn spec_size_from(sizes: Seq<u32>, from: int) -> int
    decreases sizes.len() - from,
{
    if from < 0 || from >= sizes.len() {
        0
    } else {
        sizes[from] + spec_size_from(sizes, from + 1)
    }
}

/// The number of bytes that the applications behind the one of index
/// `index` take up, given the sizes of all applications in their order.
/// Nothing if the sum does not fit the machine.
pub fn tail_size(sizes: &[u32], index: usize) -> (total: Option<usize>)
    ensures
        match total {
            Some(n) => n == spec_size_from(sizes@, index + 1),
            None => spec_size_from(sizes@, index + 1) > usize::MAX,
        },
{
    if index >= sizes.len() {
        return Some(0);
    }
    let mut total: usize = 0;
    let mut i: usize = sizes.len();
    while i > index + 1
        invariant
            index + 1 <= i <= sizes.len(),
            total == spec_size_from(sizes@, i as int),
        decreases i,
    {
        i = i - 1;
        if sizes[i] as u64 > (usize::MAX - total) as u64 {
            proof {
                lemma_size_from_grows(sizes@, index + 1, i as int);
            }
            return None;
        }
        total = total + sizes[i] as usize;
    }
    Some(total)
}

/// The sizes from an earlier index on sum to no less than those from a
/// later one on.
proof fn lemma_size_from_grows(sizes: Seq<u32>, earlier: int, later: int)
    requires
        0 <= earlier <= later,
    ensures
        spec_size_from(sizes, earlier) >= spec_size_from(sizes, later) >= 0,
    decreases sizes.len() - earlier,
{
    if later < sizes.len() {
        lemma_size_from_grows(sizes, later + 1, later + 1);
    }
    if earlier < later && earlier < sizes.len() {
        lemma_size_from_grows(sizes, earlier + 1, later);
    }
}

/// The index of the first of `apps`, from `from` on, whose package name is
/// `name`; the number of applications if there is none.
pub open spec fn spec_find_app(apps: Seq<AppAttributesView>, name: Seq<char>, from: int) -> int
    decreases apps.len() - from,
{
    if from < 0 || from >= apps.len() {
        apps.len() as int
    } else if apps[from].header.elements.package_name == Some(name) {
        from
    } else {
        spec_find_app(apps, name, from + 1)
    }
}

/// Finds the first application whose package name is `name`.
pub fn find_app(apps: &Vec<AppAttributes>, name: &str) -> (found: Option<usize>)
    ensures
        match found {
            Some(i) => i < apps@.len() && spec_find_app(apps_view(apps@), name@, 0) == i,
            None => spec_find_app(apps_view(apps@), name@, 0) == apps@.len(),
        },
{
    let wanted: &[u8] = name.as_bytes();
    let mut i: usize = 0;
    while i < apps.len()
        invariant
            i <= apps@.len(),
            wanted@ == encode_utf8(name@),
            spec_find_app(apps_view(apps@), name@, i as int) == spec_find_app(
                apps_view(apps@),
                name@,
                0,
            ),
        decreases apps.len() - i,
    {
        let same: bool = match apps[i].tbf_header.get_package_name() {
            None => false,
            Some(has) => {
                let bytes: &[u8] = has.as_bytes();
                let same: bool = bytes.len() == wanted.len() && crate::tabs::tab::starts_with(
                    bytes,
                    wanted,
                );
                proof {
                    if bytes@.len() == wanted@.len() {
                        assert(bytes@.subrange(0, wanted@.len() as int) =~= bytes@);
                    }
                    encode_utf8_decode_utf8(has@);
                    encode_utf8_decode_utf8(name@);
                }
                same
            },
        };
        assert(same == (apps_view(apps@)[i as int].header.elements.package_name == Some(
            name@,
        )));
        if same {
            return Some(i);
        }
        i = i + 1;
    }
    None
}

/// What uninstalling an application takes: what to read of the
/// applications behind it, if there are any, and where to write them, with
/// a blank page behind them.
#[derive(Clone, Copy, Debug)]
pub struct UninstallPlan {
    /// The address and the length of the applications behind the one that
    /// goes, if any lie behind it.
    pub tail: Option<(u64, usize)>,
    /// The address of the application that goes.
    pub target: u64,
}

/// The sizes that the headers of `apps` state, in their order.
pub open spec fn spec_app_sizes(apps: Seq<AppAttributesView>) -> Seq<u32> {
    Seq::new(apps.len(), |i: int| apps[i].header.base.total_size)
}

/// What uninstalling the application of index `index` takes: the
/// applications behind it, which are as long together as their total
/// lengths say, move to its address. Nothing if there is no such
/// application or what lies behind it does not fit the machine.
pub open spec fn spec_uninstall_plan(apps: Seq<AppAttributesView>, index: int) -> Option<
    UninstallPlan,
> {
    let length = spec_size_from(spec_app_sizes(apps), index + 1);
    if index < 0 || index >= apps.len() || length > usize::MAX {
        None
    } else if length > 0 && index + 1 < apps.len() {
        Some(
            UninstallPlan {
                tail: Some((apps[index + 1].address, length as usize)),
                target: apps[index].address,
            },
        )
    } else {
        Some(UninstallPlan { tail: None, target: apps[index].address })
    }
}

/// Plans the uninstalling of the application of index `index`.
pub fn uninstall_plan(apps: &Vec<AppAttributes>, index: usize) -> (plan: Option<UninstallPlan>)
    ensures
        plan == spec_uninstall_plan(apps_view(apps@), index as int),
{
    if index >= apps.len() {
        return None;
    }
    let mut sizes: Vec<u32> = Vec::new();
    let mut i: usize = 0;
    while i < apps.len()
        invariant
            i <= apps@.len(),
            sizes@ == spec_app_sizes(apps_view(apps@)).take(i as int),
        decreases apps.len() - i,
    {
        sizes.push(apps[i].tbf_header.total_size());
        i = i + 1;
        assert(sizes@ =~= spec_app_sizes(apps_view(apps@)).take(i as int));
    }
    assert(sizes@ =~= spec_app_sizes(apps_view(apps@)));
    match tail_size(sizes.as_slice(), index) {
        None => None,
        Some(length) => if length > 0 && index + 1 < apps.len() {
            Some(
                UninstallPlan {
                    tail: Some((apps[index + 1].address, length)),
                    target: apps[index].address,
                },
            )
        } else {
            Some(UninstallPlan { tail: None, target: apps[index].address })
        },
    }
}

/// The flags and the checksum that disabling writes over those of a header.
#[derive(Clone, Copy, Debug, PartialEq, Eq, Structural)]
pub struct DisablePatch {
    pub flags: u32,
    pub checksum: u32,
}

/// The flags with the enabled bit cleared, and the checksum with its
/// lowest bit flipped if the enabled bit was set: the flags change by that
/// bit, and so must the XOR of the header's other words. Flags that are
/// not enabled stay as they are, and the checksum with them.
pub open spec fn spec_disable_patch(flags: u32, checksum: u32) -> DisablePatch {
    DisablePatch { flags: flags & !FLAG_ENABLED, checksum: checksum ^ (flags & FLAG_ENABLED) }
}

/// The eight bytes that a patch writes from the flags word on: the flags,
/// then the checksum, both little-endian.
pub open spec fn spec_patch_bytes(patch: DisablePatch) -> Seq<u8> {
    u32_bytes(patch.flags) + u32_bytes(patch.checksum)
}

/// What disabling writes over the flags and the checksum of the header that
/// starts `header`: the flags with the enabled bit cleared, and the
/// checksum that goes with them. Nothing if `header` is shorter than
/// sixteen bytes.
pub fn disable_patch(header: &[u8]) -> (patch: Option<DisablePatch>)
    ensures
        match patch {
            Some(p) => header@.len() >= 16 && p == spec_disable_patch(
                stored_flags(header@),
                stored_checksum(header@),
            ),
            None => header@.len() < 16,
        },
{
    if header.len() < 16 {
        return None;
    }
    let flags: u32 = read_u32(header, 8);
    let checksum: u32 = read_u32(header, 12);
    Some(
        DisablePatch { flags: flags & !FLAG_ENABLED, checksum: checksum ^ (flags & FLAG_ENABLED) },
    )
}

impl DisablePatch {
    /// The eight bytes to write from the flags word on, eight bytes into
    /// the header.
    pub fn bytes(&self) -> (bytes: Vec<u8>)
        ensures
            bytes@ == spec_patch_bytes(*self),
            bytes@.len() == 8,
    {
        let mut bytes: Vec<u8> = Vec::new();
        push_u32(&mut bytes, self.flags);
        push_u32(&mut bytes, self.checksum);
        bytes
    }
}

/// Taking other flags changes the checksum by the bits in which the flags
/// differ.
pub proof fn lemma_checksum_follows_flags(bytes: Seq<u8>, before: u32, after: u32, n: nat)
    requires
        n >= 3,
    ensures
        xor_for_checksum(bytes, after, n) == xor_for_checksum(bytes, before, n) ^ before ^ after,
    decreases n,
{
    if n == 3 {
        reveal_with_fuel(xor_for_checksum, 4);
        let w0 = word(bytes, 0);
        let w1 = word(bytes, 1);
        assert(((0u32 ^ w0) ^ w1) ^ after == ((((0u32 ^ w0) ^ w1) ^ before) ^ before) ^ after)
            by (bit_vector);
    } else {
        lemma_checksum_follows_flags(bytes, before, after, (n - 1) as nat);
        let x = xor_for_checksum(bytes, before, (n - 1) as nat);
        let w = word_for_checksum(bytes, before, n - 1);
        assert(word_for_checksum(bytes, after, n - 1) == w);
        assert(((x ^ before) ^ after) ^ w == ((x ^ w) ^ before) ^ after) by (bit_vector);
    }
}

/// Disabling keeps a sound header sound: with the patch written over its
/// flags and checksum, the words of the header still XOR to zero, so it
/// parses again. Nothing else of the header changes.
pub proof fn lemma_disable_keeps_checksum(header: Seq<u8>)
    requires
        header.len() >= 16,
        checksum_holds(header),
    ensures
        ({
            let patch = spec_disable_patch(stored_flags(header), stored_checksum(header));
            let patched = with_flags_and_checksum(header, patch.flags, patch.checksum);
            &&& checksum_holds(patched)
            &&& patched == header.subrange(0, 8) + spec_patch_bytes(patch) + header.subrange(
                16,
                header.len() as int,
            )
            &&& stored_flags(patched) == patch.flags
            &&& stored_checksum(patched) == patch.checksum
        }),
{
    let flags = stored_flags(header);
    let checksum = stored_checksum(header);
    let patch = spec_disable_patch(flags, checksum);
    let patched = with_flags_and_checksum(header, patch.flags, patch.checksum);
    lemma_patched_words(header, patch.flags, patch.checksum);
    lemma_checksum_ignores_prologue_words(patched, header, patch.flags, word_count(header));
    lemma_checksum_follows_flags(header, flags, patch.flags, word_count(header));
    let cleared: u32 = patch.flags;
    assert(checksum ^ (flags & 1) == (checksum ^ flags) ^ cleared) by (bit_vector)
        requires
            cleared == flags & !1u32,
    ;
    assert(patched =~= header.subrange(0, 8) + spec_patch_bytes(patch) + header.subrange(
        16,
        header.len() as int,
    ));
}

/// A header that parses still parses once it is disabled: as the same
/// header with the new flags and checksum, so with the lengths it had.
pub proof fn lemma_disabled_header_parses(header: Seq<u8>)
    requires
        spec_parse_header(header, 2) is Ok,
    ensures
        ({
            let patch = spec_disable_patch(stored_flags(header), stored_checksum(header));
            spec_parse_header(with_flags_and_checksum(header, patch.flags, patch.checksum), 2)
                == Ok::<TbfHeaderView, TbfParseError>(
                spec_parse_header(header, 2)->Ok_0.with_flags(patch.flags, patch.checksum),
            )
        }),
{
    let patch = spec_disable_patch(stored_flags(header), stored_checksum(header));
    let patched = with_flags_and_checksum(header, patch.flags, patch.checksum);
    lemma_disable_keeps_checksum(header);
    lemma_patched_words(header, patch.flags, patch.checksum);
    assert(patched.subrange(16, patched.len() as int) =~= header.subrange(
        16,
        header.len() as int,
    ));
    assert(spec_base(patched) == spec_parse_header(header, 2)->Ok_0.with_flags(
        patch.flags,
        patch.checksum,
    ).base);
}

/// What disabling does to the two words. Of an enabled application the
/// enabled bit is cleared and the lowest bit of the checksum flipped, and
/// setting the one and flipping the other again gives back what was there;
/// every other bit of the flags stays. An application that is not enabled
/// is left as it is, so disabling twice is disabling once.
pub proof fn lemma_disable_patch_bits(flags: u32, checksum: u32)
    ensures
        ({
            let patch = spec_disable_patch(flags, checksum);
            &&& patch.flags & FLAG_ENABLED == 0
            &&& patch.flags & !FLAG_ENABLED == flags & !FLAG_ENABLED
            &&& flags & FLAG_ENABLED == 1 ==> patch.flags == flags & 0xFFFF_FFFE && patch.checksum
                == checksum ^ 1 && patch.flags | FLAG_ENABLED == flags && patch.checksum ^ 1
                == checksum
            &&& flags & FLAG_ENABLED == 0 ==> patch.flags == flags && patch.checksum == checksum
            &&& spec_disable_patch(patch.flags, patch.checksum) == patch
        }),
{
    assert((flags & !1u32) & 1 == 0 && (flags & !1u32) & !1u32 == flags & !1u32 && (flags & 1 == 1
        ==> flags & !1u32 == flags & 0xFFFF_FFFE && checksum ^ (flags & 1) == checksum ^ 1 && (
    flags & !1u32) | 1 == flags && (checksum ^ (flags & 1)) ^ 1 == checksum) && (flags & 1 == 0
        ==> flags & !1u32 == flags && checksum ^ (flags & 1) == checksum) && (checksum ^ (flags
        & 1)) ^ ((flags & !1u32) & 1) == checksum ^ (flags & 1)) by (bit_vector);
}

} // verus!
