//! Parsing of headers and footers.
//!
//! The `spec_` functions say what the bytes mean; the executable functions
//! are proved to compute exactly that.

use crate::bytes::{read_u16, read_u32, u16_at, u32_at};
use crate::text::text_of_utf8;
use crate::tbf::checksum::{checksum_for, checksum_holds, expected_checksum, stored_checksum};
use crate::tbf::types::{
    InitialTbfParseError, TbfElements, TbfElementsView, TbfFooterV2Credentials,
    TbfFooterV2CredentialsType, TbfFooterV2CredentialsView, TbfFooterV2EcdsaNistP256,
    TbfFooterV2RSA, TbfFooterV2SHA, TbfHeader, TbfHeaderV2Base, TbfHeaderV2FixedAddresses,
    TbfHeaderV2KernelVersion, TbfHeaderV2Main, TbfHeaderV2Program,
    TbfHeaderV2WriteableFlashRegion, TbfHeaderView, TbfParseError, TbfTlvSpan, TbfTlvSpanView,
    BASE_SIZE, TLV_CREDENTIALS, TLV_FIXED_ADDRESSES, TLV_KERNEL_VERSION, TLV_MAIN,
    TLV_PACKAGE_NAME, TLV_PROGRAM, TLV_SHORT_ID, TLV_WRITEABLE_FLASH_REGIONS,
};
use vstd::prelude::*;
use vstd::utf8::{decode_utf8, valid_utf8};

verus! {

/// What the first eight bytes of a header say: the version, the header
/// length and the total length. Only version 2 is known; its header length
/// must be neither zero nor greater than the total length.
pub open spec fn spec_parse_lengths(app: Seq<u8>) -> Result<(u16, u16, u32), InitialTbfParseError>
    recommends
        app.len() == 8,
{
    let version = u16_at(app, 0);
    let header_size = u16_at(app, 2);
    let total_size = u32_at(app, 4);
    if version != 2 {
        Err(InitialTbfParseError::UnableToParse)
    } else if header_size == 0 || header_size as int > total_size as int {
        Err(InitialTbfParseError::InvalidHeader(total_size))
    } else {
        Ok((version, header_size, total_size))
    }
}

/// Reads the version, the header length and the total length from the first
/// eight bytes of a header.
pub fn parse_tbf_header_lengths(app: &[u8; 8]) -> (r: Result<
    (u16, u16, u32),
    InitialTbfParseError,
>)
    ensures
        r == spec_parse_lengths(app@),
        u16_at(app@, 2) == 0 ==> r is Err,
{
    let version: u16 = read_u16(app.as_slice(), 0);
    let header_size: u16 = read_u16(app.as_slice(), 2);
    let total_size: u32 = read_u32(app.as_slice(), 4);
    if version != 2 {
        Err(InitialTbfParseError::UnableToParse)
    } else if header_size == 0 || header_size as u32 > total_size {
        Err(InitialTbfParseError::InvalidHeader(total_size))
    } else {
        Ok((version, header_size, total_size))
    }
}

/// The fixed start that the first sixteen bytes of `header` hold.
pub open spec fn spec_base(header: Seq<u8>) -> TbfHeaderV2Base
    recommends
        header.len() >= 16,
{
    TbfHeaderV2Base {
        version: u16_at(header, 0),
        header_size: u16_at(header, 2),
        total_size: u32_at(header, 4),
        flags: u32_at(header, 8),
        checksum: u32_at(header, 12),
    }
}

/// Length of an element's value with the padding that aligns the next
/// element to four bytes.
pub open spec fn padded_length(length: int) -> int {
    ((length + 3) / 4) * 4
}

/// The Main element whose value starts at `at`.
pub open spec fn spec_main(tail: Seq<u8>, at: int) -> TbfHeaderV2Main {
    TbfHeaderV2Main {
        init_fn_offset: u32_at(tail, at),
        protected_trailer_size: u32_at(tail, at + 4),
        minimum_ram_size: u32_at(tail, at + 8),
    }
}

/// The Program element whose value starts at `at`.
pub open spec fn spec_program(tail: Seq<u8>, at: int) -> TbfHeaderV2Program {
    TbfHeaderV2Program {
        init_fn_offset: u32_at(tail, at),
        protected_trailer_size: u32_at(tail, at + 4),
        minimum_ram_size: u32_at(tail, at + 8),
        binary_end_offset: u32_at(tail, at + 12),
        version: u32_at(tail, at + 16),
    }
}

/// The writeable flash region of index `i` in the element whose value starts
/// at `at`.
pub open spec fn spec_region(tail: Seq<u8>, at: int, i: int) -> TbfHeaderV2WriteableFlashRegion {
    TbfHeaderV2WriteableFlashRegion {
        offset: u32_at(tail, at + 8 * i),
        size: u32_at(tail, at + 8 * i + 4),
    }
}

/// The elements `acc` with the element of type `tipe` and length `length`
/// added, whose value starts at `at` in `tail`.
///
/// A second Main or Program element is passed over. An element of fixed size
/// must have exactly that size; a list of writeable regions must be a whole
/// number of regions. An element of any other type is kept as it is.
pub open spec fn spec_with_element(
    acc: TbfElementsView,
    tipe: u16,
    length: int,
    tail: Seq<u8>,
    at: int,
) -> Result<TbfElementsView, TbfParseError> {
    let fits = at + length <= tail.len();
    if tipe == TLV_MAIN {
        if acc.main is Some {
            Ok(acc)
        } else if length != 12 {
            Err(TbfParseError::BadTlvEntry(TLV_MAIN as usize))
        } else if !fits {
            Err(TbfParseError::NotEnoughFlash)
        } else {
            Ok(TbfElementsView { main: Some(spec_main(tail, at)), ..acc })
        }
    } else if tipe == TLV_PROGRAM {
        if acc.program is Some {
            Ok(acc)
        } else if length != 20 {
            Err(TbfParseError::BadTlvEntry(TLV_PROGRAM as usize))
        } else if !fits {
            Err(TbfParseError::NotEnoughFlash)
        } else {
            Ok(TbfElementsView { program: Some(spec_program(tail, at)), ..acc })
        }
    } else if tipe == TLV_WRITEABLE_FLASH_REGIONS {
        if length % 8 != 0 {
            Err(TbfParseError::BadTlvEntry(TLV_WRITEABLE_FLASH_REGIONS as usize))
        } else if !fits {
            Err(TbfParseError::NotEnoughFlash)
        } else {
            Ok(
                TbfElementsView {
                    writeable_regions: Seq::new(
                        (length / 8) as nat,
                        |i: int| spec_region(tail, at, i),
                    ),
                    ..acc
                },
            )
        }
    } else if tipe == TLV_PACKAGE_NAME {
        if !fits {
            Err(TbfParseError::NotEnoughFlash)
        } else if !valid_utf8(tail.subrange(at, at + length)) {
            Err(TbfParseError::BadProcessName)
        } else {
            Ok(
                TbfElementsView {
                    package_name: Some(decode_utf8(tail.subrange(at, at + length))),
                    ..acc
                },
            )
        }
    } else if tipe == TLV_FIXED_ADDRESSES {
        if length != 8 {
            Err(TbfParseError::BadTlvEntry(TLV_FIXED_ADDRESSES as usize))
        } else if !fits {
            Err(TbfParseError::NotEnoughFlash)
        } else {
            Ok(
                TbfElementsView {
                    fixed_addresses: Some(
                        TbfHeaderV2FixedAddresses {
                            start_process_ram: u32_at(tail, at),
                            start_process_flash: u32_at(tail, at + 4),
                        },
                    ),
                    ..acc
                },
            )
        }
    } else if tipe == TLV_KERNEL_VERSION {
        if length != 4 {
            Err(TbfParseError::BadTlvEntry(TLV_KERNEL_VERSION as usize))
        } else if !fits {
            Err(TbfParseError::NotEnoughFlash)
        } else {
            Ok(
                TbfElementsView {
                    kernel_version: Some(
                        TbfHeaderV2KernelVersion {
                            major: u16_at(tail, at),
                            minor: u16_at(tail, at + 2),
                        },
                    ),
                    ..acc
                },
            )
        }
    } else if tipe == TLV_SHORT_ID {
        if length != 4 {
            Err(TbfParseError::BadTlvEntry(TLV_SHORT_ID as usize))
        } else if !fits {
            Err(TbfParseError::NotEnoughFlash)
        } else {
            Ok(TbfElementsView { short_id: Some(u32_at(tail, at)), ..acc })
        }
    } else {
        if !fits {
            Err(TbfParseError::NotEnoughFlash)
        } else {
            Ok(
                TbfElementsView {
                    other: acc.other.push(
                        TbfTlvSpanView { tipe, value: tail.subrange(at, at + length) },
                    ),
                    ..acc
                },
            )
        }
    }
}

/// The elements that `tail` holds from offset `pos` on, added to `acc`.
///
/// Each element is a type and a length, two bytes each, then the value,
/// then padding up to a multiple of four bytes. The walk ends when it has
/// used up `tail` exactly.
pub open spec fn spec_parse_elements(tail: Seq<u8>, pos: int, acc: TbfElementsView) -> Result<
    TbfElementsView,
    TbfParseError,
>
    decreases tail.len() - pos,
{
    if pos < 0 || pos >= tail.len() {
        Ok(acc)
    } else if pos + 4 > tail.len() {
        Err(TbfParseError::NotEnoughFlash)
    } else {
        let tipe = u16_at(tail, pos);
        let length = u16_at(tail, pos + 2) as int;
        match spec_with_element(acc, tipe, length, tail, pos + 4) {
            Err(e) => Err(e),
            Ok(next) => if pos + 4 + padded_length(length) > tail.len() {
                Err(TbfParseError::NotEnoughFlash)
            } else {
                spec_parse_elements(tail, pos + 4 + padded_length(length), next)
            },
        }
    }
}

/// What the bytes of a header mean.
///
/// Only version 2 is parsed. The buffer must hold the sixteen bytes of the
/// fixed start and store the checksum that its words call for; what follows
/// the fixed start is the chain of elements.
pub open spec fn spec_parse_header(header: Seq<u8>, version: u16) -> Result<
    TbfHeaderView,
    TbfParseError,
> {
    if version != 2 {
        Err(TbfParseError::UnsupportedVersion(version))
    } else if header.len() < 16 {
        Err(TbfParseError::InternalError)
    } else if !checksum_holds(header) {
        Err(TbfParseError::ChecksumMismatch(stored_checksum(header), expected_checksum(header)))
    } else {
        match spec_parse_elements(
            header.subrange(16, header.len() as int),
            0,
            TbfElementsView::none(),
        ) {
            Err(e) => Err(e),
            Ok(elements) => Ok(TbfHeaderView { base: spec_base(header), elements }),
        }
    }
}


/// A copy of the bytes of `s` from `from` up to `to`.
pub fn copy_range(s: &[u8], from: usize, to: usize) -> (out: Vec<u8>)
    requires
        from <= to <= s.len(),
    ensures
        out@ == s@.subrange(from as int, to as int),
{
    vstd::slice::slice_to_vec(vstd::slice::slice_subrange(s, from, to))
}

/// An empty set of elements.
fn no_elements() -> (e: TbfElements)
    ensures
        e@ == TbfElementsView::none(),
{
    let e = TbfElements {
        main: None,
        program: None,
        package_name: None,
        writeable_regions: Vec::new(),
        fixed_addresses: None,
        kernel_version: None,
        short_id: None,
        other: Vec::new(),
    };
    assert(e@ =~= TbfElementsView::none());
    e
}

/// What `spec_with_element` and `spec_parse_elements` give, for a result
/// that holds executable elements.
pub open spec fn elements_result_view(r: Result<TbfElements, TbfParseError>) -> Result<
    TbfElementsView,
    TbfParseError,
> {
    match r {
        Ok(e) => Ok(e@),
        Err(e) => Err(e),
    }
}

/// What `spec_parse_header` gives, for a result that holds an executable
/// header.
pub open spec fn header_result_view(r: Result<TbfHeader, TbfParseError>) -> Result<
    TbfHeaderView,
    TbfParseError,
> {
    match r {
        Ok(h) => Ok(h@),
        Err(e) => Err(e),
    }
}

/// Reads the writeable flash regions of an element whose value starts at
/// `at` and is `length` bytes long.
fn read_regions(tail: &[u8], at: usize, length: usize) -> (regions: Vec<
    TbfHeaderV2WriteableFlashRegion,
>)
    requires
        length % 8 == 0,
        at + length <= tail.len(),
    ensures
        regions@ == Seq::new((length / 8) as nat, |i: int| spec_region(tail@, at as int, i)),
{
    let count: usize = length / 8;
    let mut regions: Vec<TbfHeaderV2WriteableFlashRegion> = Vec::new();
    let mut i: usize = 0;
    while i < count
        invariant
            count == length / 8,
            length % 8 == 0,
            at + length <= tail.len(),
            i <= count,
            regions@ == Seq::new(i as nat, |k: int| spec_region(tail@, at as int, k)),
        decreases count - i,
    {
        let region = TbfHeaderV2WriteableFlashRegion {
            offset: read_u32(tail, at + 8 * i),
            size: read_u32(tail, at + 8 * i + 4),
        };
        regions.push(region);
        i = i + 1;
        assert(regions@ =~= Seq::new(i as nat, |k: int| spec_region(tail@, at as int, k)));
    }
    regions
}

/// Adds to `acc` the element of type `tipe` and length `length` whose value
/// starts at `at` in `tail`.
fn with_element(acc: TbfElements, tipe: u16, length: u16, tail: &[u8], at: usize) -> (r: Result<
    TbfElements,
    TbfParseError,
>)
    requires
        at <= tail.len(),
    ensures
        elements_result_view(r) == spec_with_element(acc@, tipe, length as int, tail@, at as int),
{
    let mut acc = acc;
    let ghost before = acc@;
    let len: usize = length as usize;
    let fits: bool = len <= tail.len() - at;
    if tipe == TLV_MAIN {
        if acc.main.is_some() {
            Ok(acc)
        } else if length != 12 {
            Err(TbfParseError::BadTlvEntry(TLV_MAIN as usize))
        } else if !fits {
            Err(TbfParseError::NotEnoughFlash)
        } else {
            acc.main = Some(
                TbfHeaderV2Main {
                    init_fn_offset: read_u32(tail, at),
                    protected_trailer_size: read_u32(tail, at + 4),
                    minimum_ram_size: read_u32(tail, at + 8),
                },
            );
            assert(acc@ =~= TbfElementsView {
                main: Some(spec_main(tail@, at as int)),
                ..before
            });
            Ok(acc)
        }
    } else if tipe == TLV_PROGRAM {
        if acc.program.is_some() {
            Ok(acc)
        } else if length != 20 {
            Err(TbfParseError::BadTlvEntry(TLV_PROGRAM as usize))
        } else if !fits {
            Err(TbfParseError::NotEnoughFlash)
        } else {
            acc.program = Some(
                TbfHeaderV2Program {
                    init_fn_offset: read_u32(tail, at),
                    protected_trailer_size: read_u32(tail, at + 4),
                    minimum_ram_size: read_u32(tail, at + 8),
                    binary_end_offset: read_u32(tail, at + 12),
                    version: read_u32(tail, at + 16),
                },
            );
            assert(acc@ =~= TbfElementsView {
                program: Some(spec_program(tail@, at as int)),
                ..before
            });
            Ok(acc)
        }
    } else if tipe == TLV_WRITEABLE_FLASH_REGIONS {
        if length % 8 != 0 {
            Err(TbfParseError::BadTlvEntry(TLV_WRITEABLE_FLASH_REGIONS as usize))
        } else if !fits {
            Err(TbfParseError::NotEnoughFlash)
        } else {
            acc.writeable_regions = read_regions(tail, at, len);
            assert(acc@ =~= TbfElementsView {
                writeable_regions: Seq::new(
                    (length as int / 8) as nat,
                    |i: int| spec_region(tail@, at as int, i),
                ),
                ..before
            });
            Ok(acc)
        }
    } else if tipe == TLV_PACKAGE_NAME {
        if !fits {
            Err(TbfParseError::NotEnoughFlash)
        } else {
            match text_of_utf8(vstd::slice::slice_subrange(tail, at, at + len)) {
                None => Err(TbfParseError::BadProcessName),
                Some(name) => {
                    acc.package_name = Some(name);
                    assert(acc@ =~= TbfElementsView {
                        package_name: Some(
                            decode_utf8(tail@.subrange(at as int, at as int + length as int)),
                        ),
                        ..before
                    });
                    Ok(acc)
                },
            }
        }
    } else if tipe == TLV_FIXED_ADDRESSES {
        if length != 8 {
            Err(TbfParseError::BadTlvEntry(TLV_FIXED_ADDRESSES as usize))
        } else if !fits {
            Err(TbfParseError::NotEnoughFlash)
        } else {
            acc.fixed_addresses = Some(
                TbfHeaderV2FixedAddresses {
                    start_process_ram: read_u32(tail, at),
                    start_process_flash: read_u32(tail, at + 4),
                },
            );
            assert(acc@ =~= TbfElementsView {
                fixed_addresses: Some(
                    TbfHeaderV2FixedAddresses {
                        start_process_ram: u32_at(tail@, at as int),
                        start_process_flash: u32_at(tail@, at as int + 4),
                    },
                ),
                ..before
            });
            Ok(acc)
        }
    } else if tipe == TLV_KERNEL_VERSION {
        if length != 4 {
            Err(TbfParseError::BadTlvEntry(TLV_KERNEL_VERSION as usize))
        } else if !fits {
            Err(TbfParseError::NotEnoughFlash)
        } else {
            acc.kernel_version = Some(
                TbfHeaderV2KernelVersion {
                    major: read_u16(tail, at),
                    minor: read_u16(tail, at + 2),
                },
            );
            assert(acc@ =~= TbfElementsView {
                kernel_version: Some(
                    TbfHeaderV2KernelVersion {
                        major: u16_at(tail@, at as int),
                        minor: u16_at(tail@, at as int + 2),
                    },
                ),
                ..before
            });
            Ok(acc)
        }
    } else if tipe == TLV_SHORT_ID {
        if length != 4 {
            Err(TbfParseError::BadTlvEntry(TLV_SHORT_ID as usize))
        } else if !fits {
            Err(TbfParseError::NotEnoughFlash)
        } else {
            acc.short_id = Some(read_u32(tail, at));
            assert(acc@ =~= TbfElementsView {
                short_id: Some(u32_at(tail@, at as int)),
                ..before
            });
            Ok(acc)
        }
    } else {
        if !fits {
            Err(TbfParseError::NotEnoughFlash)
        } else {
            let span = TbfTlvSpan { tipe, value: copy_range(tail, at, at + len) };
            acc.other.push(span);
            assert(acc@ =~= TbfElementsView {
                other: before.other.push(
                    TbfTlvSpanView {
                        tipe,
                        value: tail@.subrange(at as int, at as int + length as int),
                    },
                ),
                ..before
            });
            Ok(acc)
        }
    }
}

/// Walks the chain of elements in `tail`.
fn parse_elements(tail: &[u8]) -> (r: Result<TbfElements, TbfParseError>)
    ensures
        elements_result_view(r) == spec_parse_elements(tail@, 0, TbfElementsView::none()),
{
    let mut acc = no_elements();
    let mut pos: usize = 0;
    while pos < tail.len()
        invariant
            pos <= tail.len(),
            spec_parse_elements(tail@, pos as int, acc@) == spec_parse_elements(
                tail@,
                0,
                TbfElementsView::none(),
            ),
        decreases tail.len() - pos,
    {
        if tail.len() - pos < 4 {
            return Err(TbfParseError::NotEnoughFlash);
        }
        let tipe: u16 = read_u16(tail, pos);
        let length: u16 = read_u16(tail, pos + 2);
        let padded: usize = (length as usize + 3) / 4 * 4;
        match with_element(acc, tipe, length, tail, pos + 4) {
            Err(e) => {
                return Err(e);
            },
            Ok(next) => {
                if tail.len() - (pos + 4) < padded {
                    return Err(TbfParseError::NotEnoughFlash);
                }
                acc = next;
                pos = pos + 4 + padded;
            },
        }
    }
    Ok(acc)
}

/// Parses a header from the bytes that hold it, all of them and no more.
///
/// Succeeds on a version 2 buffer of at least sixteen bytes whose checksum
/// holds and whose elements are well-formed and fill the rest exactly;
/// otherwise says what is wrong.
pub fn parse_tbf_header(header: &[u8], version: u16) -> (r: Result<TbfHeader, TbfParseError>)
    ensures
        header_result_view(r) == spec_parse_header(header@, version),
{
    if version != 2 {
        return Err(TbfParseError::UnsupportedVersion(version));
    }
    if header.len() < BASE_SIZE {
        return Err(TbfParseError::InternalError);
    }
    let base = TbfHeaderV2Base {
        version: read_u16(header, 0),
        header_size: read_u16(header, 2),
        total_size: read_u32(header, 4),
        flags: read_u32(header, 8),
        checksum: read_u32(header, 12),
    };
    let computed: u32 = checksum_for(header, base.flags);
    if computed != base.checksum {
        return Err(TbfParseError::ChecksumMismatch(base.checksum, computed));
    }
    match parse_elements(vstd::slice::slice_subrange(header, BASE_SIZE, header.len())) {
        Err(e) => Err(e),
        Ok(elements) => Ok(TbfHeader { base, elements }),
    }
}

/// The credential of kind `format` that `body`, the value of a footer,
/// holds behind its format word.
///
/// A digest is one part. A key and its signature, or the two halves of an
/// ECDSA signature, are two parts of equal length. A reserved footer carries
/// the length of its value and no data.
pub open spec fn spec_credentials(
    format: TbfFooterV2CredentialsType,
    body: Seq<u8>,
) -> TbfFooterV2CredentialsView {
    let n = format.spec_data_length() as int;
    match format {
        TbfFooterV2CredentialsType::Reserved => TbfFooterV2CredentialsView {
            format,
            reserved: body.len() as u32,
            first: Seq::empty(),
            second: Seq::empty(),
        },
        TbfFooterV2CredentialsType::SHA256
        | TbfFooterV2CredentialsType::SHA384
        | TbfFooterV2CredentialsType::SHA512 => TbfFooterV2CredentialsView {
            format,
            reserved: 0,
            first: body.subrange(4, 4 + n),
            second: Seq::empty(),
        },
        _ => TbfFooterV2CredentialsView {
            format,
            reserved: 0,
            first: body.subrange(4, 4 + n / 2),
            second: body.subrange(4 + n / 2, 4 + n),
        },
    }
}

/// What the bytes at the start of `footers` mean: the credential of the
/// first footer and the length of its value, which does not count the four
/// bytes of type and length before it.
///
/// A footer is an element of the credentials type whose value is a format
/// word and the data that the format calls for.
pub open spec fn spec_parse_footer(footers: Seq<u8>) -> Result<
    (TbfFooterV2CredentialsView, u32),
    TbfParseError,
> {
    if footers.len() < 4 {
        Err(TbfParseError::NotEnoughFlash)
    } else {
        let tipe = u16_at(footers, 0);
        let length = u16_at(footers, 2);
        if tipe != TLV_CREDENTIALS {
            Err(TbfParseError::BadTlvEntry(tipe as usize))
        } else if 4 + length > footers.len() {
            Err(TbfParseError::NotEnoughFlash)
        } else {
            let body = footers.subrange(4, 4 + length);
            if length < 4 {
                Err(TbfParseError::InternalError)
            } else {
                match TbfFooterV2CredentialsType::spec_from_code(u32_at(body, 0)) {
                    None => Err(TbfParseError::InternalError),
                    Some(format) => if 4 + format.spec_data_length() > length {
                        Err(TbfParseError::NotEnoughFlash)
                    } else {
                        Ok((spec_credentials(format, body), length as u32))
                    },
                }
            }
        }
    }
}

/// What `spec_parse_footer` gives, for a result that holds an executable
/// credential.
pub open spec fn footer_result_view(
    r: Result<(TbfFooterV2Credentials, u32), TbfParseError>,
) -> Result<(TbfFooterV2CredentialsView, u32), TbfParseError> {
    match r {
        Ok((credentials, length)) => Ok((credentials@, length)),
        Err(e) => Err(e),
    }
}

/// Parses the footer at the start of `footers` and returns its credential
/// with the length of its value. The next footer, if any, starts four bytes
/// plus that length further on.
pub fn parse_tbf_footer(footers: &[u8]) -> (r: Result<
    (TbfFooterV2Credentials, u32),
    TbfParseError,
>)
    ensures
        footer_result_view(r) == spec_parse_footer(footers@),
{
    if footers.len() < 4 {
        return Err(TbfParseError::NotEnoughFlash);
    }
    let tipe: u16 = read_u16(footers, 0);
    let length: u16 = read_u16(footers, 2);
    if tipe != TLV_CREDENTIALS {
        return Err(TbfParseError::BadTlvEntry(tipe as usize));
    }
    let len: usize = length as usize;
    if footers.len() - 4 < len {
        return Err(TbfParseError::NotEnoughFlash);
    }
    let body: &[u8] = vstd::slice::slice_subrange(footers, 4, 4 + len);
    if len < 4 {
        return Err(TbfParseError::InternalError);
    }
    let format = match TbfFooterV2CredentialsType::from_code(read_u32(body, 0)) {
        None => {
            return Err(TbfParseError::InternalError);
        },
        Some(format) => format,
    };
    let n: usize = format.data_length();
    if len - 4 < n {
        return Err(TbfParseError::NotEnoughFlash);
    }
    let half: usize = n / 2;
    let credentials = match format {
        TbfFooterV2CredentialsType::Reserved => TbfFooterV2Credentials::Reserved(length as u32),
        TbfFooterV2CredentialsType::SHA256 => TbfFooterV2Credentials::SHA256(
            TbfFooterV2SHA { hash: copy_range(body, 4, 4 + n) },
        ),
        TbfFooterV2CredentialsType::SHA384 => TbfFooterV2Credentials::SHA384(
            TbfFooterV2SHA { hash: copy_range(body, 4, 4 + n) },
        ),
        TbfFooterV2CredentialsType::SHA512 => TbfFooterV2Credentials::SHA512(
            TbfFooterV2SHA { hash: copy_range(body, 4, 4 + n) },
        ),
        TbfFooterV2CredentialsType::Rsa2048Key => TbfFooterV2Credentials::Rsa2048Key(
            TbfFooterV2RSA {
                public_key: copy_range(body, 4, 4 + half),
                signature: copy_range(body, 4 + half, 4 + n),
            },
        ),
        TbfFooterV2CredentialsType::Rsa3072Key => TbfFooterV2Credentials::Rsa3072Key(
            TbfFooterV2RSA {
                public_key: copy_range(body, 4, 4 + half),
                signature: copy_range(body, 4 + half, 4 + n),
            },
        ),
        TbfFooterV2CredentialsType::Rsa4096Key => TbfFooterV2Credentials::Rsa4096Key(
            TbfFooterV2RSA {
                public_key: copy_range(body, 4, 4 + half),
                signature: copy_range(body, 4 + half, 4 + n),
            },
        ),
        TbfFooterV2CredentialsType::EcdsaNistP256 => TbfFooterV2Credentials::EcdsaNistP256(
            TbfFooterV2EcdsaNistP256 {
                signature_r: copy_range(body, 4, 4 + half),
                signature_s: copy_range(body, 4 + half, 4 + n),
            },
        ),
    };
    assert(credentials@ =~= spec_credentials(format, body@));
    Ok((credentials, length as u32))
}

} // verus!
