//! The attributes that the bootloader keeps of the board.
//!
//! Sixteen slots of 64 bytes from `0x600` hold key and value pairs, of
//! which the first four are the board name, the architecture, the address
//! where applications start and the boot hash. Eight bytes at `0x40E` hold
//! the version of the bootloader. The hundred bytes before the applications
//! hold what the kernel says of itself.

use crate::attributes::decode::{
    attribute_view, decode_slots, spec_decode_attribute, spec_slot, spec_slot_count,
    DecodedAttribute,
};
use crate::bytes::u32_at;
use crate::errors::{AttributeParseError, TockError};
use crate::text::{
    decode_lenient, lenient_utf8, parse_hex, spec_parse_hex, spec_trim_nul, text_of_utf8,
    trim_nul,
};
use byteorder::ByteOrder;
use vstd::prelude::*;
use vstd::utf8::{decode_utf8, valid_utf8};

verus! {

/// Address of the first attribute slot.
pub const ATTRIBUTES_ADDRESS: u64 = 0x600;

/// Size of all the attribute slots together.
pub const ATTRIBUTES_SIZE: usize = 1024;

/// Address of the bootloader's version.
pub const BOOTLOADER_VERSION_ADDRESS: u64 = 0x40E;

/// Size of the bootloader's version.
pub const BOOTLOADER_VERSION_SIZE: usize = 8;

/// Size of the kernel's attributes, which end where applications start.
pub const KERNEL_ATTRIBUTES_SIZE: usize = 100;

/// Where, among the kernel's attributes, the start of the kernel binary
/// stands; its length follows.
pub const KERNEL_BINARY_OFFSET: usize = 0;

/// Where the start of the memory for applications stands; its length
/// follows.
pub const APP_MEMORY_OFFSET: usize = 80;

/// Where the version of the kernel stands, in one byte.
pub const KERNEL_VERSION_OFFSET: usize = 95;

/// Where the sentinel stands, in four bytes.
pub const SENTINEL_OFFSET: usize = 96;

/// What is known of a board. Not every board has every attribute.
#[derive(Clone, Debug)]
pub struct SystemAttributes {
    pub board: Option<String>,
    pub arch: Option<String>,
    pub appaddr: Option<u64>,
    pub boothash: Option<String>,
    pub bootloader_version: Option<String>,
    pub sentinel: Option<String>,
    pub kernel_version: Option<u64>,
    pub app_mem_start: Option<u32>,
    pub app_mem_len: Option<u32>,
    pub kernel_bin_start: Option<u32>,
    pub kernel_bin_len: Option<u32>,
    /// The attributes of the slots after the fourth, in their order.
    pub other: Vec<DecodedAttribute>,
}

/// What a `SystemAttributes` holds, as mathematical values.
#[verifier::ext_equal]
pub struct SystemAttributesView {
    pub board: Option<Seq<char>>,
    pub arch: Option<Seq<char>>,
    pub appaddr: Option<u64>,
    pub boothash: Option<Seq<char>>,
    pub bootloader_version: Option<Seq<char>>,
    pub sentinel: Option<Seq<char>>,
    pub kernel_version: Option<u64>,
    pub app_mem_start: Option<u32>,
    pub app_mem_len: Option<u32>,
    pub kernel_bin_start: Option<u32>,
    pub kernel_bin_len: Option<u32>,
    pub other: Seq<(Seq<char>, Seq<char>)>,
}

/// The characters of a string that may be absent.
pub open spec fn text_view(text: Option<String>) -> Option<Seq<char>> {
    match text {
        Some(s) => Some(s@),
        None => None,
    }
}

impl View for SystemAttributes {
    type V = SystemAttributesView;

    open spec fn view(&self) -> SystemAttributesView {
        SystemAttributesView {
            board: text_view(self.board),
            arch: text_view(self.arch),
            appaddr: self.appaddr,
            boothash: text_view(self.boothash),
            bootloader_version: text_view(self.bootloader_version),
            sentinel: text_view(self.sentinel),
            kernel_version: self.kernel_version,
            app_mem_start: self.app_mem_start,
            app_mem_len: self.app_mem_len,
            kernel_bin_start: self.kernel_bin_start,
            kernel_bin_len: self.kernel_bin_len,
            other: Seq::new(self.other@.len(), |i: int| self.other@[i]@),
        }
    }
}

impl SystemAttributesView {
    /// Nothing known.
    pub open spec fn none() -> SystemAttributesView {
        SystemAttributesView {
            board: None,
            arch: None,
            appaddr: None,
            boothash: None,
            bootloader_version: None,
            sentinel: None,
            kernel_version: None,
            app_mem_start: None,
            app_mem_len: None,
            kernel_bin_start: None,
            kernel_bin_len: None,
            other: Seq::empty(),
        }
    }

    /// These attributes with what the slot of index `index` holds, if it
    /// holds an attribute. Nothing if the address where applications start
    /// is no hexadecimal number.
    pub open spec fn with_slot(self, index: int, slot: Option<(Seq<char>, Seq<char>)>) -> Option<
        SystemAttributesView,
    > {
        match slot {
            None => Some(self),
            Some((_, value)) => if index == 0 {
                Some(SystemAttributesView { board: Some(value), ..self })
            } else if index == 1 {
                Some(SystemAttributesView { arch: Some(value), ..self })
            } else if index == 2 {
                match spec_parse_hex(vstd::utf8::encode_utf8(value)) {
                    Some(address) => Some(
                        SystemAttributesView { appaddr: Some(address), ..self },
                    ),
                    None => None,
                }
            } else if index == 3 {
                Some(SystemAttributesView { boothash: Some(value), ..self })
            } else {
                Some(SystemAttributesView { other: self.other.push(slot->Some_0), ..self })
            },
        }
    }

    /// These attributes with what the first `count` slots of `region` hold.
    pub open spec fn with_slots(self, region: Seq<u8>, count: int) -> Option<
        SystemAttributesView,
    >
        decreases count,
    {
        if count <= 0 {
            Some(self)
        } else {
            match self.with_slots(region, count - 1) {
                None => None,
                Some(before) => before.with_slot(
                    count - 1,
                    spec_decode_attribute(spec_slot(region, count - 1)),
                ),
            }
        }
    }

    /// These attributes with what the kernel says of itself in `raw`, the
    /// hundred bytes before the applications. Nothing if the sentinel does
    /// not decode.
    pub open spec fn with_kernel_attributes(self, raw: Seq<u8>) -> Option<SystemAttributesView> {
        match lenient_utf8(raw.subrange(SENTINEL_OFFSET as int, SENTINEL_OFFSET + 4)) {
            None => None,
            Some(sentinel) => Some(
                SystemAttributesView {
                    sentinel: Some(sentinel),
                    kernel_version: Some(raw[KERNEL_VERSION_OFFSET as int] as u64),
                    app_mem_start: Some(u32_at(raw, APP_MEMORY_OFFSET as int)),
                    app_mem_len: Some(u32_at(raw, APP_MEMORY_OFFSET + 4)),
                    kernel_bin_start: Some(u32_at(raw, KERNEL_BINARY_OFFSET as int)),
                    kernel_bin_len: Some(u32_at(raw, KERNEL_BINARY_OFFSET + 4)),
                    ..self
                },
            ),
        }
    }
}

/// The number that the bytes of `bytes` write, least significant first.
pub open spec fn spec_le_uint(bytes: Seq<u8>) -> int
    decreases bytes.len(),
{
    if bytes.len() == 0 {
        0
    } else {
        bytes[0] + 256 * spec_le_uint(bytes.skip(1))
    }
}

/// `LittleEndian::read_u32` of `byteorder`: the 32-bit number that the
/// first four bytes of `buf` write, least significant first. The crate
/// panics on a shorter buffer.
#[verifier::external_body]
fn le_read_u32(buf: &[u8]) -> (value: u32)
    requires
        buf@.len() >= 4,
    ensures
        value == u32_at(buf@, 0),
{
    byteorder::LittleEndian::read_u32(buf)
}

/// `LittleEndian::read_uint` of `byteorder`: the number that the first
/// `nbytes` bytes of `buf` write, least significant first. The crate
/// panics unless `nbytes` is from 1 to 8 and `buf` is that long.
#[verifier::external_body]
fn le_read_uint(buf: &[u8], nbytes: usize) -> (value: u64)
    requires
        1 <= nbytes <= 8,
        nbytes <= buf@.len(),
    ensures
        value == spec_le_uint(buf@.take(nbytes as int)),
{
    byteorder::LittleEndian::read_uint(buf, nbytes)
}

impl SystemAttributes {
    /// Nothing known.
    pub fn new() -> (attributes: SystemAttributes)
        ensures
            attributes@ == SystemAttributesView::none(),
    {
        let attributes = SystemAttributes {
            board: None,
            arch: None,
            appaddr: None,
            boothash: None,
            bootloader_version: None,
            sentinel: None,
            kernel_version: None,
            app_mem_start: None,
            app_mem_len: None,
            kernel_bin_start: None,
            kernel_bin_len: None,
            other: Vec::new(),
        };
        assert(attributes@ =~= SystemAttributesView::none());
        attributes
    }

    /// Takes in the attribute of the slot of index `index`, if there is
    /// one: the board name from the first slot, the architecture from the
    /// second, the address where applications start from the third, the
    /// boot hash from the fourth; any other is kept as it is.
    pub fn read_slot(&mut self, index: usize, slot: Option<DecodedAttribute>) -> (r: Result<
        (),
        TockError,
    >)
        ensures
            match r {
                Ok(_) => old(self)@.with_slot(index as int, attribute_view(slot)) == Some(
                    final(self)@,
                ),
                Err(e) => old(self)@.with_slot(index as int, attribute_view(slot)) is None
                    && e matches TockError::AttributeParsing(AttributeParseError::InvalidNumber),
            },
    {
        let ghost before = self@;
        match slot {
            None => Ok(()),
            Some(attribute) => {
                let ghost value = attribute.value@;
                if index == 0 {
                    self.board = Some(attribute.value);
                    assert(self@ =~= SystemAttributesView { board: Some(value), ..before });
                    Ok(())
                } else if index == 1 {
                    self.arch = Some(attribute.value);
                    assert(self@ =~= SystemAttributesView { arch: Some(value), ..before });
                    Ok(())
                } else if index == 2 {
                    match parse_hex(attribute.value.as_str().as_bytes()) {
                        None => Err(
                            TockError::AttributeParsing(AttributeParseError::InvalidNumber),
                        ),
                        Some(address) => {
                            self.appaddr = Some(address);
                            assert(self@ =~= SystemAttributesView {
                                appaddr: Some(address),
                                ..before
                            });
                            Ok(())
                        },
                    }
                } else if index == 3 {
                    self.boothash = Some(attribute.value);
                    assert(self@ =~= SystemAttributesView { boothash: Some(value), ..before });
                    Ok(())
                } else {
                    let ghost pair = attribute@;
                    self.other.push(attribute);
                    assert(self@ =~= SystemAttributesView {
                        other: before.other.push(pair),
                        ..before
                    });
                    Ok(())
                }
            },
        }
    }

    /// Takes in the attributes that the slots of `region` hold. A slot that
    /// holds no valid attribute is passed over.
    ///
    /// Fails only if the third slot holds an attribute that is no
    /// hexadecimal number.
    pub fn read_slots(&mut self, region: &[u8]) -> (r: Result<(), TockError>)
        ensures
            match r {
                Ok(_) => old(self)@.with_slots(region@, spec_slot_count(region@)) == Some(
                    final(self)@,
                ),
                Err(e) => old(self)@.with_slots(region@, spec_slot_count(region@)) is None
                    && e matches TockError::AttributeParsing(AttributeParseError::InvalidNumber),
            },
    {
        let mut slots: Vec<Option<DecodedAttribute>> = decode_slots(region);
        let ghost decoded = Seq::new(slots@.len(), |i: int| attribute_view(slots@[i]));
        let count: usize = slots.len();
        let mut index: usize = 0;
        while index < count
            invariant
                index <= count,
                count == spec_slot_count(region@),
                slots@.len() == count,
                forall|i: int|
                    index <= i < count ==> attribute_view(#[trigger] slots@[i])
                        == spec_decode_attribute(spec_slot(region@, i)),
                old(self)@.with_slots(region@, index as int) == Some(self@),
            decreases count - index,
        {
            let mut slot: Option<DecodedAttribute> = None;
            std::mem::swap(&mut slot, &mut slots[index]);
            match self.read_slot(index, slot) {
                Err(e) => {
                    proof {
                        lemma_with_slots_fails_on(
                            old(self)@,
                            region@,
                            index as int + 1,
                            count as int,
                        );
                    }
                    return Err(e);
                },
                Ok(_) => {},
            }
            index = index + 1;
        }
        Ok(())
    }

    /// Takes in the version of the bootloader from the eight bytes that
    /// hold it, without the zero bytes round it. Fails if it is not UTF-8.
    pub fn read_bootloader_version(&mut self, raw: &[u8]) -> (r: Result<(), TockError>)
        ensures
            match r {
                Ok(_) => valid_utf8(spec_trim_nul(raw@)) && final(self)@ == (SystemAttributesView {
                    bootloader_version: Some(decode_utf8(spec_trim_nul(raw@))),
                    ..old(self)@
                }),
                Err(e) => !valid_utf8(spec_trim_nul(raw@)) && e matches TockError::AttributeParsing(
                    AttributeParseError::InvalidString,
                ),
            },
    {
        let ghost before = self@;
        match text_of_utf8(trim_nul(raw)) {
            None => Err(TockError::AttributeParsing(AttributeParseError::InvalidString)),
            Some(version) => {
                self.bootloader_version = Some(version);
                assert(self@ =~= SystemAttributesView {
                    bootloader_version: Some(decode_utf8(spec_trim_nul(raw@))),
                    ..before
                });
                Ok(())
            },
        }
    }

    /// The address of the kernel's attributes: a hundred bytes before the
    /// applications start. Fails if the start of the applications is not
    /// known, or lies less than a hundred bytes into the address space.
    pub fn kernel_attributes_address(&self) -> (r: Result<u64, TockError>)
        ensures
            match r {
                Ok(address) => self.appaddr matches Some(start) && start
                    >= KERNEL_ATTRIBUTES_SIZE && address == start - KERNEL_ATTRIBUTES_SIZE,
                Err(TockError::MissingAttribute(name)) => self.appaddr is None && name@
                    == "appaddr"@,
                Err(TockError::AttributeParsing(AttributeParseError::InvalidNumber)) => self.appaddr
                    matches Some(start) && start < KERNEL_ATTRIBUTES_SIZE,
                Err(_) => false,
            },
    {
        match self.appaddr {
            None => Err(TockError::MissingAttribute("appaddr".to_owned())),
            Some(start) => if start < KERNEL_ATTRIBUTES_SIZE as u64 {
                Err(TockError::AttributeParsing(AttributeParseError::InvalidNumber))
            } else {
                Ok(start - KERNEL_ATTRIBUTES_SIZE as u64)
            },
        }
    }

    /// Takes in what the kernel says of itself in `raw`, the hundred bytes
    /// before the applications: the sentinel, the version of the kernel,
    /// and where the memory for applications and the kernel binary start and
    /// how long they are. Fails if the sentinel does not decode.
    pub fn read_kernel_attributes(&mut self, raw: &[u8]) -> (r: Result<(), TockError>)
        requires
            raw@.len() >= KERNEL_ATTRIBUTES_SIZE,
        ensures
            match r {
                Ok(_) => old(self)@.with_kernel_attributes(raw@) == Some(final(self)@),
                Err(e) => old(self)@.with_kernel_attributes(raw@) is None
                    && e matches TockError::AttributeParsing(AttributeParseError::InvalidString),
            },
    {
        let ghost before = self@;
        let sentinel: String = match decode_lenient(
            vstd::slice::slice_subrange(raw, SENTINEL_OFFSET, SENTINEL_OFFSET + 4),
        ) {
            None => {
                return Err(TockError::AttributeParsing(AttributeParseError::InvalidString));
            },
            Some(sentinel) => sentinel,
        };
        let version_field: &[u8] = vstd::slice::slice_subrange(
            raw,
            KERNEL_VERSION_OFFSET,
            KERNEL_VERSION_OFFSET + 1,
        );
        let kernel_version: u64 = le_read_uint(version_field, 1);
        proof {
            let one = version_field@.take(1);
            assert(one.skip(1) =~= Seq::<u8>::empty());
            assert(spec_le_uint(one.skip(1)) == 0);
            assert(spec_le_uint(one) == raw@[KERNEL_VERSION_OFFSET as int]);
        }
        let app_mem_start: u32 = le_read_u32(
            vstd::slice::slice_subrange(raw, APP_MEMORY_OFFSET, APP_MEMORY_OFFSET + 4),
        );
        let app_mem_len: u32 = le_read_u32(
            vstd::slice::slice_subrange(raw, APP_MEMORY_OFFSET + 4, APP_MEMORY_OFFSET + 12),
        );
        let kernel_bin_start: u32 = le_read_u32(
            vstd::slice::slice_subrange(raw, KERNEL_BINARY_OFFSET, KERNEL_BINARY_OFFSET + 4),
        );
        let kernel_bin_len: u32 = le_read_u32(
            vstd::slice::slice_subrange(raw, KERNEL_BINARY_OFFSET + 4, KERNEL_BINARY_OFFSET + 8),
        );
        self.sentinel = Some(sentinel);
        self.kernel_version = Some(kernel_version);
        self.app_mem_start = Some(app_mem_start);
        self.app_mem_len = Some(app_mem_len);
        self.kernel_bin_start = Some(kernel_bin_start);
        self.kernel_bin_len = Some(kernel_bin_len);
        assert(self@ =~= before.with_kernel_attributes(raw@)->Some_0);
        Ok(())
    }
}

/// Once the slots up to some index give nothing, all the slots give
/// nothing.
proof fn lemma_with_slots_fails_on(
    start: SystemAttributesView,
    region: Seq<u8>,
    failed: int,
    count: int,
)
    requires
        0 <= failed <= count,
        start.with_slots(region, failed) is None,
    ensures
        start.with_slots(region, count) is None,
    decreases count - failed,
{
    if failed < count {
        lemma_with_slots_fails_on(start, region, failed, count - 1);
    }
}

} // verus!
