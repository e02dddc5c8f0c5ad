//! What a parsed header says, how it is written back, and how its flags are
//! changed while its checksum is kept sound.

use crate::bytes::{
    lemma_u16_bytes_of_read, lemma_u32_bytes_of_read, push_u16, push_u32, u16_bytes, u32_bytes,
};
use crate::tbf::checksum::{
    checksum_for, checksum_with_flags, lemma_changed_checksum_is_detected, lemma_patched_words,
    lemma_recomputed_checksum_holds, stored_checksum, stored_flags, with_flags_and_checksum,
};
use crate::tbf::parse::{spec_base, spec_parse_header};
use crate::tbf::types::{
    TbfHeader, TbfHeaderV2Base, TbfHeaderV2WriteableFlashRegion, TbfHeaderView, TbfParseError,
    FLAG_ENABLED, FLAG_STICKY, NO_FIXED_ADDRESS,
};
use vstd::prelude::*;

verus! {

/// The sixteen bytes that store a header's fixed start: version, header
/// length, total length, flags and checksum, each little-endian.
pub open spec fn spec_serialize(base: TbfHeaderV2Base) -> Seq<u8> {
    u16_bytes(base.version) + u16_bytes(base.header_size) + u32_bytes(base.total_size)
        + u32_bytes(base.flags) + u32_bytes(base.checksum)
}

/// `flags` with the enabled bit set or cleared and every other bit kept.
pub open spec fn flags_with_enabled(flags: u32, enabled: bool) -> u32 {
    if enabled {
        flags | FLAG_ENABLED
    } else {
        flags & !FLAG_ENABLED
    }
}

/// `flags` with the sticky bit set or cleared and every other bit kept.
pub open spec fn flags_with_sticky(flags: u32, sticky: bool) -> u32 {
    if sticky {
        flags | FLAG_STICKY
    } else {
        flags & !FLAG_STICKY
    }
}

/// Whether the enabled bit is set in `flags`.
pub open spec fn flag_enabled(flags: u32) -> bool {
    flags & FLAG_ENABLED != 0
}

/// Whether the sticky bit is set in `flags`.
pub open spec fn flag_sticky(flags: u32) -> bool {
    flags & FLAG_STICKY != 0
}

/// One change to the enabled or the sticky bit.
pub enum FlagChange {
    Enabled(bool),
    Sticky(bool),
}

/// `flags` after the changes of `changes`, made in order.
pub open spec fn flags_after(flags: u32, changes: Seq<FlagChange>) -> u32
    decreases changes.len(),
{
    if changes.len() == 0 {
        flags
    } else {
        let before = flags_after(flags, changes.drop_last());
        match changes.last() {
            FlagChange::Enabled(on) => flags_with_enabled(before, on),
            FlagChange::Sticky(on) => flags_with_sticky(before, on),
        }
    }
}

/// Setting or clearing the enabled bit does what it says and touches no
/// other bit; doing it twice is doing it once.
pub proof fn lemma_enabled_bit(flags: u32, enabled: bool)
    ensures
        flag_enabled(flags_with_enabled(flags, enabled)) == enabled,
        flags_with_enabled(flags, enabled) & !FLAG_ENABLED == flags & !FLAG_ENABLED,
        flags_with_enabled(flags_with_enabled(flags, enabled), enabled) == flags_with_enabled(
            flags,
            enabled,
        ),
        flag_enabled(flags) == enabled ==> flags_with_enabled(flags, enabled) == flags,
{
    assert((flags | 1) & 1 != 0 && (flags & !1u32) & 1 == 0 && (flags | 1) & !1u32 == flags
        & !1u32 && (flags & !1u32) & !1u32 == flags & !1u32 && (flags | 1) | 1 == flags | 1 && (
    flags & 1 != 0 ==> flags | 1 == flags) && (flags & 1 == 0 ==> flags & !1u32 == flags))
        by (bit_vector);
}

/// Setting or clearing the sticky bit does what it says and touches no
/// other bit; doing it twice is doing it once.
pub proof fn lemma_sticky_bit(flags: u32, sticky: bool)
    ensures
        flag_sticky(flags_with_sticky(flags, sticky)) == sticky,
        flags_with_sticky(flags, sticky) & !FLAG_STICKY == flags & !FLAG_STICKY,
        flags_with_sticky(flags_with_sticky(flags, sticky), sticky) == flags_with_sticky(
            flags,
            sticky,
        ),
        flag_sticky(flags) == sticky ==> flags_with_sticky(flags, sticky) == flags,
{
    assert((flags | 2) & 2 != 0 && (flags & !2u32) & 2 == 0 && (flags | 2) & !2u32 == flags
        & !2u32 && (flags & !2u32) & !2u32 == flags & !2u32 && (flags | 2) | 2 == flags | 2 && (
    flags & 2 != 0 ==> flags | 2 == flags) && (flags & 2 == 0 ==> flags & !2u32 == flags))
        by (bit_vector);
}

/// The bits above the enabled and the sticky bit come through any number of
/// changes to those two unchanged.
pub proof fn lemma_high_bits_survive(flags: u32, changes: Seq<FlagChange>)
    ensures
        flags_after(flags, changes) & 0xFFFF_FFFC == flags & 0xFFFF_FFFC,
    decreases changes.len(),
{
    if changes.len() > 0 {
        lemma_high_bits_survive(flags, changes.drop_last());
        let before = flags_after(flags, changes.drop_last());
        assert((before | 1) & 0xFFFF_FFFC == before & 0xFFFF_FFFC && (before & !1u32)
            & 0xFFFF_FFFC == before & 0xFFFF_FFFC && (before | 2) & 0xFFFF_FFFC == before
            & 0xFFFF_FFFC && (before & !2u32) & 0xFFFF_FFFC == before & 0xFFFF_FFFC)
            by (bit_vector);
    }
}

/// Writing back a header that was parsed and not changed gives the first
/// sixteen bytes it was parsed from.
pub proof fn lemma_serialize_restores_prologue(header: Seq<u8>, version: u16)
    requires
        spec_parse_header(header, version) is Ok,
    ensures
        spec_serialize(spec_parse_header(header, version)->Ok_0.base) == header.subrange(0, 16),
{
    lemma_serialize_of_base(header);
}

/// The fixed start read from a buffer is written back as the buffer's first
/// sixteen bytes.
pub proof fn lemma_serialize_of_base(header: Seq<u8>)
    requires
        header.len() >= 16,
    ensures
        spec_serialize(spec_base(header)) == header.subrange(0, 16),
{
    lemma_u16_bytes_of_read(header[0], header[1]);
    lemma_u16_bytes_of_read(header[2], header[3]);
    lemma_u32_bytes_of_read(header[4], header[5], header[6], header[7]);
    lemma_u32_bytes_of_read(header[8], header[9], header[10], header[11]);
    lemma_u32_bytes_of_read(header[12], header[13], header[14], header[15]);
    assert(spec_serialize(spec_base(header)) =~= header.subrange(0, 16));
}

/// A header that parses still parses after its flags were set to any value
/// and the recomputed checksum was written beside them: the result is the
/// same header with the new flags and checksum, and the buffer is what
/// writing the changed header over the first sixteen bytes gives.
pub proof fn lemma_reparse_after_set_flags(header: Seq<u8>, flags: u32)
    requires
        spec_parse_header(header, 2) is Ok,
    ensures
        ({
            let sum = checksum_with_flags(header, flags);
            let changed = spec_parse_header(header, 2)->Ok_0.with_flags(flags, sum);
            let patched = with_flags_and_checksum(header, flags, sum);
            &&& spec_parse_header(patched, 2) == Ok::<TbfHeaderView, TbfParseError>(changed)
            &&& patched == spec_serialize(changed.base) + header.subrange(
                16,
                header.len() as int,
            )
        }),
{
    let sum = checksum_with_flags(header, flags);
    let patched = with_flags_and_checksum(header, flags, sum);
    let changed = spec_parse_header(header, 2)->Ok_0.with_flags(flags, sum);
    lemma_recomputed_checksum_holds(header, flags);
    lemma_patched_words(header, flags, sum);
    assert(patched.subrange(16, patched.len() as int) =~= header.subrange(
        16,
        header.len() as int,
    ));
    assert(spec_base(patched) == changed.base);
    lemma_serialize_of_base(patched);
    assert(patched =~= patched.subrange(0, 16) + patched.subrange(16, patched.len() as int));
}

/// Setting the flags of a parsed header to the value they have gives the
/// checksum it has: the header is as it was.
pub proof fn lemma_set_same_flags_changes_nothing(header: Seq<u8>)
    requires
        spec_parse_header(header, 2) is Ok,
    ensures
        checksum_with_flags(header, stored_flags(header)) == stored_checksum(header),
        spec_parse_header(header, 2)->Ok_0.with_flags(
            stored_flags(header),
            checksum_with_flags(header, stored_flags(header)),
        ) == spec_parse_header(header, 2)->Ok_0,
{
}

/// Setting the flags twice to the same value is setting them once.
pub proof fn lemma_set_flags_twice(header: TbfHeaderView, original: Seq<u8>, flags: u32)
    ensures
        header.with_flags(flags, checksum_with_flags(original, flags)).with_flags(
            flags,
            checksum_with_flags(original, flags),
        ) == header.with_flags(flags, checksum_with_flags(original, flags)),
{
}

/// A header that parses is refused for its checksum as soon as the stored
/// checksum is replaced by any other value.
pub proof fn lemma_changed_checksum_is_refused(header: Seq<u8>, other: u32)
    requires
        spec_parse_header(header, 2) is Ok,
        other != stored_checksum(header),
    ensures
        spec_parse_header(with_flags_and_checksum(header, stored_flags(header), other), 2)
            == Err::<TbfHeaderView, TbfParseError>(
            TbfParseError::ChecksumMismatch(other, stored_checksum(header)),
        ),
{
    lemma_changed_checksum_is_detected(header, other);
    lemma_patched_words(header, stored_flags(header), other);
}

/// A header that parses is refused for its checksum when any single bit of
/// the stored checksum is flipped.
pub proof fn lemma_flipped_checksum_bit_is_refused(header: Seq<u8>, bit: u32)
    requires
        spec_parse_header(header, 2) is Ok,
        bit < 32,
    ensures
        spec_parse_header(
            with_flags_and_checksum(
                header,
                stored_flags(header),
                stored_checksum(header) ^ (1u32 << bit),
            ),
            2,
        ) == Err::<TbfHeaderView, TbfParseError>(
            TbfParseError::ChecksumMismatch(
                stored_checksum(header) ^ (1u32 << bit),
                stored_checksum(header),
            ),
        ),
{
    let stored = stored_checksum(header);
    assert(stored ^ (1u32 << bit) != stored) by (bit_vector)
        requires
            bit < 32,
    ;
    lemma_changed_checksum_is_refused(header, stored ^ (1u32 << bit));
}

impl TbfHeader {
    /// Whether this is an application rather than padding: whether it has a
    /// Main element.
    pub fn is_app(&self) -> (b: bool)
        ensures
            b == self@.is_app(),
    {
        self.elements.main.is_some()
    }

    /// Whether the enabled bit of the flags is set.
    pub fn enabled(&self) -> (b: bool)
        ensures
            b == flag_enabled(self.base.flags),
    {
        self.base.flags & FLAG_ENABLED != 0
    }

    /// Whether the sticky bit of the flags is set.
    pub fn sticky(&self) -> (b: bool)
        ensures
            b == flag_sticky(self.base.flags),
    {
        self.base.flags & FLAG_STICKY != 0
    }

    /// Length of the header in bytes.
    pub fn header_size(&self) -> (n: u16)
        ensures
            n == self.base.header_size,
    {
        self.base.header_size
    }

    /// Length in bytes of the header, the binary and the footers together.
    pub fn total_size(&self) -> (n: u32)
        ensures
            n == self.base.total_size,
    {
        self.base.total_size
    }

    /// The checksum word.
    pub fn checksum(&self) -> (n: u32)
        ensures
            n == self.base.checksum,
    {
        self.base.checksum
    }

    /// The whole flags word.
    pub fn get_application_flags(&self) -> (n: u32)
        ensures
            n == self.base.flags,
    {
        self.base.flags
    }

    /// RAM the application asks for: what the Program element says, else
    /// what the Main element says, else zero.
    pub fn get_minimum_app_ram_size(&self) -> (n: u32)
        ensures
            n == match (self.elements.program, self.elements.main) {
                (Some(p), _) => p.minimum_ram_size,
                (None, Some(m)) => m.minimum_ram_size,
                (None, None) => 0,
            },
    {
        match self.elements.program {
            Some(p) => p.minimum_ram_size,
            None => match self.elements.main {
                Some(m) => m.minimum_ram_size,
                None => 0,
            },
        }
    }

    /// Offset of the entry point, as stored: what the Program element says,
    /// else what the Main element says, else zero.
    pub fn get_init_function_offset(&self) -> (n: u32)
        ensures
            n == match (self.elements.program, self.elements.main) {
                (Some(p), _) => p.init_fn_offset,
                (None, Some(m)) => m.init_fn_offset,
                (None, None) => 0,
            },
    {
        match self.elements.program {
            Some(p) => p.init_fn_offset,
            None => match self.elements.main {
                Some(m) => m.init_fn_offset,
                None => 0,
            },
        }
    }

    /// Size of the protected region after the header: what the Program
    /// element says, else what the Main element says, else zero.
    pub fn get_protected_trailer_size(&self) -> (n: u32)
        ensures
            n == match (self.elements.program, self.elements.main) {
                (Some(p), _) => p.protected_trailer_size,
                (None, Some(m)) => m.protected_trailer_size,
                (None, None) => 0,
            },
    {
        match self.elements.program {
            Some(p) => p.protected_trailer_size,
            None => match self.elements.main {
                Some(m) => m.protected_trailer_size,
                None => 0,
            },
        }
    }

    /// The package name, if the header has one.
    pub fn get_package_name(&self) -> (name: Option<&str>)
        ensures
            match name {
                Some(s) => self@.elements.package_name == Some(s@),
                None => self@.elements.package_name is None,
            },
    {
        match &self.elements.package_name {
            Some(s) => Some(s.as_str()),
            None => None,
        }
    }

    /// The kernel version asked for, major then minor, if the header names
    /// one.
    pub fn get_kernel_version(&self) -> (v: Option<(u16, u16)>)
        ensures
            v == match self.elements.kernel_version {
                Some(k) => Some((k.major, k.minor)),
                None => None,
            },
    {
        match self.elements.kernel_version {
            Some(k) => Some((k.major, k.minor)),
            None => None,
        }
    }

    /// Offset at which the binary ends and the footers begin: what the
    /// Program element says, else the total length.
    pub fn get_binary_end(&self) -> (n: u32)
        ensures
            n == self@.binary_end(),
    {
        match self.elements.program {
            Some(p) => p.binary_end_offset,
            None => self.base.total_size,
        }
    }

    /// Version of the binary: what the Program element says, else zero.
    pub fn get_binary_version(&self) -> (n: u32)
        ensures
            n == match self.elements.program {
                Some(p) => p.version,
                None => 0,
            },
    {
        match self.elements.program {
            Some(p) => p.version,
            None => 0,
        }
    }

    /// The flash address for which the application was built, if any.
    pub fn get_fixed_address_flash(&self) -> (a: Option<u32>)
        ensures
            a == self@.fixed_address_flash(),
    {
        match self.elements.fixed_addresses {
            Some(fixed) => if fixed.start_process_flash == NO_FIXED_ADDRESS {
                None
            } else {
                Some(fixed.start_process_flash)
            },
            None => None,
        }
    }

    /// The RAM address for which the application was built, if any.
    pub fn get_fixed_address_ram(&self) -> (a: Option<u32>)
        ensures
            a == match self.elements.fixed_addresses {
                Some(fixed) => if fixed.start_process_ram == NO_FIXED_ADDRESS {
                    None
                } else {
                    Some(fixed.start_process_ram)
                },
                None => None,
            },
    {
        match self.elements.fixed_addresses {
            Some(fixed) => if fixed.start_process_ram == NO_FIXED_ADDRESS {
                None
            } else {
                Some(fixed.start_process_ram)
            },
            None => None,
        }
    }

    /// The short identifier, if the header has one and it is not zero.
    pub fn get_fixed_short_id(&self) -> (id: Option<u32>)
        ensures
            id == match self.elements.short_id {
                Some(v) => if v == 0 {
                    None
                } else {
                    Some(v)
                },
                None => None,
            },
    {
        match self.elements.short_id {
            Some(v) => if v == 0 {
                None
            } else {
                Some(v)
            },
            None => None,
        }
    }

    /// Number of writeable flash regions.
    pub fn number_writeable_flash_regions(&self) -> (n: usize)
        ensures
            n == self.elements.writeable_regions@.len(),
    {
        self.elements.writeable_regions.len()
    }

    /// Offset and size of the writeable flash region of index `index`, or
    /// zeros if there is no such region.
    pub fn get_writeable_flash_region(&self, index: usize) -> (region: (u32, u32))
        ensures
            region == if index < self.elements.writeable_regions@.len() {
                (
                    self.elements.writeable_regions@[index as int].offset,
                    self.elements.writeable_regions@[index as int].size,
                )
            } else {
                (0u32, 0u32)
            },
    {
        if index < self.elements.writeable_regions.len() {
            let r: TbfHeaderV2WriteableFlashRegion = self.elements.writeable_regions[index];
            (r.offset, r.size)
        } else {
            (0, 0)
        }
    }

    /// Writes the fixed start back: sixteen bytes. The elements are not
    /// written; they stay where they were parsed from.
    pub fn serialize(&self) -> (r: Result<Vec<u8>, TbfParseError>)
        ensures
            r matches Ok(bytes) && bytes@ == spec_serialize(self.base),
    {
        let mut out: Vec<u8> = Vec::new();
        push_u16(&mut out, self.base.version);
        push_u16(&mut out, self.base.header_size);
        push_u32(&mut out, self.base.total_size);
        push_u32(&mut out, self.base.flags);
        push_u32(&mut out, self.base.checksum);
        assert(out@ =~= spec_serialize(self.base));
        Ok(out)
    }

    /// Computes the checksum that goes with `header` once its flags word is
    /// `flags`: the XOR of its whole 32-bit words, with `flags` in place of
    /// the flags word and zero in place of the checksum word. Zero for an
    /// empty buffer.
    pub fn compute_checksum(header: &[u8], flags: u32) -> (r: Result<u32, TbfParseError>)
        ensures
            r == Ok::<u32, TbfParseError>(checksum_with_flags(header@, flags)),
            header@.len() == 0 ==> r == Ok::<u32, TbfParseError>(0),
    {
        Ok(checksum_for(header, flags))
    }

    /// Replaces the whole flags word and recomputes the checksum over
    /// `original_header`, the bytes that the header was parsed from.
    pub fn set_flags(&mut self, flags: u32, original_header: &[u8]) -> (r: Result<
        (),
        TbfParseError,
    >)
        ensures
            r is Ok,
            final(self)@ == old(self)@.with_flags(
                flags,
                checksum_with_flags(original_header@, flags),
            ),
    {
        self.base.flags = flags;
        self.base.checksum = checksum_for(original_header, flags);
        Ok(())
    }

    /// Sets or clears the enabled bit, keeps every other bit, and recomputes
    /// the checksum over `original_header`.
    pub fn set_enabled(&mut self, enabled: bool, original_header: &[u8]) -> (r: Result<
        (),
        TbfParseError,
    >)
        ensures
            r is Ok,
            final(self)@ == old(self)@.with_flags(
                flags_with_enabled(old(self).base.flags, enabled),
                checksum_with_flags(
                    original_header@,
                    flags_with_enabled(old(self).base.flags, enabled),
                ),
            ),
            flag_enabled(final(self).base.flags) == enabled,
            final(self).base.flags & !FLAG_ENABLED == old(self).base.flags & !FLAG_ENABLED,
    {
        proof {
            lemma_enabled_bit(self.base.flags, enabled);
        }
        let flags: u32 = if enabled {
            self.base.flags | FLAG_ENABLED
        } else {
            self.base.flags & !FLAG_ENABLED
        };
        self.set_flags(flags, original_header)
    }

    /// Sets or clears the sticky bit, keeps every other bit, and recomputes
    /// the checksum over `original_header`.
    pub fn set_sticky(&mut self, sticky: bool, original_header: &[u8]) -> (r: Result<
        (),
        TbfParseError,
    >)
        ensures
            r is Ok,
            final(self)@ == old(self)@.with_flags(
                flags_with_sticky(old(self).base.flags, sticky),
                checksum_with_flags(
                    original_header@,
                    flags_with_sticky(old(self).base.flags, sticky),
                ),
            ),
            flag_sticky(final(self).base.flags) == sticky,
            final(self).base.flags & !FLAG_STICKY == old(self).base.flags & !FLAG_STICKY,
    {
        proof {
            lemma_sticky_bit(self.base.flags, sticky);
        }
        let flags: u32 = if sticky {
            self.base.flags | FLAG_STICKY
        } else {
            self.base.flags & !FLAG_STICKY
        };
        self.set_flags(flags, original_header)
    }
}

} // verus!
