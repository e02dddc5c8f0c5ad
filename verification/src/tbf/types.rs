//! The records of a Tock Binary Format header and of its credential footers.

use vstd::prelude::*;

verus! {

/// Type code of the Main element.
pub const TLV_MAIN: u16 = 1;

/// Type code of the Writeable-Flash-Regions element.
pub const TLV_WRITEABLE_FLASH_REGIONS: u16 = 2;

/// Type code of the Package-Name element.
pub const TLV_PACKAGE_NAME: u16 = 3;

/// Type code of the Fixed-Addresses element, which pins where the
/// application boots from.
pub const TLV_FIXED_ADDRESSES: u16 = 5;

/// Type code of the Permissions element.
pub const TLV_PERMISSIONS: u16 = 6;

/// Type code of the Persistent-ACL element.
pub const TLV_PERSISTENT_ACL: u16 = 7;

/// Type code of the Kernel-Version element.
pub const TLV_KERNEL_VERSION: u16 = 8;

/// Type code of the Program element.
pub const TLV_PROGRAM: u16 = 9;

/// Type code of the Short-ID element.
pub const TLV_SHORT_ID: u16 = 10;

/// Type code of a credentials footer.
pub const TLV_CREDENTIALS: u16 = 128;

/// Size in bytes of the fixed start of a version 2 header: version, header
/// length, total length, flags and checksum.
pub const BASE_SIZE: usize = 16;

/// Flag bit that marks an application as enabled.
pub const FLAG_ENABLED: u32 = 1;

/// Flag bit that marks an application as sticky.
pub const FLAG_STICKY: u32 = 2;

/// Value of a fixed address that means "none".
pub const NO_FIXED_ADDRESS: u32 = 0xFFFF_FFFF;

/// Why the first eight bytes of a header were refused.
#[derive(Clone, Copy, Debug, PartialEq, Eq, Structural)]
pub enum InitialTbfParseError {
    /// The version is not one this parser knows; most likely the end of the
    /// chain of applications.
    UnableToParse,
    /// The header length is zero or exceeds the total length, which is
    /// carried here.
    InvalidHeader(u32),
}

/// Why a header or a footer was refused.
#[derive(Clone, Copy, Debug, PartialEq, Eq, Structural)]
pub enum TbfParseError {
    /// The buffer ends before the element it announces.
    NotEnoughFlash,
    /// The header is of a version other than 2.
    UnsupportedVersion(u16),
    /// The stored checksum (first) differs from the computed one (second).
    ChecksumMismatch(u32, u32),
    /// The element of this type has a length its type does not allow.
    BadTlvEntry(usize),
    /// The package name is not UTF-8.
    BadProcessName,
    /// The buffer is too short to hold the fixed start of the record.
    InternalError,
}

/// The fixed first sixteen bytes of a version 2 header.
#[derive(Clone, Copy, Debug, PartialEq, Eq, Structural)]
pub struct TbfHeaderV2Base {
    pub version: u16,
    pub header_size: u16,
    pub total_size: u32,
    pub flags: u32,
    pub checksum: u32,
}

/// The Main element.
#[derive(Clone, Copy, Debug, PartialEq, Eq, Structural)]
pub struct TbfHeaderV2Main {
    pub init_fn_offset: u32,
    pub protected_trailer_size: u32,
    pub minimum_ram_size: u32,
}

/// The Program element: a Main element that also says where the binary ends
/// and which version it has.
#[derive(Clone, Copy, Debug, PartialEq, Eq, Structural)]
pub struct TbfHeaderV2Program {
    pub init_fn_offset: u32,
    pub protected_trailer_size: u32,
    pub minimum_ram_size: u32,
    pub binary_end_offset: u32,
    pub version: u32,
}

/// One region of flash that the application may write.
#[derive(Clone, Copy, Debug, PartialEq, Eq, Structural)]
pub struct TbfHeaderV2WriteableFlashRegion {
    pub offset: u32,
    pub size: u32,
}

/// The addresses in RAM and flash for which the application was built.
#[derive(Clone, Copy, Debug, PartialEq, Eq, Structural)]
pub struct TbfHeaderV2FixedAddresses {
    pub start_process_ram: u32,
    pub start_process_flash: u32,
}

/// The kernel version that the application asks for.
#[derive(Clone, Copy, Debug, PartialEq, Eq, Structural)]
pub struct TbfHeaderV2KernelVersion {
    pub major: u16,
    pub minor: u16,
}

/// An element that the parser keeps as it found it: its type and its value
/// bytes, without the padding that follows them.
#[derive(Clone, Debug)]
pub struct TbfTlvSpan {
    pub tipe: u16,
    pub value: Vec<u8>,
}

/// What a `TbfTlvSpan` holds, as mathematical values.
#[verifier::ext_equal]
pub struct TbfTlvSpanView {
    pub tipe: u16,
    pub value: Seq<u8>,
}

impl View for TbfTlvSpan {
    type V = TbfTlvSpanView;

    open spec fn view(&self) -> TbfTlvSpanView {
        TbfTlvSpanView { tipe: self.tipe, value: self.value@ }
    }
}

/// The elements that follow the fixed start of a header.
#[derive(Clone, Debug)]
pub struct TbfElements {
    pub main: Option<TbfHeaderV2Main>,
    pub program: Option<TbfHeaderV2Program>,
    pub package_name: Option<String>,
    pub writeable_regions: Vec<TbfHeaderV2WriteableFlashRegion>,
    pub fixed_addresses: Option<TbfHeaderV2FixedAddresses>,
    pub kernel_version: Option<TbfHeaderV2KernelVersion>,
    pub short_id: Option<u32>,
    /// Elements of every other type, in the order in which they appear.
    pub other: Vec<TbfTlvSpan>,
}

/// What a `TbfElements` holds, as mathematical values.
#[verifier::ext_equal]
pub struct TbfElementsView {
    pub main: Option<TbfHeaderV2Main>,
    pub program: Option<TbfHeaderV2Program>,
    pub package_name: Option<Seq<char>>,
    pub writeable_regions: Seq<TbfHeaderV2WriteableFlashRegion>,
    pub fixed_addresses: Option<TbfHeaderV2FixedAddresses>,
    pub kernel_version: Option<TbfHeaderV2KernelVersion>,
    pub short_id: Option<u32>,
    pub other: Seq<TbfTlvSpanView>,
}

impl View for TbfElements {
    type V = TbfElementsView;

    open spec fn view(&self) -> TbfElementsView {
        TbfElementsView {
            main: self.main,
            program: self.program,
            package_name: match self.package_name {
                Some(name) => Some(name@),
                None => None,
            },
            writeable_regions: self.writeable_regions@,
            fixed_addresses: self.fixed_addresses,
            kernel_version: self.kernel_version,
            short_id: self.short_id,
            other: Seq::new(self.other@.len(), |i: int| self.other@[i]@),
        }
    }
}

impl TbfElementsView {
    /// No element at all.
    pub open spec fn none() -> TbfElementsView {
        TbfElementsView {
            main: None,
            program: None,
            package_name: None,
            writeable_regions: Seq::empty(),
            fixed_addresses: None,
            kernel_version: None,
            short_id: None,
            other: Seq::empty(),
        }
    }
}

/// A parsed version 2 header: its fixed start and its elements.
#[derive(Clone, Debug)]
pub struct TbfHeader {
    pub base: TbfHeaderV2Base,
    pub elements: TbfElements,
}

/// What a `TbfHeader` holds, as mathematical values.
#[verifier::ext_equal]
pub struct TbfHeaderView {
    pub base: TbfHeaderV2Base,
    pub elements: TbfElementsView,
}

impl View for TbfHeader {
    type V = TbfHeaderView;

    open spec fn view(&self) -> TbfHeaderView {
        TbfHeaderView { base: self.base, elements: self.elements@ }
    }
}

impl TbfHeaderView {
    /// Whether the header describes an application: it has a Main element.
    /// A header without one is padding between applications.
    pub open spec fn is_app(self) -> bool {
        self.elements.main is Some
    }

    /// Offset from the start of the header at which the binary ends and the
    /// footers begin.
    pub open spec fn binary_end(self) -> u32 {
        match self.elements.program {
            Some(p) => p.binary_end_offset,
            None => self.base.total_size,
        }
    }

    /// The flash address for which the application was built, if it was
    /// built for one.
    pub open spec fn fixed_address_flash(self) -> Option<u32> {
        match self.elements.fixed_addresses {
            Some(fixed) => if fixed.start_process_flash == NO_FIXED_ADDRESS {
                None
            } else {
                Some(fixed.start_process_flash)
            },
            None => None,
        }
    }

    /// The same header with another flags word and another checksum.
    pub open spec fn with_flags(self, flags: u32, checksum: u32) -> TbfHeaderView {
        TbfHeaderView {
            base: TbfHeaderV2Base {
                version: self.base.version,
                header_size: self.base.header_size,
                total_size: self.base.total_size,
                flags,
                checksum,
            },
            elements: self.elements,
        }
    }
}

/// The kinds of credential that a footer can carry.
#[derive(Clone, Copy, Debug, PartialEq, Eq, Structural)]
pub enum TbfFooterV2CredentialsType {
    Reserved,
    Rsa3072Key,
    Rsa4096Key,
    SHA256,
    SHA384,
    SHA512,
    EcdsaNistP256,
    Rsa2048Key,
}

impl TbfFooterV2CredentialsType {
    /// The format word that announces this kind in a footer.
    pub open spec fn spec_code(self) -> u32 {
        match self {
            TbfFooterV2CredentialsType::Reserved => 0,
            TbfFooterV2CredentialsType::Rsa3072Key => 1,
            TbfFooterV2CredentialsType::Rsa4096Key => 2,
            TbfFooterV2CredentialsType::SHA256 => 3,
            TbfFooterV2CredentialsType::SHA384 => 4,
            TbfFooterV2CredentialsType::SHA512 => 5,
            TbfFooterV2CredentialsType::EcdsaNistP256 => 6,
            TbfFooterV2CredentialsType::Rsa2048Key => 10,
        }
    }

    /// The kind that the format word `code` announces, if it announces one.
    pub open spec fn spec_from_code(code: u32) -> Option<TbfFooterV2CredentialsType> {
        if code == 0 {
            Some(TbfFooterV2CredentialsType::Reserved)
        } else if code == 1 {
            Some(TbfFooterV2CredentialsType::Rsa3072Key)
        } else if code == 2 {
            Some(TbfFooterV2CredentialsType::Rsa4096Key)
        } else if code == 3 {
            Some(TbfFooterV2CredentialsType::SHA256)
        } else if code == 4 {
            Some(TbfFooterV2CredentialsType::SHA384)
        } else if code == 5 {
            Some(TbfFooterV2CredentialsType::SHA512)
        } else if code == 6 {
            Some(TbfFooterV2CredentialsType::EcdsaNistP256)
        } else if code == 10 {
            Some(TbfFooterV2CredentialsType::Rsa2048Key)
        } else {
            None
        }
    }

    /// Number of bytes of credential data that follow the format word: the
    /// digest, the key with its signature, or the two halves of an ECDSA
    /// signature. Zero for a reserved footer, whose content is free.
    pub open spec fn spec_data_length(self) -> usize {
        match self {
            TbfFooterV2CredentialsType::Reserved => 0,
            TbfFooterV2CredentialsType::Rsa3072Key => 768,
            TbfFooterV2CredentialsType::Rsa4096Key => 1024,
            TbfFooterV2CredentialsType::SHA256 => 32,
            TbfFooterV2CredentialsType::SHA384 => 48,
            TbfFooterV2CredentialsType::SHA512 => 64,
            TbfFooterV2CredentialsType::EcdsaNistP256 => 64,
            TbfFooterV2CredentialsType::Rsa2048Key => 512,
        }
    }

    /// The format word that announces this kind in a footer.
    pub fn code(self) -> (c: u32)
        ensures
            c == self.spec_code(),
            Self::spec_from_code(c) == Some(self),
    {
        match self {
            TbfFooterV2CredentialsType::Reserved => 0,
            TbfFooterV2CredentialsType::Rsa3072Key => 1,
            TbfFooterV2CredentialsType::Rsa4096Key => 2,
            TbfFooterV2CredentialsType::SHA256 => 3,
            TbfFooterV2CredentialsType::SHA384 => 4,
            TbfFooterV2CredentialsType::SHA512 => 5,
            TbfFooterV2CredentialsType::EcdsaNistP256 => 6,
            TbfFooterV2CredentialsType::Rsa2048Key => 10,
        }
    }

    /// The kind that the format word `code` announces, if it announces one.
    pub fn from_code(code: u32) -> (t: Option<TbfFooterV2CredentialsType>)
        ensures
            t == Self::spec_from_code(code),
    {
        if code == 0 {
            Some(TbfFooterV2CredentialsType::Reserved)
        } else if code == 1 {
            Some(TbfFooterV2CredentialsType::Rsa3072Key)
        } else if code == 2 {
            Some(TbfFooterV2CredentialsType::Rsa4096Key)
        } else if code == 3 {
            Some(TbfFooterV2CredentialsType::SHA256)
        } else if code == 4 {
            Some(TbfFooterV2CredentialsType::SHA384)
        } else if code == 5 {
            Some(TbfFooterV2CredentialsType::SHA512)
        } else if code == 6 {
            Some(TbfFooterV2CredentialsType::EcdsaNistP256)
        } else if code == 10 {
            Some(TbfFooterV2CredentialsType::Rsa2048Key)
        } else {
            None
        }
    }

    /// Number of bytes of credential data that follow the format word.
    pub fn data_length(self) -> (n: usize)
        ensures
            n == self.spec_data_length(),
    {
        match self {
            TbfFooterV2CredentialsType::Reserved => 0,
            TbfFooterV2CredentialsType::Rsa3072Key => 768,
            TbfFooterV2CredentialsType::Rsa4096Key => 1024,
            TbfFooterV2CredentialsType::SHA256 => 32,
            TbfFooterV2CredentialsType::SHA384 => 48,
            TbfFooterV2CredentialsType::SHA512 => 64,
            TbfFooterV2CredentialsType::EcdsaNistP256 => 64,
            TbfFooterV2CredentialsType::Rsa2048Key => 512,
        }
    }
}

/// A digest of the application.
#[derive(Clone, Debug)]
pub struct TbfFooterV2SHA {
    pub hash: Vec<u8>,
}

impl TbfFooterV2SHA {
    /// Which digest this is, by its length.
    pub fn get_format(&self) -> (r: Result<TbfFooterV2CredentialsType, TbfParseError>)
        ensures
            r == if self.hash@.len() == 32 {
                Ok::<TbfFooterV2CredentialsType, TbfParseError>(TbfFooterV2CredentialsType::SHA256)
            } else if self.hash@.len() == 48 {
                Ok(TbfFooterV2CredentialsType::SHA384)
            } else if self.hash@.len() == 64 {
                Ok(TbfFooterV2CredentialsType::SHA512)
            } else {
                Err(TbfParseError::InternalError)
            },
    {
        if self.hash.len() == 32 {
            Ok(TbfFooterV2CredentialsType::SHA256)
        } else if self.hash.len() == 48 {
            Ok(TbfFooterV2CredentialsType::SHA384)
        } else if self.hash.len() == 64 {
            Ok(TbfFooterV2CredentialsType::SHA512)
        } else {
            Err(TbfParseError::InternalError)
        }
    }

    /// The digest.
    pub fn get_hash(&self) -> (h: &Vec<u8>)
        ensures
            h@ == self.hash@,
    {
        &self.hash
    }
}

/// An RSA public key and the signature made with it, of equal length.
#[derive(Clone, Debug)]
pub struct TbfFooterV2RSA {
    pub public_key: Vec<u8>,
    pub signature: Vec<u8>,
}

impl TbfFooterV2RSA {
    /// Which key size this is, by the length of the key.
    pub fn get_format(&self) -> (r: Result<TbfFooterV2CredentialsType, TbfParseError>)
        ensures
            r == if self.public_key@.len() == 256 {
                Ok::<TbfFooterV2CredentialsType, TbfParseError>(
                    TbfFooterV2CredentialsType::Rsa2048Key,
                )
            } else if self.public_key@.len() == 384 {
                Ok(TbfFooterV2CredentialsType::Rsa3072Key)
            } else if self.public_key@.len() == 512 {
                Ok(TbfFooterV2CredentialsType::Rsa4096Key)
            } else {
                Err(TbfParseError::InternalError)
            },
    {
        if self.public_key.len() == 256 {
            Ok(TbfFooterV2CredentialsType::Rsa2048Key)
        } else if self.public_key.len() == 384 {
            Ok(TbfFooterV2CredentialsType::Rsa3072Key)
        } else if self.public_key.len() == 512 {
            Ok(TbfFooterV2CredentialsType::Rsa4096Key)
        } else {
            Err(TbfParseError::InternalError)
        }
    }

    /// The public key.
    pub fn get_public_key(&self) -> (k: &Vec<u8>)
        ensures
            k@ == self.public_key@,
    {
        &self.public_key
    }

    /// The signature.
    pub fn get_signature(&self) -> (s: &Vec<u8>)
        ensures
            s@ == self.signature@,
    {
        &self.signature
    }
}

/// The two halves of an ECDSA signature over the NIST P-256 curve.
#[derive(Clone, Debug)]
pub struct TbfFooterV2EcdsaNistP256 {
    pub signature_r: Vec<u8>,
    pub signature_s: Vec<u8>,
}

impl TbfFooterV2EcdsaNistP256 {
    /// The kind of credential this is.
    pub fn get_format(&self) -> (r: Result<TbfFooterV2CredentialsType, TbfParseError>)
        ensures
            r == Ok::<TbfFooterV2CredentialsType, TbfParseError>(
                TbfFooterV2CredentialsType::EcdsaNistP256,
            ),
    {
        Ok(TbfFooterV2CredentialsType::EcdsaNistP256)
    }

    /// The first half of the signature.
    pub fn get_signature_r(&self) -> (r: &Vec<u8>)
        ensures
            r@ == self.signature_r@,
    {
        &self.signature_r
    }

    /// The second half of the signature.
    pub fn get_signature_s(&self) -> (s: &Vec<u8>)
        ensures
            s@ == self.signature_s@,
    {
        &self.signature_s
    }
}

/// The credential that a footer carries.
#[derive(Clone, Debug)]
pub enum TbfFooterV2Credentials {
    /// Space kept free for credentials; the number is the length of the
    /// footer's value.
    Reserved(u32),
    Rsa2048Key(TbfFooterV2RSA),
    Rsa3072Key(TbfFooterV2RSA),
    Rsa4096Key(TbfFooterV2RSA),
    SHA256(TbfFooterV2SHA),
    SHA384(TbfFooterV2SHA),
    SHA512(TbfFooterV2SHA),
    EcdsaNistP256(TbfFooterV2EcdsaNistP256),
}

/// What a credential holds, as mathematical values: its kind, the length of
/// a reserved footer, and its data in one or two parts (the digest; the key
/// and the signature; the two halves of an ECDSA signature).
#[verifier::ext_equal]
pub struct TbfFooterV2CredentialsView {
    pub format: TbfFooterV2CredentialsType,
    pub reserved: u32,
    pub first: Seq<u8>,
    pub second: Seq<u8>,
}

impl View for TbfFooterV2Credentials {
    type V = TbfFooterV2CredentialsView;

    open spec fn view(&self) -> TbfFooterV2CredentialsView {
        match self {
            TbfFooterV2Credentials::Reserved(n) => TbfFooterV2CredentialsView {
                format: TbfFooterV2CredentialsType::Reserved,
                reserved: *n,
                first: Seq::empty(),
                second: Seq::empty(),
            },
            TbfFooterV2Credentials::Rsa2048Key(rsa) => TbfFooterV2CredentialsView {
                format: TbfFooterV2CredentialsType::Rsa2048Key,
                reserved: 0,
                first: rsa.public_key@,
                second: rsa.signature@,
            },
            TbfFooterV2Credentials::Rsa3072Key(rsa) => TbfFooterV2CredentialsView {
                format: TbfFooterV2CredentialsType::Rsa3072Key,
                reserved: 0,
                first: rsa.public_key@,
                second: rsa.signature@,
            },
            TbfFooterV2Credentials::Rsa4096Key(rsa) => TbfFooterV2CredentialsView {
                format: TbfFooterV2CredentialsType::Rsa4096Key,
                reserved: 0,
                first: rsa.public_key@,
                second: rsa.signature@,
            },
            TbfFooterV2Credentials::SHA256(sha) => TbfFooterV2CredentialsView {
                format: TbfFooterV2CredentialsType::SHA256,
                reserved: 0,
                first: sha.hash@,
                second: Seq::empty(),
            },
            TbfFooterV2Credentials::SHA384(sha) => TbfFooterV2CredentialsView {
                format: TbfFooterV2CredentialsType::SHA384,
                reserved: 0,
                first: sha.hash@,
                second: Seq::empty(),
            },
            TbfFooterV2Credentials::SHA512(sha) => TbfFooterV2CredentialsView {
                format: TbfFooterV2CredentialsType::SHA512,
                reserved: 0,
                first: sha.hash@,
                second: Seq::empty(),
            },
            TbfFooterV2Credentials::EcdsaNistP256(sig) => TbfFooterV2CredentialsView {
                format: TbfFooterV2CredentialsType::EcdsaNistP256,
                reserved: 0,
                first: sig.signature_r@,
                second: sig.signature_s@,
            },
        }
    }
}

impl TbfFooterV2Credentials {
    /// The kind of credential this is.
    pub fn get_type(&self) -> (t: TbfFooterV2CredentialsType)
        ensures
            t == self@.format,
    {
        match self {
            TbfFooterV2Credentials::Reserved(_) => TbfFooterV2CredentialsType::Reserved,
            TbfFooterV2Credentials::Rsa2048Key(_) => TbfFooterV2CredentialsType::Rsa2048Key,
            TbfFooterV2Credentials::Rsa3072Key(_) => TbfFooterV2CredentialsType::Rsa3072Key,
            TbfFooterV2Credentials::Rsa4096Key(_) => TbfFooterV2CredentialsType::Rsa4096Key,
            TbfFooterV2Credentials::SHA256(_) => TbfFooterV2CredentialsType::SHA256,
            TbfFooterV2Credentials::SHA384(_) => TbfFooterV2CredentialsType::SHA384,
            TbfFooterV2Credentials::SHA512(_) => TbfFooterV2CredentialsType::SHA512,
            TbfFooterV2Credentials::EcdsaNistP256(_) => TbfFooterV2CredentialsType::EcdsaNistP256,
        }
    }
}

} // verus!
