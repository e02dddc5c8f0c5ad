//! The errors that the loader's logic reports.

use crate::tbf::types::TbfParseError;
use vstd::prelude::*;

verus! {

/// An attribute of the board that could not be decoded.
#[derive(Clone, Copy, Debug, PartialEq, Eq, Structural)]
pub enum AttributeParseError {
    /// The attribute should be a hexadecimal number and is not.
    InvalidNumber,
    /// The attribute should be text and is not UTF-8.
    InvalidString,
}

/// A broken assumption of the loader itself, most often through misuse.
#[derive(Clone, Debug)]
pub enum InternalError {
    ConnectionNotOpen,
    BootloaderNotPresent,
    /// The board setting named here is missing or invalid.
    MisconfiguredBoardSettings(String),
}

/// Bad data from the board or its bootloader.
#[derive(Clone, Debug)]
pub enum TockError {
    /// The two bytes that should announce a response are not the escape
    /// byte and the expected response code; they are carried here.
    BootloaderBadHeader(u8, u8),
    /// A read or a write did not finish in time.
    BootloaderTimeout,
    InvalidAppTbfHeader(TbfParseError),
    AttributeParsing(AttributeParseError),
    /// The attribute named here is not on the board.
    MissingAttribute(String),
}

/// A tab that cannot be used.
#[derive(Clone, Debug)]
pub enum TabError {
    InvalidMetadata,
    MissingMetadata,
    Parsing(TbfParseError),
    /// The tab holds no binary for the architecture named here.
    MissingBinary(String),
}

/// Any error of the loader's logic.
#[derive(Clone, Debug)]
pub enum TockloaderError {
    Tab(TabError),
    Tock(TockError),
    Internal(InternalError),
}

impl TbfParseError {
    /// What the error says, in words.
    pub fn message(&self) -> (text: String)
        ensures
            text@ == match self {
                TbfParseError::NotEnoughFlash => "Buffer too short to parse TBF header/footer"@,
                TbfParseError::UnsupportedVersion(_) => "TBF version unsupported"@,
                TbfParseError::ChecksumMismatch(_, _) => "Checksum verification failed"@,
                TbfParseError::BadTlvEntry(_) => "TLV entry is invalid"@,
                TbfParseError::BadProcessName => "Process name not UTF-8"@,
                TbfParseError::InternalError => "Internal kernel error. This is a bug."@,
            },
    {
        match self {
            TbfParseError::NotEnoughFlash => {
                "Buffer too short to parse TBF header/footer".to_owned()
            },
            TbfParseError::UnsupportedVersion(_) => "TBF version unsupported".to_owned(),
            TbfParseError::ChecksumMismatch(_, _) => "Checksum verification failed".to_owned(),
            TbfParseError::BadTlvEntry(_) => "TLV entry is invalid".to_owned(),
            TbfParseError::BadProcessName => "Process name not UTF-8".to_owned(),
            TbfParseError::InternalError => "Internal kernel error. This is a bug.".to_owned(),
        }
    }
}

} // verus!
