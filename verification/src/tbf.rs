//! The Tock Binary Format: the header and footers that frame an application
//! in flash, how they are parsed, and how the flag word is changed in place.

pub mod checksum;
pub mod header;
pub mod parse;
pub mod permissions;
pub mod types;
