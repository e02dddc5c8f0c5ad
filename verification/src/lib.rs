//! Host-side loader logic for Tock boards: the Tock Binary Format codec, the
//! framing of the serial bootloader protocol, the flash placement planner and
//! the decoding of board attributes, each with a verified contract.

pub mod bytes;
pub mod tbf;
pub mod board_settings;
pub mod command_impl;
pub mod devices;
pub mod bootloader_serial;
pub mod errors;
pub mod text;
pub mod attributes;
pub mod tabs;
