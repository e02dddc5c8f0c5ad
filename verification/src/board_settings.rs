//! What the caller knows of the board.

use vstd::prelude::*;

verus! {

/// Where applications start in flash, how large a flash page is, and for
/// which architecture binaries are picked.
#[derive(Clone, Debug)]
pub struct BoardSettings {
    pub arch: Option<String>,
    pub start_address: u64,
    pub page_size: u64,
}

impl Default for BoardSettings {
    /// No architecture, applications from `0x30000`, pages of 512 bytes.
    fn default() -> (settings: Self)
        ensures
            settings.arch is None,
            settings.start_address == 0x30000,
            settings.page_size == 512,
    {
        BoardSettings { arch: None, start_address: 0x30000, page_size: 512 }
    }
}

} // verus!
