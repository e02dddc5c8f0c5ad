//! What the commands compute: the layout of applications in flash and the
//! byte streams and requests that carry it out.

pub mod layout_laws;
pub mod orders;
pub mod placement;
pub mod reshuffle_apps;
pub mod transfer;
