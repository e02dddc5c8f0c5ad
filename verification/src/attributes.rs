//! What is read from the board: the attributes of the board itself and of
//! the applications installed on it.

pub mod app_attributes;
pub mod decode;
pub mod general_attributes;
pub mod system_attributes;
