//! Everything read from a board in one record.

use crate::attributes::app_attributes::AppAttributes;
use crate::attributes::system_attributes::SystemAttributes;
use vstd::prelude::*;

verus! {

/// The attributes of the board and of the applications installed on it.
#[derive(Debug)]
pub struct GeneralAttributes {
    pub system: SystemAttributes,
    pub apps: Vec<AppAttributes>,
}

impl GeneralAttributes {
    /// The record of these attributes.
    pub fn new(system_attributes: SystemAttributes, apps_attributes: Vec<AppAttributes>) -> (all:
        GeneralAttributes)
        ensures
            all.system == system_attributes,
            all.apps == apps_attributes,
    {
        GeneralAttributes { system: system_attributes, apps: apps_attributes }
    }
}

} // verus!
