//! What the service offers, by area.

pub mod capabilities;
pub mod test_types;

use vstd::prelude::*;

verus! {

/// The name and version the service answers with at its root.
pub struct VersionInfo {
    pub name: &'static str,
    pub version: &'static str,
}

/// The name and version of the service.
pub fn version_info() -> (r: VersionInfo)
    ensures
        r.name@ == "LabLink"@,
        r.version@ == "0.1.0"@,
{
    VersionInfo { name: "LabLink", version: "0.1.0" }
}

} // verus!
