//! The steel traction machines that LabLink reads from.

use vstd::prelude::*;

verus! {

/// A testing machine: its display name and the base address of its service.
pub struct Machine {
    pub name: &'static str,
    pub url: &'static str,
}

/// The machines that serve steel traction tests, in the order they are read.
pub fn steel_machines() -> (r: Vec<Machine>)
    ensures
        r@.len() == 2,
        r@[0].name@ == "Controls"@,
        r@[0].url@ == "http://192.168.20.250:80"@,
        r@[1].name@ == "Cermac"@,
        r@[1].url@ == "http://192.168.20.251:80"@,
{
    let mut r: Vec<Machine> = Vec::new();
    r.push(Machine { name: "Controls", url: "http://192.168.20.250:80" });
    r.push(Machine { name: "Cermac", url: "http://192.168.20.251:80" });
    r
}

} // verus!
