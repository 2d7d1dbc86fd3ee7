//! Whether an engine's slot is in use.
use vstd::prelude::*;

use crate::text::{same, str_trim, trim};

verus! {

/// What was found of an engine's slot.
#[derive(Debug, Clone, Copy, PartialEq, Eq, Structural)]
pub struct SlotProbe {
    /// The engine's unit is active.
    pub unit_active: bool,
    /// The engine answers on its port.
    pub port_up: bool,
}

/// Whether what systemd said of a unit means that it is active. Where systemd
/// could not be asked, it is not.
pub fn unit_active(answer: Option<&str>) -> (r: bool)
    ensures
        r == (answer is Some && trim(answer->0@) == "active"@),
{
    match answer {
        Some(a) => same(str_trim(a).as_str(), "active"),
        None => false,
    }
}

/// What was found of an engine's slot.
pub fn probe_slot(answer: Option<&str>, port_up: bool) -> (r: SlotProbe)
    ensures
        r.unit_active == (answer is Some && trim(answer->0@) == "active"@),
        r.port_up == port_up,
{
    SlotProbe { unit_active: unit_active(answer), port_up }
}

} // verus!
