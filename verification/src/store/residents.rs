//! Residents: which profile is bound to each engine's slot.
use vstd::prelude::*;

use crate::text::owned;

verus! {

/// What is bound to an engine's slot. A resident runs alongside the other
/// slots; what is not one is a plain swap.
#[derive(Debug, Clone, PartialEq, Eq)]
pub struct Resident {
    pub engine_id: String,
    pub profile: String,
    pub resident: bool,
}

/// Whether a binding is resident: as asked; where nothing is asked, as the
/// binding before it was.
pub open spec fn flag_after(existing: Option<&Resident>, asked: Option<bool>) -> bool {
    match asked {
        Some(r) => r,
        None => match existing {
            Some(e) => e.resident,
            None => false,
        },
    }
}

/// Binds a profile to an engine's slot, given what is bound to it. A resident
/// that is bound again without being asked is not demoted.
pub fn set_resident(
    existing: Option<&Resident>,
    engine_id: &str,
    profile: &str,
    resident: Option<bool>,
) -> (r: Resident)
    ensures
        r.engine_id@ == engine_id@,
        r.profile@ == profile@,
        r.resident == flag_after(existing, resident),
{
    let flag = match resident {
        Some(r) => r,
        None => match existing {
            Some(e) => e.resident,
            None => false,
        },
    };
    Resident { engine_id: owned(engine_id), profile: owned(profile), resident: flag }
}

} // verus!
