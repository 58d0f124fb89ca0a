use vstd::prelude::*;
use crate::snapshot::Thermal;

verus! {

/// `NSProcessInfo.thermalState`: 1 fair, 2 serious, 3 critical, anything else
/// nominal.
pub fn thermal_from_nsprocessinfo(state: i64) -> (t: Thermal)
    ensures
        t == (match state {
            1 => Thermal::Fair,
            2 => Thermal::Serious,
            3 => Thermal::Critical,
            _ => Thermal::Nominal,
        }),
{
    match state {
        1 => Thermal::Fair,
        2 => Thermal::Serious,
        3 => Thermal::Critical,
        _ => Thermal::Nominal,
    }
}

} // verus!
