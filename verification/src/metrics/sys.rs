use vstd::prelude::*;

verus! {

/// Converts Mach absolute-time ticks to nanoseconds with the timebase
/// `numer / denom` (a zero denominator counts as 1); the product saturates.
pub fn mach_ticks_to_ns(ticks: u64, numer: u32, denom: u32) -> (ns: u64)
    ensures
        ns == crate::metrics::memory::sat_mul(ticks as nat, numer as nat) / (if denom == 0 { 1 } else { denom as nat }),
{
    let product = crate::metrics::memory::saturating_mul(ticks, numer as u64);
    let d: u64 = if denom == 0 { 1 } else { denom as u64 };
    product / d
}

/// Whether a reading refreshed every `period_ms` is due, given how long ago
/// it was last taken (`None`: never).
pub fn sample_due(elapsed_ms: Option<u64>, period_ms: u64) -> (due: bool)
    ensures
        due == match elapsed_ms {
            None => true,
            Some(e) => e >= period_ms,
        },
{
    match elapsed_ms {
        None => true,
        Some(e) => e >= period_ms,
    }
}

} // verus!
