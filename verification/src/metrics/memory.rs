use vstd::prelude::*;
use crate::snapshot::Pressure;

verus! {

/// Page counts from the VM statistics.
#[derive(Debug, Clone, Copy, PartialEq, Eq)]
pub struct VmPages {
    pub active: u64,
    pub inactive: u64,
    pub wire: u64,
    pub speculative: u64,
    pub compressor: u64,
    pub purgeable: u64,
    pub external: u64,
}

/// `a + b`, capped at `u64::MAX`.
pub open spec fn sat_add(a: nat, b: nat) -> nat {
    if a + b > u64::MAX { u64::MAX as nat } else { a + b }
}

/// `a - b`, floored at zero.
pub open spec fn sat_sub(a: nat, b: nat) -> nat {
    if a >= b { (a - b) as nat } else { 0 }
}

/// `a * b`, capped at `u64::MAX`.
pub open spec fn sat_mul(a: nat, b: nat) -> nat {
    if a * b > u64::MAX { u64::MAX as nat } else { a * b }
}

/// Used pages the way Activity Monitor counts them, each step saturating:
/// active + inactive + wired + speculative + compressed - purgeable - external.
pub open spec fn used_pages(p: VmPages) -> nat {
    sat_sub(
        sat_sub(
            sat_add(
                sat_add(sat_add(sat_add(p.active as nat, p.inactive as nat), p.wire as nat), p.speculative as nat),
                p.compressor as nat,
            ),
            p.purgeable as nat,
        ),
        p.external as nat,
    )
}

/// Saturating multiplication.
pub fn saturating_mul(a: u64, b: u64) -> (r: u64)
    ensures
        r == sat_mul(a as nat, b as nat),
{
    match a.checked_mul(b) {
        Some(x) => x,
        None => u64::MAX,
    }
}

/// Used memory in bytes: used pages times the page size, saturating.
pub fn used_bytes(pages: VmPages, page_size: u64) -> (b: u64)
    ensures
        b == sat_mul(used_pages(pages), page_size as nat),
{
    let count = pages
        .active
        .saturating_add(pages.inactive)
        .saturating_add(pages.wire)
        .saturating_add(pages.speculative)
        .saturating_add(pages.compressor)
        .saturating_sub(pages.purgeable)
        .saturating_sub(pages.external);
    saturating_mul(count, page_size)
}

/// `kern.memorystatus_vm_pressure_level`: 2 is warn, 4 is critical, anything
/// else (or no reading) is nominal.
pub fn pressure_from_level(level: Option<i32>) -> (p: Pressure)
    ensures
        p == (match level {
            Some(2) => Pressure::Warn,
            Some(4) => Pressure::Critical,
            _ => Pressure::Nominal,
        }),
{
    match level {
        Some(2) => Pressure::Warn,
        Some(4) => Pressure::Critical,
        _ => Pressure::Nominal,
    }
}

} // verus!
