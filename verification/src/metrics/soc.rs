use vstd::prelude::*;

verus! {

/// Core counts (efficiency, performance, super) from `hw.nperflevels` and the
/// per-level logical CPU counts. Level 0 is the fastest.
pub open spec fn cluster_counts_spec(nlevels: u32, level_cpus: [u8; 3]) -> (u8, u8, u8) {
    if nlevels == 3 {
        (level_cpus@[2], level_cpus@[1], level_cpus@[0])
    } else if nlevels == 2 {
        (level_cpus@[1], level_cpus@[0], 0)
    } else if nlevels == 1 {
        (0, level_cpus@[0], 0)
    } else {
        (0, 0, 0)
    }
}

/// Maps perf levels onto (efficiency, performance, super) core counts.
pub fn cluster_counts(nlevels: u32, level_cpus: [u8; 3]) -> (r: (u8, u8, u8))
    ensures
        r == cluster_counts_spec(nlevels, level_cpus),
{
    match nlevels {
        3 => (level_cpus[2], level_cpus[1], level_cpus[0]),
        2 => (level_cpus[1], level_cpus[0], 0),
        1 => (0, level_cpus[0], 0),
        _ => (0, 0, 0),
    }
}

} // verus!
