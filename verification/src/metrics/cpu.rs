use vstd::prelude::*;

verus! {

/// Slot of user ticks in a per-core tick array.
pub const USER: usize = 0;
/// Slot of system ticks.
pub const SYSTEM: usize = 1;
/// Slot of idle ticks.
pub const IDLE: usize = 2;
/// Slot of nice ticks.
pub const NICE: usize = 3;

/// Ticks elapsed between two readings of a wrapping 32-bit counter.
pub open spec fn wrapped_delta(prev: u32, now: u32) -> nat {
    if now >= prev {
        (now - prev) as nat
    } else {
        (now + 0x1_0000_0000 - prev) as nat
    }
}

/// Per-state tick deltas between two tick arrays; counters may wrap.
pub fn tick_delta(prev: &[u32; 4], now: &[u32; 4]) -> (d: [u64; 4])
    ensures
        forall|k: int| 0 <= k < 4 ==> d@[k] == wrapped_delta(prev@[k], now@[k]),
{
    let d = [
        now[USER].wrapping_sub(prev[USER]) as u64,
        now[SYSTEM].wrapping_sub(prev[SYSTEM]) as u64,
        now[IDLE].wrapping_sub(prev[IDLE]) as u64,
        now[NICE].wrapping_sub(prev[NICE]) as u64,
    ];
    assert forall|k: int| 0 <= k < 4 implies d@[k] == wrapped_delta(prev@[k], now@[k]) by {}
    d
}

/// All ticks in a delta.
pub fn ticks_total(delta: &[u64; 4]) -> (t: u64)
    requires
        delta@[0] < 0x1_0000_0000 && delta@[1] < 0x1_0000_0000 && delta@[2] < 0x1_0000_0000
            && delta@[3] < 0x1_0000_0000,
    ensures
        t == delta@[0] + delta@[1] + delta@[2] + delta@[3],
{
    delta[USER] + delta[SYSTEM] + delta[IDLE] + delta[NICE]
}

/// Non-idle ticks in a delta.
pub fn ticks_busy(delta: &[u64; 4]) -> (t: u64)
    requires
        delta@[0] < 0x1_0000_0000 && delta@[1] < 0x1_0000_0000 && delta@[3] < 0x1_0000_0000,
    ensures
        t == delta@[0] + delta@[1] + delta@[3],
{
    delta[USER] + delta[SYSTEM] + delta[NICE]
}

/// Busy ticks of one core between two readings.
pub open spec fn core_busy(prev: [u32; 4], now: [u32; 4]) -> nat {
    wrapped_delta(prev@[0], now@[0]) + wrapped_delta(prev@[1], now@[1]) + wrapped_delta(
        prev@[3],
        now@[3],
    )
}

/// All ticks of one core between two readings.
pub open spec fn core_total(prev: [u32; 4], now: [u32; 4]) -> nat {
    core_busy(prev, now) + wrapped_delta(prev@[2], now@[2])
}

/// Busy and total ticks of one core; the active ratio is busy / total (0 when
/// total is 0).
pub fn core_active_ticks(prev: &[u32; 4], now: &[u32; 4]) -> (r: (u64, u64))
    ensures
        r.0 == core_busy(*prev, *now),
        r.1 == core_total(*prev, *now),
{
    let delta = tick_delta(prev, now);
    (ticks_busy(&delta), ticks_total(&delta))
}

/// Busy ticks summed over the first `n` cores.
pub open spec fn sum_busy(prev: Seq<[u32; 4]>, now: Seq<[u32; 4]>, n: int) -> nat
    decreases n,
{
    if n <= 0 {
        0
    } else {
        sum_busy(prev, now, n - 1) + core_busy(prev[n - 1], now[n - 1])
    }
}

/// All ticks summed over the first `n` cores.
pub open spec fn sum_total(prev: Seq<[u32; 4]>, now: Seq<[u32; 4]>, n: int) -> nat
    decreases n,
{
    if n <= 0 {
        0
    } else {
        sum_total(prev, now, n - 1) + core_total(prev[n - 1], now[n - 1])
    }
}

proof fn lemma_sums_bounded(prev: Seq<[u32; 4]>, now: Seq<[u32; 4]>, n: int)
    requires
        0 <= n,
    ensures
        sum_busy(prev, now, n) <= sum_total(prev, now, n),
        sum_total(prev, now, n) <= n * 0x4_0000_0000,
    decreases n,
{
    if n > 0 {
        lemma_sums_bounded(prev, now, n - 1);
    }
}

/// Between two readings of one core's counters (user, system, idle, nice):
/// each counter's delta is what was added to it, modulo 2^32 for a counter
/// that wrapped; every tick of every state is counted once in the total;
/// the only ticks not busy are the idle ones, so user, system and nice
/// (niced processes) time is all busy; and a core whose idle counter did
/// not move was busy the whole time.
pub proof fn law_only_idle_ticks_are_not_busy(prev: [u32; 4], now: [u32; 4])
    ensures
        forall|k: int|
            0 <= k < 4 ==> #[trigger] wrapped_delta(prev@[k], now@[k]) < 0x1_0000_0000 && (prev@[k]
                + wrapped_delta(prev@[k], now@[k])) % 0x1_0000_0000 == now@[k],
        core_total(prev, now) == wrapped_delta(prev@[USER as int], now@[USER as int]) + wrapped_delta(
            prev@[SYSTEM as int],
            now@[SYSTEM as int],
        ) + wrapped_delta(prev@[IDLE as int], now@[IDLE as int]) + wrapped_delta(
            prev@[NICE as int],
            now@[NICE as int],
        ),
        core_total(prev, now) - core_busy(prev, now) == wrapped_delta(prev@[IDLE as int], now@[IDLE as int]),
        prev@[IDLE as int] == now@[IDLE as int] ==> core_busy(prev, now) == core_total(prev, now),
{
    assert forall|k: int| 0 <= k < 4 implies #[trigger] wrapped_delta(prev@[k], now@[k]) < 0x1_0000_0000 && (
    prev@[k] + wrapped_delta(prev@[k], now@[k])) % 0x1_0000_0000 == now@[k] by {
        let a = prev@[k] as int;
        let b = now@[k] as int;
        if b >= a {
            assert((a + (b - a)) % 0x1_0000_0000 == b);
        } else {
            assert(a + (b + 0x1_0000_0000 - a) == b + 0x1_0000_0000);
            assert((b + 0x1_0000_0000) % 0x1_0000_0000 == b);
        }
    }
}

/// Idle ticks summed over the first `n` cores.
pub open spec fn sum_idle(prev: Seq<[u32; 4]>, now: Seq<[u32; 4]>, n: int) -> nat
    decreases n,
{
    if n <= 0 {
        0
    } else {
        sum_idle(prev, now, n - 1) + wrapped_delta(prev[n - 1]@[IDLE as int], now[n - 1]@[IDLE as int])
    }
}

/// Over all cores, the ticks not counted busy are exactly the idle ticks.
pub proof fn law_machine_idle_is_total_minus_busy(prev: Seq<[u32; 4]>, now: Seq<[u32; 4]>, n: int)
    requires
        0 <= n,
    ensures
        sum_total(prev, now, n) - sum_busy(prev, now, n) == sum_idle(prev, now, n),
    decreases n,
{
    if n > 0 {
        law_machine_idle_is_total_minus_busy(prev, now, n - 1);
        law_only_idle_ticks_are_not_busy(prev[n - 1], now[n - 1]);
    }
}

/// Machine-wide busy and total ticks across matching per-core arrays. Arrays
/// of different lengths, or no cores, give (0, 0): an idle reading.
pub fn overall_active_ticks(prev: &[[u32; 4]], now: &[[u32; 4]]) -> (r: (u64, u64))
    requires
        prev@.len() < 0x4000_0000,
    ensures
        prev@.len() != now@.len() || prev@.len() == 0 ==> r == (0u64, 0u64),
        prev@.len() == now@.len() ==> r.0 == sum_busy(prev@, now@, prev@.len() as int)
            && r.1 == sum_total(prev@, now@, prev@.len() as int),
{
    if prev.len() != now.len() || prev.len() == 0 {
        return (0, 0);
    }
    let n = prev.len();
    let mut busy: u64 = 0;
    let mut total: u64 = 0;
    let mut i: usize = 0;
    while i < n
        invariant
            n == prev@.len(),
            n == now@.len(),
            n < 0x4000_0000,
            i <= n,
            busy == sum_busy(prev@, now@, i as int),
            total == sum_total(prev@, now@, i as int),
        decreases n - i,
    {
        proof {
            lemma_sums_bounded(prev@, now@, i as int + 1);
        }
        let (b, t) = core_active_ticks(&prev[i], &now[i]);
        busy = busy + b;
        total = total + t;
        i = i + 1;
    }
    (busy, total)
}

/// Keeps the previous per-core tick arrays between samples.
pub struct CpuCollector {
    prev: Option<Vec<[u32; 4]>>,
}

impl CpuCollector {
    /// A collector that has seen nothing yet.
    pub fn new() -> (c: Self)
        ensures
            c.baseline() is None,
    {
        CpuCollector { prev: None }
    }

    /// The last recorded reading.
    pub closed spec fn baseline(&self) -> Option<Seq<[u32; 4]>> {
        match self.prev {
            Some(v) => Some(v@),
            None => None,
        }
    }

    /// Records `now` and returns what to measure it against: the previous
    /// reading when it has as many cores, otherwise `now` itself (an idle
    /// first sample).
    pub fn advance(&mut self, now: &Vec<[u32; 4]>) -> (base: Vec<[u32; 4]>)
        ensures
            final(self).baseline() == Some(now@),
            match old(self).baseline() {
                Some(p) if p.len() == now@.len() => base@ == p,
                _ => base@ == now@,
            },
    {
        let copy = copy_ticks(now);
        let prev = self.prev.take();
        self.prev = Some(copy);
        match prev {
            Some(p) if p.len() == now.len() => p,
            _ => copy_ticks(now),
        }
    }
}

/// A fresh vector with the same tick arrays.
fn copy_ticks(v: &Vec<[u32; 4]>) -> (out: Vec<[u32; 4]>)
    ensures
        out@ == v@,
{
    let mut out: Vec<[u32; 4]> = Vec::new();
    let n = v.len();
    let mut i: usize = 0;
    while i < n
        invariant
            n == v@.len(),
            i <= n,
            out@ == v@.subrange(0, i as int),
        decreases n - i,
    {
        out.push(v[i]);
        i = i + 1;
    }
    assert(out@ =~= v@);
    out
}

} // verus!
