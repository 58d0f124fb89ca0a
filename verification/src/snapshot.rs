use vstd::prelude::*;

verus! {

/// CPU core family.
#[derive(Debug, Clone, Copy, PartialEq, Eq, Structural)]
pub enum ClusterKind {
    Efficiency,
    Performance,
    Super,
}

/// Memory pressure as the kernel reports it.
#[derive(Debug, Clone, Copy, PartialEq, Eq, Structural)]
pub enum Pressure {
    Nominal,
    Warn,
    Critical,
}

/// Thermal state as the OS reports it.
#[derive(Debug, Clone, Copy, PartialEq, Eq, Structural)]
pub enum Thermal {
    Nominal,
    Fair,
    Serious,
    Critical,
}

impl Thermal {
    /// True only for the nominal state.
    pub fn is_nominal(self) -> (r: bool)
        ensures
            r == (self == Thermal::Nominal),
    {
        match self {
            Thermal::Nominal => true,
            _ => false,
        }
    }
}

/// Memory totals, all in bytes.
#[derive(Debug, Clone, Copy, PartialEq, Eq, Structural)]
pub struct MemorySnapshot {
    pub used_bytes: u64,
    pub total_bytes: u64,
    pub wired_bytes: u64,
    pub compressed_bytes: u64,
    pub cache_bytes: u64,
    pub swap_used_bytes: u64,
    pub swap_total_bytes: u64,
    pub pressure: Pressure,
}

impl MemorySnapshot {
    /// An all-zero reading with nominal pressure.
    pub fn empty() -> (m: Self)
        ensures
            m.used_bytes == 0 && m.total_bytes == 0 && m.wired_bytes == 0
                && m.compressed_bytes == 0 && m.cache_bytes == 0 && m.swap_used_bytes == 0
                && m.swap_total_bytes == 0 && m.pressure == Pressure::Nominal,
    {
        MemorySnapshot {
            used_bytes: 0,
            total_bytes: 0,
            wired_bytes: 0,
            compressed_bytes: 0,
            cache_bytes: 0,
            swap_used_bytes: 0,
            swap_total_bytes: 0,
            pressure: Pressure::Nominal,
        }
    }
}

impl Default for MemorySnapshot {
    fn default() -> (m: Self)
        ensures
            m.used_bytes == 0 && m.total_bytes == 0 && m.wired_bytes == 0
                && m.compressed_bytes == 0 && m.cache_bytes == 0 && m.swap_used_bytes == 0
                && m.swap_total_bytes == 0 && m.pressure == Pressure::Nominal,
    {
        MemorySnapshot::empty()
    }
}

/// Busiest network interface and its rates in bits per second.
#[derive(Debug, PartialEq, Eq)]
pub struct NetworkSnapshot {
    pub iface: String,
    pub rx_bps: u64,
    pub tx_bps: u64,
}

impl NetworkSnapshot {
    /// No interface, no traffic.
    pub fn empty() -> (n: Self)
        ensures
            n.iface@.len() == 0 && n.rx_bps == 0 && n.tx_bps == 0,
    {
        NetworkSnapshot { iface: String::new(), rx_bps: 0, tx_bps: 0 }
    }
}

/// One mounted volume.
#[derive(Debug, PartialEq, Eq)]
pub struct DiskVolume {
    pub name: String,
    pub mount: String,
    pub used_bytes: u64,
    pub total_bytes: u64,
}

impl DiskVolume {
    /// A field-by-field copy.
    pub fn duplicate(&self) -> (v: Self)
        ensures
            v == *self,
    {
        DiskVolume {
            name: self.name.clone(),
            mount: self.mount.clone(),
            used_bytes: self.used_bytes,
            total_bytes: self.total_bytes,
        }
    }
}

/// Mounted volumes plus aggregate disk throughput in bytes per second.
#[derive(Debug, PartialEq, Eq)]
pub struct DiskSnapshot {
    pub volumes: Vec<DiskVolume>,
    pub read_bps: u64,
    pub write_bps: u64,
}

impl DiskSnapshot {
    /// The volume shown as "the disk": the first one mounted at `/`, else the
    /// first one listed.
    pub fn primary(&self) -> (r: Option<&DiskVolume>)
        ensures
            self.volumes@.len() == 0 ==> r is None,
            (exists|i: int| 0 <= i < self.volumes@.len() && self.volumes@[i].mount@ == "/"@)
                ==> exists|i: int| 0 <= i < self.volumes@.len()
                    && self.volumes@[i].mount@ == "/"@
                    && (forall|j: int| 0 <= j < i ==> self.volumes@[j].mount@ != "/"@)
                    && r == Some(&self.volumes@[i]),
            self.volumes@.len() > 0
                && !(exists|i: int| 0 <= i < self.volumes@.len() && self.volumes@[i].mount@ == "/"@)
                ==> r == Some(&self.volumes@[0]),
    {
        let n = self.volumes.len();
        let mut i: usize = 0;
        while i < n
            invariant
                n == self.volumes@.len(),
                i <= n,
                forall|j: int| 0 <= j < i ==> self.volumes@[j].mount@ != "/"@,
            decreases n - i,
        {
            if crate::text::str_eq(self.volumes[i].mount.as_str(), "/") {
                return Some(&self.volumes[i]);
            }
            i = i + 1;
        }
        if n == 0 {
            None
        } else {
            Some(&self.volumes[0])
        }
    }
}

/// One fan: current and maximum speed in RPM.
#[derive(Debug, PartialEq, Eq)]
pub struct FanMetric {
    pub name: String,
    pub rpm: u16,
    pub max_rpm: u16,
}

/// All fans the machine reports.
#[derive(Debug, PartialEq, Eq)]
pub struct FanSnapshot {
    pub fans: Vec<FanMetric>,
}

impl FanSnapshot {
    /// No fans.
    pub fn empty() -> (f: Self)
        ensures
            f.fans@.len() == 0,
    {
        FanSnapshot { fans: Vec::new() }
    }

    /// Some fan reports a nonzero speed or a nonzero maximum.
    pub fn is_present(&self) -> (r: bool)
        ensures
            r == exists|i: int| 0 <= i < self.fans@.len()
                && (self.fans@[i].rpm > 0 || self.fans@[i].max_rpm > 0),
    {
        let n = self.fans.len();
        let mut i: usize = 0;
        while i < n
            invariant
                n == self.fans@.len(),
                i <= n,
                forall|j: int| 0 <= j < i ==> self.fans@[j].rpm == 0 && self.fans@[j].max_rpm == 0,
            decreases n - i,
        {
            if self.fans[i].rpm > 0 || self.fans[i].max_rpm > 0 {
                return true;
            }
            i = i + 1;
        }
        false
    }
}

/// Static description of the chip.
#[derive(Debug, PartialEq, Eq)]
pub struct SocInfo {
    pub name: String,
    pub e_cores: u8,
    pub p_cores: u8,
    pub s_cores: u8,
    pub gpu_cores: u8,
    pub memory_bytes: u64,
}

impl Default for SocInfo {
    fn default() -> (s: Self)
        ensures
            s.name@ == "unknown"@,
            s.e_cores == 0 && s.p_cores == 0 && s.s_cores == 0 && s.gpu_cores == 0,
            s.memory_bytes == 0,
    {
        SocInfo {
            name: String::from_str("unknown"),
            e_cores: 0,
            p_cores: 0,
            s_cores: 0,
            gpu_cores: 0,
            memory_bytes: 0,
        }
    }
}

/// Family and place of core `i` among `e` efficiency, `p` performance and
/// `s` super cores, numbered in that order; cores past the counted ones
/// join the last family that has members, performance when there are no
/// super cores.
pub open spec fn role_spec(e: nat, p: nat, s: nat, i: nat) -> (ClusterKind, nat) {
    if i < e {
        (ClusterKind::Efficiency, i)
    } else if i < e + p || s == 0 {
        (ClusterKind::Performance, (i - e) as nat)
    } else {
        (ClusterKind::Super, (i - e - p) as nat)
    }
}

/// A place that fits a core's `u16` index, saturating.
pub open spec fn index_u16(x: nat) -> u16 {
    if x > u16::MAX { u16::MAX } else { x as u16 }
}

impl SocInfo {
    /// The family of core `i` of `n` and its place among the cores of that
    /// family. `None` when `i` is not below `n`, or when no core counts are
    /// known.
    pub fn role_for(&self, i: usize, n: usize) -> (r: Option<(ClusterKind, u16)>)
        ensures
            r == (if i >= n || self.e_cores + self.p_cores + self.s_cores == 0 {
                None
            } else {
                let role = role_spec(self.e_cores as nat, self.p_cores as nat, self.s_cores as nat, i as nat);
                Some((role.0, index_u16(role.1)))
            }),
    {
        let e = self.e_cores as usize;
        let p = self.p_cores as usize;
        let s = self.s_cores as usize;
        if i >= n || e + p + s == 0 {
            return None;
        }
        let (kind, x) = if i < e {
            (ClusterKind::Efficiency, i)
        } else if i < e + p || s == 0 {
            (ClusterKind::Performance, i - e)
        } else {
            (ClusterKind::Super, i - e - p)
        };
        let index: u16 = if x > 65535 { 65535 } else { x as u16 };
        Some((kind, index))
    }
}

} // verus!
