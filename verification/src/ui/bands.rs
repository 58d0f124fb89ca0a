//! The cells each expanded box asks the packer for, band by band. Values
//! that are measured in whole units are formatted here; temperatures and
//! loads arrive already formatted, with whether their graph has anything to
//! draw.
use vstd::prelude::*;
use crate::format::{bits_per_sec, bits_per_sec_spec, bytes_per_sec, bytes_per_sec_spec, bytes_short, bytes_short_spec};
use crate::snapshot::{DiskSnapshot, FanMetric, FanSnapshot, MemorySnapshot, NetworkSnapshot};
use crate::text::{decimal, push_decimal, push_str, str_eq};
use crate::ui::expanded::{
    cluster_spec, graph_spec, usage_spec, ID_CPU, ID_DISK_READ, ID_DISK_WRITE, ID_EFF_LOAD, ID_EFF_ZONE, ID_FAN0,
    ID_GPU_TEMP, ID_GPU_UTIL, ID_MEM, ID_NET_DOWN, ID_NET_UP, ID_PACKAGE, ID_PERF_LOAD, ID_PERF_ZONE, ID_READINGS,
    ID_SUPER_LOAD, ID_SUPER_ZONE, ID_VOLUMES,
};
use crate::ui::grid::{Band, CellKind, CellSpec, CellTitle};
use crate::ui::layout::Panel;

verus! {

/// Id of the wired-memory part.
pub const ID_MEM_WIRED: u8 = 33;
/// Id of the compressed-memory part.
pub const ID_MEM_COMPRESSED: u8 = 34;
/// Id of the app-memory part.
pub const ID_MEM_APP: u8 = 35;

/// A temperature graph: its title value, and whether there is a reading or
/// a history to draw.
#[derive(Debug, Clone, PartialEq, Eq)]
pub struct Gauge {
    pub value: Option<String>,
    pub live: bool,
}

/// What the expanded cpu box shows: which clusters exist, the formatted
/// loads, and the temperature graphs.
#[derive(Debug, Clone, PartialEq, Eq)]
pub struct CpuCells {
    pub has_super: bool,
    pub has_perf: bool,
    pub has_eff: bool,
    pub total_load: String,
    pub super_load: String,
    pub perf_load: String,
    pub eff_load: String,
    pub super_zone: Gauge,
    pub perf_zone: Gauge,
    pub eff_zone: Gauge,
    pub package: Gauge,
}

/// What the expanded gpu box shows.
#[derive(Debug, Clone, PartialEq, Eq)]
pub struct GpuCells {
    pub present: bool,
    pub util: String,
    pub temp: Gauge,
}

/// What the expanded sensors box shows besides the fans.
#[derive(Debug, Clone, PartialEq, Eq)]
pub struct SensCells {
    pub super_zone: Gauge,
    pub perf_zone: Gauge,
    pub eff_zone: Gauge,
    pub package: Gauge,
    pub gpu_temp: Gauge,
    pub readings: bool,
}

/// The characters of an optional string.
pub open spec fn opt_view(v: Option<String>) -> Option<Seq<char>> {
    match v {
        Some(s) => Some(s@),
        None => None,
    }
}

/// `c` is a weight-one cell with no jump and the given contents.
pub open spec fn cell_is(
    c: CellSpec,
    id: u8,
    kind: CellKind,
    label: Seq<char>,
    value: Option<Seq<char>>,
    min: (u16, u16),
    present: bool,
) -> bool {
    &&& c.id == id
    &&& c.kind == kind
    &&& c.title.label@ == label
    &&& opt_view(c.title.value) == value
    &&& c.title.hop is None
    &&& c.min == min
    &&& c.weight == 1
    &&& c.present == present
}

/// `b` has the given minimum height, neither a cap nor a growth target, and
/// `n` cells.
pub open spec fn band_is(b: Band, min_height: u16, take_leftover: bool, n: nat) -> bool {
    &&& b.min_height == min_height
    &&& b.max_height is None
    &&& b.grow_to is None
    &&& b.take_leftover == take_leftover
    &&& b.cells@.len() == n
}

/// A temperature graph cell for `g`.
pub open spec fn gauge_cell(c: CellSpec, id: u8, label: Seq<char>, g: Gauge) -> bool {
    cell_is(c, id, CellKind::Graph, label, opt_view(g.value), (16u16, 5u16), g.live)
}

/// Some zone graph of the cpu has something to draw.
pub open spec fn any_zone_live(c: CpuCells) -> bool {
    c.super_zone.live || c.perf_zone.live || c.eff_zone.live
}

/// The expanded cpu box: a row of loads (the total only when no cluster is
/// known) over a row of temperatures (the package only when no zone is
/// live); both rows share spare height.
pub open spec fn cpu_bands_are(r: Seq<Band>, c: CpuCells) -> bool {
    let fallback = !c.has_super && !c.has_perf && !c.has_eff;
    &&& r.len() == 2
    &&& band_is(r[0], 4, true, 4)
    &&& cell_is(r[0].cells@[0], ID_CPU, CellKind::Graph, "cpu"@, Some(c.total_load@), (16u16, 4u16), fallback)
    &&& cell_is(r[0].cells@[1], ID_SUPER_LOAD, CellKind::Graph, "super"@, Some(c.super_load@), (16u16, 4u16), c.has_super)
    &&& cell_is(r[0].cells@[2], ID_PERF_LOAD, CellKind::Graph, "performance"@, Some(c.perf_load@), (16u16, 4u16), c.has_perf)
    &&& cell_is(r[0].cells@[3], ID_EFF_LOAD, CellKind::Graph, "efficiency"@, Some(c.eff_load@), (16u16, 4u16), c.has_eff)
    &&& band_is(r[1], 5, true, 4)
    &&& gauge_cell(r[1].cells@[0], ID_SUPER_ZONE, "super zone"@, c.super_zone)
    &&& gauge_cell(r[1].cells@[1], ID_PERF_ZONE, "perf zone"@, c.perf_zone)
    &&& gauge_cell(r[1].cells@[2], ID_EFF_ZONE, "eff zone"@, c.eff_zone)
    &&& cell_is(r[1].cells@[3], ID_PACKAGE, CellKind::Graph, "package"@, opt_view(c.package.value), (16u16, 5u16),
        !any_zone_live(c) && c.package.live)
}

fn gauge_graph(id: u8, label: &'static str, g: Gauge) -> (c: CellSpec)
    ensures
        gauge_cell(c, id, label@, g),
{
    graph_spec(id, label, g.value, g.live)
}

fn leftover_band(min_height: u16, cells: Vec<CellSpec>) -> (b: Band)
    ensures
        band_is(b, min_height, true, cells@.len()),
        b.cells@ == cells@,
{
    let mut b = Band::new(min_height, cells);
    b.take_leftover = true;
    b
}

/// The bands of the expanded cpu box.
pub fn cpu_bands(c: CpuCells) -> (r: Vec<Band>)
    ensures
        cpu_bands_are(r@, c),
{
    let fallback = !c.has_super && !c.has_perf && !c.has_eff;
    let zone_live = c.super_zone.live || c.perf_zone.live || c.eff_zone.live;
    let package_live = !zone_live && c.package.live;
    let mut loads: Vec<CellSpec> = Vec::new();
    loads.push(usage_spec(ID_CPU, "cpu", Some(c.total_load), fallback));
    loads.push(usage_spec(ID_SUPER_LOAD, "super", Some(c.super_load), c.has_super));
    loads.push(usage_spec(ID_PERF_LOAD, "performance", Some(c.perf_load), c.has_perf));
    loads.push(usage_spec(ID_EFF_LOAD, "efficiency", Some(c.eff_load), c.has_eff));
    let mut temps: Vec<CellSpec> = Vec::new();
    temps.push(gauge_graph(ID_SUPER_ZONE, "super zone", c.super_zone));
    temps.push(gauge_graph(ID_PERF_ZONE, "perf zone", c.perf_zone));
    temps.push(gauge_graph(ID_EFF_ZONE, "eff zone", c.eff_zone));
    temps.push(graph_spec(ID_PACKAGE, "package", c.package.value, package_live));
    let mut r: Vec<Band> = Vec::new();
    r.push(leftover_band(4, loads));
    r.push(leftover_band(5, temps));
    r
}

/// The expanded gpu box: utilization over temperature, sharing spare
/// height; nothing without a gpu.
pub open spec fn gpu_bands_are(r: Seq<Band>, g: GpuCells) -> bool {
    if !g.present {
        r.len() == 0
    } else {
        &&& r.len() == 2
        &&& band_is(r[0], 5, true, 1)
        &&& cell_is(r[0].cells@[0], ID_GPU_UTIL, CellKind::Graph, "gpu"@, Some(g.util@), (16u16, 5u16), true)
        &&& band_is(r[1], 5, true, 1)
        &&& gauge_cell(r[1].cells@[0], ID_GPU_TEMP, "gpu temp"@, g.temp)
    }
}

/// The bands of the expanded gpu box.
pub fn gpu_bands(g: GpuCells) -> (r: Vec<Band>)
    ensures
        gpu_bands_are(r@, g),
{
    let mut r: Vec<Band> = Vec::new();
    if !g.present {
        return r;
    }
    let mut util: Vec<CellSpec> = Vec::new();
    util.push(graph_spec(ID_GPU_UTIL, "gpu", Some(g.util), true));
    let mut temp: Vec<CellSpec> = Vec::new();
    temp.push(gauge_graph(ID_GPU_TEMP, "gpu temp", g.temp));
    r.push(leftover_band(5, util));
    r.push(leftover_band(5, temp));
    r
}

/// Positions, among the first four fans, of those that report anything.
pub open spec fn fan_slots(fans: Seq<FanMetric>, n: int) -> Seq<int>
    decreases n,
{
    if n <= 0 {
        seq![]
    } else {
        let prev = fan_slots(fans, n - 1);
        if fans[n - 1].rpm == 0 && fans[n - 1].max_rpm == 0 {
            prev
        } else {
            prev.push(n - 1)
        }
    }
}

/// How many fans the sensors box looks at.
pub open spec fn fan_window(fans: Seq<FanMetric>) -> int {
    if fans.len() < 4 { fans.len() as int } else { 4 }
}

/// The title of the fan at position `i`.
pub open spec fn fan_label(i: int) -> Seq<char> {
    if i == 0 {
        "Fan 1"@
    } else if i == 1 {
        "Fan 2"@
    } else if i == 2 {
        "Fan 3"@
    } else {
        "Fan 4"@
    }
}

/// A fan's speed as its title shows it.
pub open spec fn rpm_text(rpm: u16) -> Seq<char> {
    decimal(rpm as nat) + " rpm"@
}

proof fn lemma_fan_slots_bounded(fans: Seq<FanMetric>, n: int)
    ensures
        fan_slots(fans, n).len() <= (if n < 0 { 0 } else { n }),
        forall|k: int| 0 <= k < fan_slots(fans, n).len() ==> 0 <= #[trigger] fan_slots(fans, n)[k] < n,
    decreases n,
{
    if n > 0 {
        lemma_fan_slots_bounded(fans, n - 1);
    }
}

/// The fan cells, in order.
pub open spec fn fan_cells_are(cells: Seq<CellSpec>, fans: Seq<FanMetric>) -> bool {
    let slots = fan_slots(fans, fan_window(fans));
    &&& cells.len() == slots.len()
    &&& forall|k: int|
        #![trigger cells[k]]
        0 <= k < cells.len() ==> cell_is(
            cells[k],
            (ID_FAN0 + slots[k]) as u8,
            CellKind::Graph,
            fan_label(slots[k]),
            Some(rpm_text(fans[slots[k]].rpm)),
            (16u16, 5u16),
            true,
        )
}

/// The expanded sensors box: temperatures, then fans (both sharing spare
/// height), then a short list of other readings.
pub open spec fn sens_bands_are(r: Seq<Band>, s: SensCells, fans: Seq<FanMetric>) -> bool {
    &&& r.len() == 3
    &&& band_is(r[0], 5, true, 5)
    &&& gauge_cell(r[0].cells@[0], ID_SUPER_ZONE, "super zone"@, s.super_zone)
    &&& gauge_cell(r[0].cells@[1], ID_PERF_ZONE, "perf zone"@, s.perf_zone)
    &&& gauge_cell(r[0].cells@[2], ID_EFF_ZONE, "eff zone"@, s.eff_zone)
    &&& gauge_cell(r[0].cells@[3], ID_PACKAGE, "package"@, s.package)
    &&& gauge_cell(r[0].cells@[4], ID_GPU_TEMP, "gpu temp"@, s.gpu_temp)
    &&& band_is(r[1], 5, true, r[1].cells@.len())
    &&& fan_cells_are(r[1].cells@, fans)
    &&& band_is(r[2], 3, false, 1)
    &&& cell_is(r[2].cells@[0], ID_READINGS, CellKind::List, "readings"@, None, (16u16, 3u16), s.readings)
}

fn fan_title(i: usize) -> (l: &'static str)
    ensures
        l@ == fan_label(i as int),
{
    if i == 0 {
        "Fan 1"
    } else if i == 1 {
        "Fan 2"
    } else if i == 2 {
        "Fan 3"
    } else {
        "Fan 4"
    }
}

fn fan_cells(fans: &FanSnapshot) -> (cells: Vec<CellSpec>)
    ensures
        fan_cells_are(cells@, fans.fans@),
{
    let n: usize = if fans.fans.len() < 4 { fans.fans.len() } else { 4 };
    let ghost all = fans.fans@;
    let mut cells: Vec<CellSpec> = Vec::new();
    let mut i: usize = 0;
    while i < n
        invariant
            n == fan_window(all),
            all == fans.fans@,
            i <= n <= 4,
            n <= all.len(),
            cells@.len() == fan_slots(all, i as int).len(),
            forall|k: int|
                #![trigger cells@[k]]
                0 <= k < cells@.len() ==> cell_is(
                    cells@[k],
                    (ID_FAN0 + fan_slots(all, i as int)[k]) as u8,
                    CellKind::Graph,
                    fan_label(fan_slots(all, i as int)[k]),
                    Some(rpm_text(all[fan_slots(all, i as int)[k]].rpm)),
                    (16u16, 5u16),
                    true,
                ),
        decreases n - i,
    {
        let fan = &fans.fans[i];
        proof {
            lemma_fan_slots_bounded(all, i as int);
        }
        if !(fan.rpm == 0 && fan.max_rpm == 0) {
            let mut value = String::new();
            push_decimal(&mut value, fan.rpm as u128);
            push_str(&mut value, " rpm");
            assert(value@ =~= rpm_text(fan.rpm));
            let id: u8 = ID_FAN0 + i as u8;
            let cell = CellSpec {
                id,
                kind: CellKind::Graph,
                title: CellTitle { label: fan_title(i), value: Some(value), hop: None },
                min: (16, 5),
                weight: 1,
                present: true,
            };
            cells.push(cell);
        }
        i = i + 1;
    }
    cells
}

/// The bands of the expanded sensors box.
pub fn sens_bands(s: SensCells, fans: &FanSnapshot) -> (r: Vec<Band>)
    ensures
        sens_bands_are(r@, s, fans.fans@),
{
    let readings = s.readings;
    let mut temps: Vec<CellSpec> = Vec::new();
    temps.push(gauge_graph(ID_SUPER_ZONE, "super zone", s.super_zone));
    temps.push(gauge_graph(ID_PERF_ZONE, "perf zone", s.perf_zone));
    temps.push(gauge_graph(ID_EFF_ZONE, "eff zone", s.eff_zone));
    temps.push(gauge_graph(ID_PACKAGE, "package", s.package));
    temps.push(gauge_graph(ID_GPU_TEMP, "gpu temp", s.gpu_temp));
    let fan_row = fan_cells(fans);
    let mut list: Vec<CellSpec> = Vec::new();
    list.push(CellSpec {
        id: ID_READINGS,
        kind: CellKind::List,
        title: CellTitle { label: "readings", value: None, hop: None },
        min: (16, 3),
        weight: 1,
        present: readings,
    });
    let mut r: Vec<Band> = Vec::new();
    r.push(leftover_band(5, temps));
    r.push(leftover_band(5, fan_row));
    r.push(Band::new(3, list));
    r
}

/// Names of readings that the sensors box already draws as graphs.
pub open spec fn is_extra_reading_spec(name: Seq<char>) -> bool {
    name != "cpu"@ && name != "gpu"@ && name != "efficiency"@ && name != "performance"@ && name != "super"@
}

/// A reading belongs in the list of other readings unless its graph is
/// already drawn.
pub fn is_extra_reading(name: &str) -> (r: bool)
    ensures
        r == is_extra_reading_spec(name@),
{
    !(str_eq(name, "cpu") || str_eq(name, "gpu") || str_eq(name, "efficiency") || str_eq(name, "performance")
        || str_eq(name, "super"))
}

/// Memory the apps hold: used minus wired minus compressed, floored at zero.
pub open spec fn app_bytes(m: MemorySnapshot) -> nat {
    let a = if m.used_bytes >= m.wired_bytes { m.used_bytes - m.wired_bytes } else { 0 };
    if a >= m.compressed_bytes { (a - m.compressed_bytes) as nat } else { 0 }
}

/// The parts of memory that are nonzero, as (id, bytes), in the order
/// wired, compressed, app.
pub open spec fn mem_parts(m: MemorySnapshot) -> Seq<(u8, nat)> {
    let w: Seq<(u8, nat)> = if m.wired_bytes > 0 { seq![(ID_MEM_WIRED, m.wired_bytes as nat)] } else { seq![] };
    let c: Seq<(u8, nat)> = if m.compressed_bytes > 0 {
        seq![(ID_MEM_COMPRESSED, m.compressed_bytes as nat)]
    } else {
        seq![]
    };
    let a: Seq<(u8, nat)> = if app_bytes(m) > 0 { seq![(ID_MEM_APP, app_bytes(m))] } else { seq![] };
    w + c + a
}

/// The title of a memory part.
pub open spec fn mem_part_label(id: u8) -> Seq<char> {
    if id == ID_MEM_WIRED {
        "wired"@
    } else if id == ID_MEM_COMPRESSED {
        "compressed"@
    } else {
        "app"@
    }
}

/// The expanded memory box: a graph titled `used / total` that takes spare
/// height, over one cell per nonzero part.
pub open spec fn mem_bands_are(r: Seq<Band>, m: MemorySnapshot) -> bool {
    let parts = mem_parts(m);
    &&& r.len() == 2
    &&& band_is(r[0], 5, true, 1)
    &&& cell_is(r[0].cells@[0], ID_MEM, CellKind::Graph, "memory"@,
        Some(bytes_short_spec(m.used_bytes as nat) + " / "@ + bytes_short_spec(m.total_bytes as nat)),
        (16u16, 5u16), true)
    &&& band_is(r[1], 5, false, parts.len())
    &&& forall|k: int|
        #![trigger r[1].cells@[k]]
        0 <= k < parts.len() ==> cell_is(r[1].cells@[k], parts[k].0, CellKind::Cluster, mem_part_label(parts[k].0),
            Some(bytes_short_spec(parts[k].1)), (14u16, 5u16), true)
}

/// The bands of the expanded memory box.
pub fn mem_bands(m: &MemorySnapshot) -> (r: Vec<Band>)
    ensures
        mem_bands_are(r@, *m),
{
    let app: u64 = m.used_bytes.saturating_sub(m.wired_bytes).saturating_sub(m.compressed_bytes);
    assert(app == app_bytes(*m));
    let mut parts: Vec<CellSpec> = Vec::new();
    if m.wired_bytes > 0 {
        parts.push(cluster_spec(ID_MEM_WIRED, "wired", Some(bytes_short(m.wired_bytes)), true));
    }
    if m.compressed_bytes > 0 {
        parts.push(cluster_spec(ID_MEM_COMPRESSED, "compressed", Some(bytes_short(m.compressed_bytes)), true));
    }
    if app > 0 {
        parts.push(cluster_spec(ID_MEM_APP, "app", Some(bytes_short(app)), true));
    }
    let mut title = bytes_short(m.used_bytes);
    push_str(&mut title, " / ");
    let total = bytes_short(m.total_bytes);
    push_str(&mut title, total.as_str());
    let mut graph: Vec<CellSpec> = Vec::new();
    graph.push(graph_spec(ID_MEM, "memory", Some(title), true));
    let mut r: Vec<Band> = Vec::new();
    r.push(leftover_band(5, graph));
    r.push(Band::new(5, parts));
    assert(r@[1].cells@.len() == mem_parts(*m).len());
    r
}

/// The expanded network box: download and upload rates side by side.
pub open spec fn net_bands_are(r: Seq<Band>, n: NetworkSnapshot) -> bool {
    &&& r.len() == 1
    &&& band_is(r[0], 5, true, 2)
    &&& cell_is(r[0].cells@[0], ID_NET_DOWN, CellKind::Graph, "down"@, Some(bits_per_sec_spec(n.rx_bps as nat)),
        (16u16, 5u16), true)
    &&& cell_is(r[0].cells@[1], ID_NET_UP, CellKind::Graph, "up"@, Some(bits_per_sec_spec(n.tx_bps as nat)),
        (16u16, 5u16), true)
}

/// The bands of the expanded network box.
pub fn net_bands(n: &NetworkSnapshot) -> (r: Vec<Band>)
    ensures
        net_bands_are(r@, *n),
{
    let mut cells: Vec<CellSpec> = Vec::new();
    cells.push(graph_spec(ID_NET_DOWN, "down", Some(bits_per_sec(n.rx_bps)), true));
    cells.push(graph_spec(ID_NET_UP, "up", Some(bits_per_sec(n.tx_bps)), true));
    let mut r: Vec<Band> = Vec::new();
    r.push(leftover_band(5, cells));
    r
}

/// The expanded disk box: read and write rates, over the volume list when
/// there are volumes.
pub open spec fn disk_bands_are(r: Seq<Band>, d: DiskSnapshot) -> bool {
    &&& r.len() == 2
    &&& band_is(r[0], 5, true, 2)
    &&& cell_is(r[0].cells@[0], ID_DISK_READ, CellKind::Graph, "read"@, Some(bytes_per_sec_spec(d.read_bps as nat)),
        (16u16, 5u16), true)
    &&& cell_is(r[0].cells@[1], ID_DISK_WRITE, CellKind::Graph, "write"@, Some(bytes_per_sec_spec(d.write_bps as nat)),
        (16u16, 5u16), true)
    &&& band_is(r[1], 4, false, 1)
    &&& cell_is(r[1].cells@[0], ID_VOLUMES, CellKind::List, "volumes"@, None, (16u16, 4u16), d.volumes@.len() > 0)
}

/// The bands of the expanded disk box.
pub fn disk_bands(d: &DiskSnapshot) -> (r: Vec<Band>)
    ensures
        disk_bands_are(r@, *d),
{
    let mut rates: Vec<CellSpec> = Vec::new();
    rates.push(graph_spec(ID_DISK_READ, "read", Some(bytes_per_sec(d.read_bps)), true));
    rates.push(graph_spec(ID_DISK_WRITE, "write", Some(bytes_per_sec(d.write_bps)), true));
    let mut list: Vec<CellSpec> = Vec::new();
    list.push(CellSpec {
        id: ID_VOLUMES,
        kind: CellKind::List,
        title: CellTitle { label: "volumes", value: None, hop: None },
        min: (16, 4),
        weight: 1,
        present: d.volumes.len() > 0,
    });
    let mut r: Vec<Band> = Vec::new();
    r.push(leftover_band(5, rates));
    r.push(Band::new(4, list));
    r
}

/// Everything the expanded boxes are built from.
pub struct PaneCells {
    pub cpu: CpuCells,
    pub gpu: GpuCells,
    pub sens: SensCells,
}

/// The bands of the expanded view of `panel`; the process table has none.
pub open spec fn bands_for_are(
    r: Seq<Band>,
    panel: Panel,
    cells: PaneCells,
    fans: FanSnapshot,
    mem: MemorySnapshot,
    net: NetworkSnapshot,
    disk: DiskSnapshot,
) -> bool {
    match panel {
        Panel::Cpu => cpu_bands_are(r, cells.cpu),
        Panel::Gpu => gpu_bands_are(r, cells.gpu),
        Panel::Fans => sens_bands_are(r, cells.sens, fans.fans@),
        Panel::Mem => mem_bands_are(r, mem),
        Panel::Net => net_bands_are(r, net),
        Panel::Disk => disk_bands_are(r, disk),
        Panel::Processes => r.len() == 0,
    }
}

/// The bands of the expanded view of `panel`.
pub fn bands_for(
    panel: Panel,
    cells: PaneCells,
    fans: &FanSnapshot,
    mem: &MemorySnapshot,
    net: &NetworkSnapshot,
    disk: &DiskSnapshot,
) -> (r: Vec<Band>)
    ensures
        bands_for_are(r@, panel, cells, *fans, *mem, *net, *disk),
{
    match panel {
        Panel::Cpu => cpu_bands(cells.cpu),
        Panel::Gpu => gpu_bands(cells.gpu),
        Panel::Fans => sens_bands(cells.sens, fans),
        Panel::Mem => mem_bands(mem),
        Panel::Net => net_bands(net),
        Panel::Disk => disk_bands(disk),
        Panel::Processes => Vec::new(),
    }
}

} // verus!
