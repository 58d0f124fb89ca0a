//! The expanded view of one box: its graphs, and a strip (at the bottom, or
//! a column on the left when the pane is wide) with jumps to related boxes,
//! the per-core mosaic, identity lines or the volume list.
use vstd::prelude::*;
use crate::snapshot::{ClusterKind, FanSnapshot};
use crate::ui::grid::{greedy_pack_trials, lemma_greedy_pack_trials, pack, pack_spec, pack_trials_ok, bands_fit_u16, Band, CellKind, CellSpec, CellTitle, find_hop};
use crate::ui::layout::{contains, fills, greedy_split, has_fill, lemma_fills_total, lemma_greedy_split, tiled, lo, extent, rect_contains, sat_add16, sat_sub16, split, split_fits, Fit, Panel, Rect};

verus! {

pub const ID_CPU: u8 = 0;
pub const ID_SUPER_LOAD: u8 = 1;
pub const ID_PERF_LOAD: u8 = 2;
pub const ID_EFF_LOAD: u8 = 3;
pub const ID_GPU_UTIL: u8 = 4;
pub const ID_SUPER_ZONE: u8 = 10;
pub const ID_PERF_ZONE: u8 = 11;
pub const ID_EFF_ZONE: u8 = 12;
pub const ID_PACKAGE: u8 = 13;
pub const ID_GPU_TEMP: u8 = 14;
pub const ID_HOP_CPU: u8 = 20;
pub const ID_HOP_GPU: u8 = 21;
pub const ID_HOP_SENS: u8 = 22;
pub const ID_HOP_FAN: u8 = 23;
pub const ID_HOP_PROC: u8 = 24;
pub const ID_HOP_DISK: u8 = 25;
pub const ID_HOP_NET: u8 = 26;
pub const ID_FAN0: u8 = 40;
pub const ID_READINGS: u8 = 50;
pub const ID_MEM: u8 = 60;
pub const ID_NET_DOWN: u8 = 70;
pub const ID_NET_UP: u8 = 71;
pub const ID_DISK_READ: u8 = 80;
pub const ID_DISK_WRITE: u8 = 81;
pub const ID_VOLUMES: u8 = 82;

/// Pane width from which the strip becomes a left column.
pub const META_COL_MIN_WIDTH: u16 = 100;
/// Width of the left column.
pub const META_COL_WIDTH: u16 = 26;
/// Gap between the left column and the graphs.
pub const META_COL_GAP: u16 = 1;

/// How jumps to related boxes are drawn.
#[derive(Debug, Clone, Copy, PartialEq, Eq, Structural)]
pub enum HopStyle {
    Absent,
    Spark,
    LabelOnly,
}

/// What the strip of an expanded box would like to show.
#[derive(Debug, Clone, Copy, PartialEq, Eq, Structural)]
pub struct MetaBudget {
    pub hops: HopStyle,
    pub mosaic: bool,
    pub identity: bool,
    pub extras: bool,
    pub volumes: bool,
}

impl MetaBudget {
    /// Nothing to show.
    pub open spec fn empty_spec(self) -> bool {
        self.hops == HopStyle::Absent && !self.mosaic && !self.identity && !self.extras && !self.volumes
    }

    /// Rows a row of jumps needs: three for sparks, one for labels.
    pub open spec fn hops_h_spec(self) -> u16 {
        match self.hops {
            HopStyle::Spark => 3,
            HopStyle::LabelOnly => 1,
            HopStyle::Absent => 0,
        }
    }

    /// Whether the strip has nothing to show.
    pub fn is_empty(self) -> (r: bool)
        ensures
            r == self.empty_spec(),
    {
        self.hops == HopStyle::Absent && !self.mosaic && !self.identity && !self.extras && !self.volumes
    }

    /// Rows a row of jumps needs.
    pub fn hops_h(self) -> (r: u16)
        ensures
            r == self.hops_h_spec(),
    {
        match self.hops {
            HopStyle::Spark => 3,
            HopStyle::LabelOnly => 1,
            HopStyle::Absent => 0,
        }
    }
}

/// Where the strip goes.
#[derive(Debug, Clone, Copy, PartialEq, Eq, Structural)]
pub enum MetaSide {
    Left,
    Bottom,
}

/// The graphs' area and the strip's.
#[derive(Debug, Clone, Copy, PartialEq, Eq, Structural)]
pub struct MetaPlan {
    pub main: Rect,
    pub meta: Option<Rect>,
    pub side: MetaSide,
}

/// Rows taken by a bottom strip before it is clipped to what the graphs
/// can spare: the mosaic if it fits above the jumps, then sparks, the
/// volume list or a label row.
pub open spec fn bottom_strip_rows(inner: Rect, budget: MetaBudget, panel_mins: u16) -> u16 {
    let hops_h = budget.hops_h_spec();
    let mosaic: u16 = if budget.mosaic && inner.height >= sat_add16(sat_add16(panel_mins, hops_h), 5) {
        5
    } else {
        0
    };
    if budget.hops == HopStyle::Spark && inner.height >= sat_add16(panel_mins, 3) {
        (mosaic + 3) as u16
    } else if budget.volumes && budget.hops == HopStyle::Absent && !budget.mosaic && inner.height
        >= sat_add16(panel_mins, 4) {
        (mosaic + 4) as u16
    } else if budget.hops == HopStyle::LabelOnly && !budget.mosaic && !budget.volumes && inner.height
        >= sat_add16(panel_mins, 1) {
        (mosaic + 1) as u16
    } else {
        mosaic
    }
}

/// Splits the inside of an expanded box between graphs and strip. A wide
/// pane with sparks or a mosaic gets a left column; otherwise the strip
/// takes rows at the bottom, never more than the graphs' minimum leaves.
pub open spec fn split_meta_spec(inner: Rect, budget: MetaBudget, panel_mins: u16) -> MetaPlan {
    let none = MetaPlan { main: inner, meta: None, side: MetaSide::Bottom };
    if inner.width == 0 || inner.height == 0 || budget.empty_spec() {
        none
    } else {
        let hops_h = budget.hops_h_spec();
        let col_w: u16 = (META_COL_WIDTH + META_COL_GAP) as u16;
        if inner.width >= META_COL_MIN_WIDTH && inner.width >= col_w + 16 && (budget.hops
            == HopStyle::Spark || budget.mosaic) && inner.height >= (if hops_h > 1 {
            hops_h
        } else {
            1
        }) {
            MetaPlan {
                main: Rect {
                    x: sat_add16(inner.x, col_w),
                    y: inner.y,
                    width: (inner.width - col_w) as u16,
                    height: inner.height,
                },
                meta: Some(Rect { x: inner.x, y: inner.y, width: META_COL_WIDTH, height: inner.height }),
                side: MetaSide::Left,
            }
        } else {
            let want = bottom_strip_rows(inner, budget, panel_mins);
            let steal = sat_sub16(inner.height, panel_mins);
            let height = if want < steal { want } else { steal };
            if height == 0 {
                none
            } else {
                let main_h = (inner.height - height) as u16;
                MetaPlan {
                    main: Rect { x: inner.x, y: inner.y, width: inner.width, height: main_h },
                    meta: Some(
                        Rect { x: inner.x, y: sat_add16(inner.y, main_h), width: inner.width, height },
                    ),
                    side: MetaSide::Bottom,
                }
            }
        }
    }
}

/// Splits the inside of an expanded box between graphs and strip.
pub fn split_meta(inner: Rect, budget: MetaBudget, panel_mins: u16) -> (p: MetaPlan)
    ensures
        p == split_meta_spec(inner, budget, panel_mins),
{
    if inner.width == 0 || inner.height == 0 || budget.is_empty() {
        return MetaPlan { main: inner, meta: None, side: MetaSide::Bottom };
    }
    let hops_h = budget.hops_h();
    let col_w = META_COL_WIDTH + META_COL_GAP;
    let min_h = if hops_h > 1 { hops_h } else { 1 };
    if inner.width >= META_COL_MIN_WIDTH && inner.width >= col_w + 16 && (budget.hops
        == HopStyle::Spark || budget.mosaic) && inner.height >= min_h {
        return MetaPlan {
            main: Rect {
                x: inner.x.saturating_add(col_w),
                y: inner.y,
                width: inner.width - col_w,
                height: inner.height,
            },
            meta: Some(Rect { x: inner.x, y: inner.y, width: META_COL_WIDTH, height: inner.height }),
            side: MetaSide::Left,
        };
    }
    let mut height: u16 = 0;
    if budget.mosaic && inner.height >= panel_mins.saturating_add(hops_h).saturating_add(5) {
        height = height + 5;
    }
    if budget.hops == HopStyle::Spark && inner.height >= panel_mins.saturating_add(3) {
        height = height + 3;
    } else if budget.volumes && budget.hops == HopStyle::Absent && !budget.mosaic && inner.height
        >= panel_mins.saturating_add(4) {
        height = height + 4;
    } else if budget.hops == HopStyle::LabelOnly && !budget.mosaic && !budget.volumes && inner.height
        >= panel_mins.saturating_add(1) {
        height = height + 1;
    }
    let max_steal = inner.height.saturating_sub(panel_mins);
    if max_steal < height {
        height = max_steal;
    }
    if height == 0 {
        return MetaPlan { main: inner, meta: None, side: MetaSide::Bottom };
    }
    let main_h = inner.height - height;
    MetaPlan {
        main: Rect { x: inner.x, y: inner.y, width: inner.width, height: main_h },
        meta: Some(Rect { x: inner.x, y: inner.y.saturating_add(main_h), width: inner.width, height }),
        side: MetaSide::Bottom,
    }
}

/// The strip never starves the graphs: a bottom strip leaves them their
/// minimum height (or the whole pane, if smaller) and takes exactly the
/// rows below them; a left column leaves them the full height and the
/// width beyond the column and its gap.
pub proof fn law_meta_strip_spares_the_graphs(inner: Rect, budget: MetaBudget, panel_mins: u16)
    ensures
        ({
            let p = split_meta_spec(inner, budget, panel_mins);
            &&& p.main.x == inner.x || p.side == MetaSide::Left
            &&& p.main.y == inner.y
            &&& p.meta is None ==> p.main == inner
            &&& (p.meta is Some && p.side == MetaSide::Bottom) ==> {
                &&& p.main.height >= (if panel_mins < inner.height { panel_mins } else { inner.height })
                &&& p.main.height + p.meta->0.height == inner.height
                &&& p.main.width == inner.width && p.meta->0.width == inner.width
                &&& p.meta->0.x == inner.x
                &&& p.meta->0.y == sat_add16(inner.y, p.main.height)
            }
            &&& p.side == MetaSide::Left ==> {
                &&& p.meta is Some
                &&& p.main.height == inner.height
                &&& p.main.width + META_COL_WIDTH + META_COL_GAP == inner.width
                &&& p.meta->0.width == META_COL_WIDTH
            }
        }),
{
}

/// What the expanded views need to know about the machine and the
/// settings.
#[derive(Debug, Clone, Copy, PartialEq, Eq, Structural)]
pub struct PaneFacts {
    pub show_gpu: bool,
    pub gpu_present: bool,
    pub show_fans: bool,
    pub fans_present: bool,
    pub has_fans: bool,
    pub show_disk: bool,
    pub has_disk: bool,
    pub show_net: bool,
    pub show_cores: bool,
    pub any_cluster: bool,
    pub mem_extras: bool,
    pub volumes_present: bool,
    pub cpu_zone_live: bool,
    pub sens_graph_live: bool,
    pub gpu_temp_live: bool,
}

/// The strip contents each expanded box asks for.
pub open spec fn meta_budget_spec(panel: Panel, f: PaneFacts) -> MetaBudget {
    let none = MetaBudget { hops: HopStyle::Absent, mosaic: false, identity: false, extras: false, volumes: false };
    match panel {
        Panel::Cpu => MetaBudget {
            hops: if (f.show_gpu && f.gpu_present) || (f.show_fans && f.fans_present) {
                HopStyle::Spark
            } else {
                HopStyle::Absent
            },
            mosaic: f.show_cores && f.any_cluster,
            ..none
        },
        Panel::Gpu | Panel::Fans => MetaBudget { hops: HopStyle::Spark, ..none },
        Panel::Mem => MetaBudget { hops: HopStyle::LabelOnly, extras: f.mem_extras, ..none },
        Panel::Net => MetaBudget {
            hops: if f.show_disk && f.has_disk { HopStyle::Spark } else { HopStyle::Absent },
            ..none
        },
        Panel::Disk => MetaBudget {
            hops: if f.show_net { HopStyle::Spark } else { HopStyle::Absent },
            volumes: f.volumes_present,
            ..none
        },
        Panel::Processes => none,
    }
}

/// The strip contents an expanded box asks for.
pub fn meta_budget(panel: Panel, f: PaneFacts) -> (b: MetaBudget)
    ensures
        b == meta_budget_spec(panel, f),
{
    let none = MetaBudget { hops: HopStyle::Absent, mosaic: false, identity: false, extras: false, volumes: false };
    match panel {
        Panel::Cpu => MetaBudget {
            hops: if (f.show_gpu && f.gpu_present) || (f.show_fans && f.fans_present) {
                HopStyle::Spark
            } else {
                HopStyle::Absent
            },
            mosaic: f.show_cores && f.any_cluster,
            ..none
        },
        Panel::Gpu | Panel::Fans => MetaBudget { hops: HopStyle::Spark, ..none },
        Panel::Mem => MetaBudget { hops: HopStyle::LabelOnly, extras: f.mem_extras, ..none },
        Panel::Net => MetaBudget {
            hops: if f.show_disk && f.has_disk { HopStyle::Spark } else { HopStyle::Absent },
            ..none
        },
        Panel::Disk => MetaBudget {
            hops: if f.show_net { HopStyle::Spark } else { HopStyle::Absent },
            volumes: f.volumes_present,
            ..none
        },
        Panel::Processes => none,
    }
}

/// Rows the graphs of an expanded box need before the strip may take any.
pub open spec fn panel_mins_spec(panel: Panel, f: PaneFacts) -> u16 {
    match panel {
        Panel::Cpu => if f.cpu_zone_live { 9 } else { 4 },
        Panel::Gpu => if f.gpu_temp_live { 10 } else { 5 },
        Panel::Fans => ((if f.sens_graph_live { 5u16 } else { 0u16 }) + (if f.fans_present {
            5u16
        } else {
            0u16
        })) as u16,
        Panel::Mem | Panel::Net | Panel::Disk => 5,
        Panel::Processes => 0,
    }
}

/// Rows the graphs of an expanded box need before the strip may take any.
pub fn panel_mins(panel: Panel, f: PaneFacts) -> (n: u16)
    ensures
        n == panel_mins_spec(panel, f),
{
    match panel {
        Panel::Cpu => {
            let mut n: u16 = 4;
            if f.cpu_zone_live {
                n = n + 5;
            }
            n
        },
        Panel::Gpu => {
            let mut n: u16 = 5;
            if f.gpu_temp_live {
                n = n + 5;
            }
            n
        },
        Panel::Fans => {
            let mut n: u16 = 0;
            if f.sens_graph_live {
                n = n + 5;
            }
            if f.fans_present {
                n = n + 5;
            }
            n
        },
        Panel::Mem | Panel::Net | Panel::Disk => 5,
        Panel::Processes => 0,
    }
}

/// The boxes an expanded box offers jumps to, with the cell id of each.
pub open spec fn hop_targets_spec(panel: Panel, f: PaneFacts) -> Seq<(u8, Panel)> {
    match panel {
        Panel::Cpu => {
            let gpu: Seq<(u8, Panel)> = if f.show_gpu && f.gpu_present {
                seq![(ID_HOP_GPU, Panel::Gpu)]
            } else {
                Seq::empty()
            };
            if f.show_fans && f.fans_present { gpu.push((ID_HOP_FAN, Panel::Fans)) } else { gpu }
        },
        Panel::Gpu => {
            let cpu = seq![(ID_HOP_CPU, Panel::Cpu)];
            if f.show_fans && f.has_fans { cpu.push((ID_HOP_SENS, Panel::Fans)) } else { cpu }
        },
        Panel::Fans => {
            let cpu = seq![(ID_HOP_CPU, Panel::Cpu)];
            if f.show_gpu && f.gpu_present { cpu.push((ID_HOP_GPU, Panel::Gpu)) } else { cpu }
        },
        Panel::Net => if f.show_disk && f.has_disk {
            seq![(ID_HOP_DISK, Panel::Disk)]
        } else {
            Seq::empty()
        },
        Panel::Disk => if f.show_net { seq![(ID_HOP_NET, Panel::Net)] } else { Seq::empty() },
        _ => Seq::empty(),
    }
}

/// The boxes an expanded box offers jumps to.
pub fn hop_targets(panel: Panel, f: PaneFacts) -> (r: Vec<(u8, Panel)>)
    ensures
        r@ == hop_targets_spec(panel, f),
{
    let mut hops: Vec<(u8, Panel)> = Vec::new();
    match panel {
        Panel::Cpu => {
            if f.show_gpu && f.gpu_present {
                hops.push((ID_HOP_GPU, Panel::Gpu));
            }
            if f.show_fans && f.fans_present {
                hops.push((ID_HOP_FAN, Panel::Fans));
            }
        },
        Panel::Gpu => {
            hops.push((ID_HOP_CPU, Panel::Cpu));
            if f.show_fans && f.has_fans {
                hops.push((ID_HOP_SENS, Panel::Fans));
            }
        },
        Panel::Fans => {
            hops.push((ID_HOP_CPU, Panel::Cpu));
            if f.show_gpu && f.gpu_present {
                hops.push((ID_HOP_GPU, Panel::Gpu));
            }
        },
        Panel::Net => {
            if f.show_disk && f.has_disk {
                hops.push((ID_HOP_DISK, Panel::Disk));
            }
        },
        Panel::Disk => {
            if f.show_net {
                hops.push((ID_HOP_NET, Panel::Net));
            }
        },
        _ => {},
    }
    assert(hops@ =~= hop_targets_spec(panel, f));
    hops
}

/// A jump never leads back to the box it is shown in.
pub proof fn law_hops_lead_elsewhere(panel: Panel, f: PaneFacts)
    ensures
        forall|i: int|
            #![trigger hop_targets_spec(panel, f)[i]]
            0 <= i < hop_targets_spec(panel, f).len() ==> hop_targets_spec(panel, f)[i].1 != panel,
{
}

/// A load graph cell: at least 16 wide and 4 tall.
pub fn usage_spec(id: u8, label: &'static str, value: Option<String>, present: bool) -> (c: CellSpec)
    ensures
        c.id == id && c.kind == CellKind::Graph && c.title.label@ == label@ && c.title.value == value
            && c.title.hop is None,
        c.min == (16u16, 4u16) && c.weight == 1 && c.present == present,
{
    CellSpec { id, kind: CellKind::Graph, title: CellTitle { label, value, hop: None }, min: (16, 4), weight: 1, present }
}

/// A graph cell: at least 16 wide and 5 tall.
pub fn graph_spec(id: u8, label: &'static str, value: Option<String>, present: bool) -> (c: CellSpec)
    ensures
        c.id == id && c.kind == CellKind::Graph && c.title.label@ == label@ && c.title.value == value
            && c.title.hop is None,
        c.min == (16u16, 5u16) && c.weight == 1 && c.present == present,
{
    CellSpec { id, kind: CellKind::Graph, title: CellTitle { label, value, hop: None }, min: (16, 5), weight: 1, present }
}

/// A cluster cell: at least 14 wide and 5 tall.
pub fn cluster_spec(id: u8, label: &'static str, value: Option<String>, present: bool) -> (c: CellSpec)
    ensures
        c.id == id && c.kind == CellKind::Cluster && c.title.label@ == label@ && c.title.value == value
            && c.title.hop is None,
        c.min == (14u16, 5u16) && c.weight == 1 && c.present == present,
{
    CellSpec { id, kind: CellKind::Cluster, title: CellTitle { label, value, hop: None }, min: (14, 5), weight: 1, present }
}

/// Order of core kinds in the mosaic: super, performance, efficiency.
pub fn core_kind_rank(kind: ClusterKind) -> (r: u8)
    ensures
        r == (match kind {
            ClusterKind::Super => 0u8,
            ClusterKind::Performance => 1u8,
            ClusterKind::Efficiency => 2u8,
        }),
{
    match kind {
        ClusterKind::Super => 0,
        ClusterKind::Performance => 1,
        ClusterKind::Efficiency => 2,
    }
}

/// The letter a core row starts with: `S`, `P` or `E`.
pub fn core_tag(kind: ClusterKind) -> (s: &'static str)
    ensures
        kind == ClusterKind::Super ==> s@ == "S"@,
        kind == ClusterKind::Performance ==> s@ == "P"@,
        kind == ClusterKind::Efficiency ==> s@ == "E"@,
{
    match kind {
        ClusterKind::Super => "S",
        ClusterKind::Performance => "P",
        ClusterKind::Efficiency => "E",
    }
}

/// The title label of cell `id` (empty for an unknown id).
pub open spec fn label_of(id: u8) -> Seq<char> {
    if id == ID_CPU || id == ID_HOP_CPU {
        "cpu"@
    } else if id == ID_GPU_UTIL || id == ID_HOP_GPU {
        "gpu"@
    } else if id == ID_SUPER_LOAD {
        "super"@
    } else if id == ID_PERF_LOAD {
        "performance"@
    } else if id == ID_EFF_LOAD {
        "efficiency"@
    } else if id == ID_SUPER_ZONE {
        "super zone"@
    } else if id == ID_PERF_ZONE {
        "perf zone"@
    } else if id == ID_EFF_ZONE {
        "eff zone"@
    } else if id == ID_PACKAGE {
        "package"@
    } else if id == ID_GPU_TEMP {
        "gpu temp"@
    } else if id == ID_HOP_SENS {
        "sens"@
    } else if id == ID_HOP_FAN {
        "fan"@
    } else if id == ID_HOP_PROC {
        "proc"@
    } else if id == ID_HOP_DISK {
        "disk"@
    } else if id == ID_HOP_NET {
        "net"@
    } else if id == ID_MEM {
        "memory"@
    } else if id == ID_NET_DOWN {
        "down"@
    } else if id == ID_NET_UP {
        "up"@
    } else if id == ID_DISK_READ {
        "read"@
    } else if id == ID_DISK_WRITE {
        "write"@
    } else if id == ID_VOLUMES {
        "volumes"@
    } else if id == ID_READINGS {
        "readings"@
    } else if id == ID_FAN0 {
        "Fan 1"@
    } else if id == ID_FAN0 + 1 {
        "Fan 2"@
    } else if id == ID_FAN0 + 2 {
        "Fan 3"@
    } else if id == ID_FAN0 + 3 {
        "Fan 4"@
    } else if id == 33 {
        "wired"@
    } else if id == 34 {
        "compressed"@
    } else if id == 35 {
        "app"@
    } else {
        ""@
    }
}

/// The title label of cell `id`, and no value.
pub fn label_for(id: u8) -> (r: (&'static str, Option<String>))
    ensures
        r.0@ == label_of(id),
        r.1 is None,
{
    let label: &'static str = if id == ID_CPU || id == ID_HOP_CPU {
        "cpu"
    } else if id == ID_GPU_UTIL || id == ID_HOP_GPU {
        "gpu"
    } else if id == ID_SUPER_LOAD {
        "super"
    } else if id == ID_PERF_LOAD {
        "performance"
    } else if id == ID_EFF_LOAD {
        "efficiency"
    } else if id == ID_SUPER_ZONE {
        "super zone"
    } else if id == ID_PERF_ZONE {
        "perf zone"
    } else if id == ID_EFF_ZONE {
        "eff zone"
    } else if id == ID_PACKAGE {
        "package"
    } else if id == ID_GPU_TEMP {
        "gpu temp"
    } else if id == ID_HOP_SENS {
        "sens"
    } else if id == ID_HOP_FAN {
        "fan"
    } else if id == ID_HOP_PROC {
        "proc"
    } else if id == ID_HOP_DISK {
        "disk"
    } else if id == ID_HOP_NET {
        "net"
    } else if id == ID_MEM {
        "memory"
    } else if id == ID_NET_DOWN {
        "down"
    } else if id == ID_NET_UP {
        "up"
    } else if id == ID_DISK_READ {
        "read"
    } else if id == ID_DISK_WRITE {
        "write"
    } else if id == ID_VOLUMES {
        "volumes"
    } else if id == ID_READINGS {
        "readings"
    } else if id == ID_FAN0 {
        "Fan 1"
    } else if id == ID_FAN0 + 1 {
        "Fan 2"
    } else if id == ID_FAN0 + 2 {
        "Fan 3"
    } else if id == ID_FAN0 + 3 {
        "Fan 4"
    } else if id == 33 {
        "wired"
    } else if id == 34 {
        "compressed"
    } else if id == 35 {
        "app"
    } else {
        ""
    };
    (label, None)
}

/// The loudest fan: the highest speed, the first such fan on a tie; none
/// when no fan is present.
pub fn peak_fan_index(fans: &FanSnapshot) -> (r: Option<usize>)
    ensures
        match r {
            None => !(exists|i: int| 0 <= i < fans.fans@.len() && (fans.fans@[i].rpm > 0 || fans.fans@[i].max_rpm > 0)),
            Some(i) => (exists|k: int| 0 <= k < fans.fans@.len() && (fans.fans@[k].rpm > 0 || fans.fans@[k].max_rpm > 0))
                && i < fans.fans@.len()
                && (forall|j: int| 0 <= j < fans.fans@.len() ==> fans.fans@[j].rpm <= fans.fans@[i as int].rpm)
                && (forall|j: int| 0 <= j < i ==> fans.fans@[j].rpm < fans.fans@[i as int].rpm),
        },
{
    if !fans.is_present() {
        return None;
    }
    let mut best: usize = 0;
    let mut i: usize = 1;
    while i < fans.fans.len()
        invariant
            1 <= i <= fans.fans@.len(),
            best < i,
            forall|j: int| 0 <= j < i ==> fans.fans@[j].rpm <= fans.fans@[best as int].rpm,
            forall|j: int| 0 <= j < best ==> fans.fans@[j].rpm < fans.fans@[best as int].rpm,
        decreases fans.fans@.len() - i,
    {
        if fans.fans[i].rpm > fans.fans[best].rpm {
            best = i;
        }
        i = i + 1;
    }
    Some(best)
}

/// The speed of the loudest fan.
pub fn peak_fan(fans: &FanSnapshot) -> (r: Option<u16>)
    ensures
        r is Some <==> exists|i: int| 0 <= i < fans.fans@.len() && (fans.fans@[i].rpm > 0 || fans.fans@[i].max_rpm > 0),
        r matches Some(v) ==> (exists|i: int| 0 <= i < fans.fans@.len() && fans.fans@[i].rpm == v)
            && (forall|j: int| 0 <= j < fans.fans@.len() ==> fans.fans@[j].rpm <= v),
{
    match peak_fan_index(fans) {
        Some(i) => Some(fans.fans[i].rpm),
        None => None,
    }
}

/// A box's inside: one cell in from each edge.
pub open spec fn inset_spec(area: Rect) -> Rect {
    Rect {
        x: sat_add16(area.x, 1),
        y: sat_add16(area.y, 1),
        width: sat_sub16(area.width, 2),
        height: sat_sub16(area.height, 2),
    }
}

/// A box's inside: one cell in from each edge.
pub fn inset(area: Rect) -> (r: Rect)
    ensures
        r == inset_spec(area),
{
    Rect {
        x: area.x.saturating_add(1),
        y: area.y.saturating_add(1),
        width: area.width.saturating_sub(2),
        height: area.height.saturating_sub(2),
    }
}

/// `a * b` capped at `u16::MAX`.
pub open spec fn sat_mul16(a: u16, b: u16) -> u16 {
    if a * b <= u16::MAX { (a * b) as u16 } else { u16::MAX }
}

/// Where the parts of a left column go.
#[derive(Debug, Clone, PartialEq, Eq)]
pub struct LeftSlots {
    /// Rows of identity lines at the top.
    pub identity: u16,
    /// The jump tiles below them, each at least three rows.
    pub hop_rects: Vec<(u8, Panel, Rect)>,
    /// The core mosaic below the jumps.
    pub cores: Option<Rect>,
}

/// The jump tiles from the `i`-th on, the `i`-th starting at row `y`: the
/// space is shared evenly (the first ones get the remainder), each tile at
/// least three rows, and tiles stop where the column ends.
pub open spec fn hop_column(area: Rect, hops: Seq<(u8, Panel)>, base: u16, extra: u16, i: int, y: u16) -> (
    Seq<(u8, Panel, Rect)>,
    u16,
)
    decreases hops.len() - i,
{
    if i < 0 || i >= hops.len() {
        (Seq::empty(), y)
    } else {
        let h0 = sat_add16(base, if i < extra { 1u16 } else { 0u16 });
        let h1: u16 = if h0 > 3 { h0 } else { 3 };
        let room = sat_sub16(sat_add16(area.y, area.height), y);
        let h: u16 = if h1 < room { h1 } else { room };
        if h < 3 {
            (Seq::empty(), y)
        } else {
            let r = hop_column(area, hops, base, extra, i + 1, sat_add16(y, h));
            (seq![(hops[i].0, hops[i].1, Rect { x: area.x, y, width: area.width, height: h })] + r.0, r.1)
        }
    }
}

/// The left column's layout: identity lines get what the jumps (three rows
/// each) and one row of mosaic leave; the mosaic gets up to a row per core
/// from what the jumps leave; the jumps share the rest.
pub open spec fn left_slots_spec(area: Rect, hops: Seq<(u8, Panel)>, ident_n: u16, cores_want: u16) -> (
    u16,
    Seq<(u8, Panel, Rect)>,
    Option<Rect>,
) {
    let hop_n: u16 = if hops.len() <= u16::MAX { hops.len() as u16 } else { 0 };
    let hop_min = sat_mul16(3, hop_n);
    let cores_min: u16 = if cores_want > 0 { 1 } else { 0 };
    let keep = sat_add16(hop_min, cores_min);
    let room = sat_sub16(area.height, keep);
    let ident: u16 = if ident_n < room { ident_n } else { room };
    let rest = sat_sub16(area.height, ident);
    let spare = sat_sub16(rest, hop_min);
    let cores_h: u16 = if cores_want < spare { cores_want } else { spare };
    let hop_space = sat_sub16(rest, cores_h);
    let y0 = sat_add16(area.y, ident);
    let col = if hop_n > 0 && hop_space >= 3 {
        hop_column(area, hops, (hop_space / hop_n) as u16, (hop_space % hop_n) as u16, 0, y0)
    } else {
        (Seq::empty(), y0)
    };
    let cores = if cores_h > 0 {
        Some(Rect { x: area.x, y: col.1, width: area.width, height: cores_h })
    } else {
        None
    };
    (ident, col.0, cores)
}

/// Lays out a left column of `area` for `hops`, `ident_n` identity lines
/// and `cores_want` rows of core mosaic.
pub fn left_slots(area: Rect, hops: &Vec<(u8, Panel)>, ident_n: u16, cores_want: u16) -> (s: LeftSlots)
    ensures
        (s.identity, s.hop_rects@, s.cores) == left_slots_spec(area, hops@, ident_n, cores_want),
{
    let hop_n: u16 = if hops.len() <= 65535 { hops.len() as u16 } else { 0 };
    let hop_min: u16 = match 3u16.checked_mul(hop_n) {
        Some(v) => v,
        None => u16::MAX,
    };
    let cores_min: u16 = if cores_want > 0 { 1 } else { 0 };
    let keep = hop_min.saturating_add(cores_min);
    let room = area.height.saturating_sub(keep);
    let ident = if ident_n < room { ident_n } else { room };
    let rest = area.height.saturating_sub(ident);
    let spare = rest.saturating_sub(hop_min);
    let cores_h = if cores_want < spare { cores_want } else { spare };
    let hop_space = rest.saturating_sub(cores_h);
    let mut hop_rects: Vec<(u8, Panel, Rect)> = Vec::new();
    let mut y = area.y.saturating_add(ident);
    if hop_n > 0 && hop_space >= 3 {
        let base = hop_space / hop_n;
        let extra = hop_space % hop_n;
        let ghost target = hop_column(area, hops@, base, extra, 0, y);
        let mut i: usize = 0;
        let mut done = false;
        while i < hops.len() && !done
            invariant
                i <= hops@.len(),
                done ==> hop_column(area, hops@, base, extra, i as int, y).0.len() == 0,
                done ==> hop_column(area, hops@, base, extra, i as int, y).1 == y,
                hop_rects@ + hop_column(area, hops@, base, extra, i as int, y).0 == target.0,
                hop_column(area, hops@, base, extra, i as int, y).1 == target.1,
            decreases hops@.len() - i, if done { 0int } else { 1int },
        {
            let h0 = base.saturating_add(if i < extra as usize { 1 } else { 0 });
            let h1 = if h0 > 3 { h0 } else { 3 };
            let room = area.y.saturating_add(area.height).saturating_sub(y);
            let h = if h1 < room { h1 } else { room };
            if h < 3 {
                done = true;
            } else {
                let (id, hop) = hops[i];
                let ghost before = hop_rects@;
                hop_rects.push((id, hop, Rect { x: area.x, y, width: area.width, height: h }));
                let ghost rest = hop_column(area, hops@, base, extra, i + 1, sat_add16(y, h));
                assert(before + hop_column(area, hops@, base, extra, i as int, y).0 =~= hop_rects@ + rest.0);
                y = y.saturating_add(h);
                i = i + 1;
            }
        }
        assert(hop_rects@ + hop_column(area, hops@, base, extra, i as int, y).0 =~= hop_rects@);
    }
    let cores = if cores_h > 0 {
        Some(Rect { x: area.x, y, width: area.width, height: cores_h })
    } else {
        None
    };
    LeftSlots { identity: ident, hop_rects, cores }
}

/// `tiles` can be the tiles of a row of `n` jumps across `area`: none
/// where there is no jump or no width, else a row split of `area` into `n`
/// equal shares.
pub open spec fn hop_row_ok(area: Rect, n: nat, tiles: Seq<Rect>) -> bool {
    if n == 0 || area.width == 0 {
        tiles.len() == 0
    } else {
        split_fits(false, fills(n), area, tiles)
    }
}

/// The tiles of a row of `n` jumps.
pub fn hop_row_rects(area: Rect, n: usize) -> (r: Vec<Rect>)
    ensures
        hop_row_ok(area, n as nat, r@),
{
    if n == 0 || area.width == 0 {
        return Vec::new();
    }
    let mut fits: Vec<Fit> = Vec::new();
    let mut i: usize = 0;
    while i < n
        invariant
            i <= n,
            fits@ =~= Seq::new(i as nat, |k: int| Fit::Fill(1)),
        decreases n - i,
    {
        fits.push(Fit::Fill(1));
        i = i + 1;
    }
    split(false, &fits, area)
}

/// The target of the first tile from the `i`-th on that contains
/// (`col`, `row`).
pub open spec fn first_tile_hit(rects: Seq<Rect>, hops: Seq<(u8, Panel)>, col: u16, row: u16, i: int) -> Option<
    Panel,
>
    decreases rects.len() - i,
{
    if i < 0 || i >= rects.len() || i >= hops.len() {
        None
    } else if rect_contains(rects[i], col, row) {
        Some(hops[i].1)
    } else {
        first_tile_hit(rects, hops, col, row, i + 1)
    }
}

/// Tiles for a row of `n` jumps across `area` where the first takes the
/// whole row.
pub open spec fn greedy_tiles(area: Rect, n: nat) -> Seq<Rect> {
    if n == 0 || area.width == 0 {
        Seq::empty()
    } else {
        greedy_split(false, n, area)
    }
}

pub(crate) proof fn lemma_greedy_tiles(area: Rect, n: nat)
    ensures
        hop_row_ok(area, n, greedy_tiles(area, n)),
{
    lemma_greedy_split(false, fills(n), area);
}

/// The jump hit in a row of jump tiles laid out as `tiles`.
pub open spec fn hop_row_hit_spec(
    area: Rect,
    hops: Seq<(u8, Panel)>,
    col: u16,
    row: u16,
    tiles: Seq<Rect>,
) -> Option<Panel> {
    if row < area.y || row >= sat_add16(area.y, area.height) {
        None
    } else {
        first_tile_hit(tiles, hops, col, row, 0)
    }
}

/// The jump hit by a click on (`col`, `row`) in a row of jump tiles.
pub fn hop_row_hit(area: Rect, hops: &Vec<(u8, Panel)>, col: u16, row: u16) -> (r: Option<Panel>)
    ensures
        exists|tiles: Seq<Rect>|
            hop_row_ok(area, hops@.len(), tiles) && r == #[trigger] hop_row_hit_spec(area, hops@, col, row, tiles),
{
    if row < area.y || row >= area.y.saturating_add(area.height) {
        proof {
            lemma_greedy_tiles(area, hops@.len());
            assert(None::<Panel> == hop_row_hit_spec(area, hops@, col, row, greedy_tiles(area, hops@.len())));
        }
        return None;
    }
    let rects = hop_row_rects(area, hops.len());
    let mut i: usize = 0;
    while i < rects.len() && i < hops.len()
        invariant
            i <= rects@.len(),
            hop_row_ok(area, hops@.len(), rects@),
            !(row < area.y || row >= sat_add16(area.y, area.height)),
            first_tile_hit(rects@, hops@, col, row, i as int) == first_tile_hit(rects@, hops@, col, row, 0),
        decreases rects@.len() - i,
    {
        if contains(rects[i], col, row) {
            assert(hop_row_hit_spec(area, hops@, col, row, rects@) == Some(hops@[i as int].1));
            return Some(hops[i].1);
        }
        i = i + 1;
    }
    assert(hop_row_hit_spec(area, hops@, col, row, rects@) == None::<Panel>);
    None
}

proof fn lemma_tile_under(area: Rect, tiles: Seq<Rect>, col: u16, k: int)
    requires
        tiled(false, area, tiles),
        0 <= k < tiles.len(),
        tiles[k].x <= col < area.x + area.width,
    ensures
        exists|j: int| k <= j < tiles.len() && #[trigger] tiles[j].x <= col < tiles[j].x + tiles[j].width,
    decreases tiles.len() - k,
{
    if col >= tiles[k].x + tiles[k].width {
        if k + 1 >= tiles.len() {
            assert(tiles.last() == tiles[k]);
        } else {
            assert(lo(false, tiles[k + 1]) == lo(false, tiles[k]) + extent(false, tiles[k]));
            lemma_tile_under(area, tiles, col, k + 1);
        }
    }
}

proof fn lemma_first_tile_some(rects: Seq<Rect>, hops: Seq<(u8, Panel)>, col: u16, row: u16, i: int, j: int)
    requires
        0 <= i <= j < rects.len(),
        j < hops.len(),
        rect_contains(rects[j], col, row),
    ensures
        first_tile_hit(rects, hops, col, row, i) is Some,
    decreases j - i,
{
    if i < j && !rect_contains(rects[i], col, row) {
        lemma_first_tile_some(rects, hops, col, row, i + 1, j);
    }
}

/// A click inside a row of jumps, laid out by a split of the row into one
/// equal share per jump, always hits one of the jumps.
pub proof fn law_click_in_hop_row_hits_a_jump(area: Rect, hops: Seq<(u8, Panel)>, col: u16, row: u16, tiles: Seq<Rect>)
    requires
        hop_row_ok(area, hops.len(), tiles),
        hops.len() > 0,
        area.x + area.width <= u16::MAX,
        rect_contains(area, col, row),
    ensures
        hop_row_hit_spec(area, hops, col, row, tiles) is Some,
{
    let fits = fills(hops.len());
    lemma_fills_total(fits);
    assert(fits[0] is Fill);
    assert(has_fill(fits));
    assert(tiled(false, area, tiles));
    lemma_tile_under(area, tiles, col, 0);
    let j = choose|j: int| 0 <= j < tiles.len() && #[trigger] tiles[j].x <= col < tiles[j].x + tiles[j].width;
    assert(rect_contains(tiles[j], col, row));
    lemma_first_tile_some(tiles, hops, col, row, 0, j);
}

/// In the memory view the strip's first row is a label that jumps to the
/// process list.
pub open spec fn mem_label_hit_spec(area: Rect, col: u16, row: u16) -> Option<Panel> {
    if rect_contains(Rect { height: 1, ..area }, col, row) { Some(Panel::Processes) } else { None }
}

/// The jump hit by a click on the memory view's strip.
pub fn mem_label_hit(area: Rect, col: u16, row: u16) -> (r: Option<Panel>)
    ensures
        r == mem_label_hit_spec(area, col, row),
{
    if contains(Rect { height: 1, ..area }, col, row) {
        Some(Panel::Processes)
    } else {
        None
    }
}

/// The first of `tiles` from the `i`-th on containing (`col`, `row`).
pub open spec fn first_slot_hit(tiles: Seq<(u8, Panel, Rect)>, col: u16, row: u16, i: int) -> Option<Panel>
    decreases tiles.len() - i,
{
    if i < 0 || i >= tiles.len() {
        None
    } else if rect_contains(tiles[i].2, col, row) {
        Some(tiles[i].1)
    } else {
        first_slot_hit(tiles, col, row, i + 1)
    }
}

/// The rows of the strip `area` that a bottom row of jumps takes.
pub open spec fn hop_strip(area: Rect) -> Rect {
    Rect { height: if area.height < 3 { area.height } else { 3 }, ..area }
}

/// `tiles` can be the jump tiles of a bottom strip `area` of an expanded
/// `panel`.
pub open spec fn meta_tiles_ok(area: Rect, panel: Panel, f: PaneFacts, tiles: Seq<Rect>) -> bool {
    hop_row_ok(hop_strip(area), hop_targets_spec(panel, f).len(), tiles)
}

/// The jump hit by a click on the strip `area` of an expanded `panel`,
/// a bottom row of jumps being laid out as `tiles`.
pub open spec fn meta_hop_hit_spec(
    area: Rect,
    side: MetaSide,
    panel: Panel,
    f: PaneFacts,
    ident_n: u16,
    cores_want: u16,
    col: u16,
    row: u16,
    tiles: Seq<Rect>,
) -> Option<Panel> {
    let hops = hop_targets_spec(panel, f);
    if !rect_contains(area, col, row) {
        None
    } else if panel == Panel::Mem {
        mem_label_hit_spec(area, col, row)
    } else if hops.len() == 0 {
        None
    } else {
        match side {
            MetaSide::Bottom => {
                let hop_h: u16 = if area.height < 3 { area.height } else { 3 };
                if row >= sat_add16(area.y, hop_h) {
                    None
                } else {
                    hop_row_hit_spec(Rect { height: hop_h, ..area }, hops, col, row, tiles)
                }
            },
            MetaSide::Left => first_slot_hit(left_slots_spec(area, hops, ident_n, cores_want).1, col, row, 0),
        }
    }
}

/// The jump hit by a click on the strip `area` of an expanded `panel`.
pub fn meta_hop_hit(
    area: Rect,
    side: MetaSide,
    panel: Panel,
    f: PaneFacts,
    ident_n: u16,
    cores_want: u16,
    col: u16,
    row: u16,
) -> (r: Option<Panel>)
    ensures
        exists|tiles: Seq<Rect>|
            meta_tiles_ok(area, panel, f, tiles) && r == #[trigger] meta_hop_hit_spec(
                area,
                side,
                panel,
                f,
                ident_n,
                cores_want,
                col,
                row,
                tiles,
            ),
{
    let ghost greedy = greedy_tiles(hop_strip(area), hop_targets_spec(panel, f).len());
    proof {
        lemma_greedy_tiles(hop_strip(area), hop_targets_spec(panel, f).len());
    }
    if !contains(area, col, row) {
        assert(meta_hop_hit_spec(area, side, panel, f, ident_n, cores_want, col, row, greedy) == None::<Panel>);
        return None;
    }
    if let Panel::Mem = panel {
        let r = mem_label_hit(area, col, row);
        assert(meta_hop_hit_spec(area, side, panel, f, ident_n, cores_want, col, row, greedy) == r);
        return r;
    }
    let hops = hop_targets(panel, f);
    if hops.len() == 0 {
        assert(meta_hop_hit_spec(area, side, panel, f, ident_n, cores_want, col, row, greedy) == None::<Panel>);
        return None;
    }
    match side {
        MetaSide::Bottom => {
            let hop_h = if area.height < 3 { area.height } else { 3 };
            if row >= area.y.saturating_add(hop_h) {
                assert(meta_hop_hit_spec(area, side, panel, f, ident_n, cores_want, col, row, greedy) == None::<Panel>);
                return None;
            }
            let r = hop_row_hit(Rect { height: hop_h, ..area }, &hops, col, row);
            proof {
                let tiles = choose|tiles: Seq<Rect>|
                    hop_row_ok(Rect { height: hop_h, ..area }, hops@.len(), tiles) && r == #[trigger] hop_row_hit_spec(
                        Rect { height: hop_h, ..area },
                        hops@,
                        col,
                        row,
                        tiles,
                    );
                assert(meta_hop_hit_spec(area, side, panel, f, ident_n, cores_want, col, row, tiles) == r);
            }
            r
        },
        MetaSide::Left => {
            let slots = left_slots(area, &hops, ident_n, cores_want);
            let tiles = slots.hop_rects;
            let mut i: usize = 0;
            while i < tiles.len()
                invariant
                    i <= tiles@.len(),
                    tiles@ == left_slots_spec(area, hops@, ident_n, cores_want).1,
                    hops@ == hop_targets_spec(panel, f),
                    hops@.len() > 0,
                    panel != Panel::Mem,
                    rect_contains(area, col, row),
                    side == MetaSide::Left,
                    meta_tiles_ok(area, panel, f, greedy),
                    first_slot_hit(tiles@, col, row, i as int) == first_slot_hit(tiles@, col, row, 0),
                decreases tiles@.len() - i,
            {
                let (_, hop, rect) = tiles[i];
                if contains(rect, col, row) {
                    assert(meta_hop_hit_spec(area, side, panel, f, ident_n, cores_want, col, row, greedy) == Some(hop));
                    return Some(hop);
                }
                i = i + 1;
            }
            assert(meta_hop_hit_spec(area, side, panel, f, ident_n, cores_want, col, row, greedy) == None::<Panel>);
            None
        },
    }
}

/// What the splits of an expanded view gave: the tiles of its row of
/// jumps, and for each band of its graphs what that band's splits gave.
pub struct HopSplits {
    pub tiles: Seq<Rect>,
    pub trials: Seq<spec_fn(nat) -> Seq<Rect>>,
}

/// `w` can be what the splits of the expanded view of `expanded` over
/// `area` gave.
pub open spec fn hop_splits_ok(area: Rect, expanded: Option<Panel>, f: PaneFacts, bands: Seq<Band>, w: HopSplits) -> bool {
    match expanded {
        Some(panel) => panel == Panel::Processes || {
            let plan = split_meta_spec(inset_spec(area), meta_budget_spec(panel, f), panel_mins_spec(panel, f));
            &&& match plan.meta {
                Some(meta) => meta_tiles_ok(meta, panel, f, w.tiles),
                None => true,
            }
            &&& pack_trials_ok(plan.main, bands, w.trials)
        },
        None => true,
    }
}

/// The box that a click on (`col`, `row`) in the expanded view of
/// `expanded` (occupying `area`, border included) jumps to: a jump in the
/// strip, else a jump cell among the graphs packed from `bands`.
pub open spec fn hop_hit_spec(
    area: Rect,
    expanded: Option<Panel>,
    f: PaneFacts,
    ident_n: u16,
    cores_want: u16,
    bands: Seq<Band>,
    col: u16,
    row: u16,
    w: HopSplits,
) -> Option<Panel> {
    match expanded {
        None => None,
        Some(panel) => if panel == Panel::Processes {
            None
        } else {
            let plan = split_meta_spec(inset_spec(area), meta_budget_spec(panel, f), panel_mins_spec(panel, f));
            let strip = match plan.meta {
                Some(meta) => meta_hop_hit_spec(meta, plan.side, panel, f, ident_n, cores_want, col, row, w.tiles),
                None => None,
            };
            if strip is Some {
                strip
            } else {
                find_hop(pack_spec(plan.main, bands, w.trials), col, row, 0)
            }
        },
    }
}

/// The box that a click on (`col`, `row`) in an expanded view jumps to.
pub fn hop_hit(
    area: Rect,
    expanded: Option<Panel>,
    f: PaneFacts,
    ident_n: u16,
    cores_want: u16,
    bands: &[Band],
    col: u16,
    row: u16,
) -> (r: Option<Panel>)
    requires
        bands_fit_u16(bands@),
    ensures
        exists|w: HopSplits|
            hop_splits_ok(area, expanded, f, bands@, w) && r == #[trigger] hop_hit_spec(
                area,
                expanded,
                f,
                ident_n,
                cores_want,
                bands@,
                col,
                row,
                w,
            ),
{
    let ghost none = HopSplits { tiles: Seq::empty(), trials: Seq::empty() };
    let panel = match expanded {
        Some(p) => p,
        None => {
            assert(hop_hit_spec(area, expanded, f, ident_n, cores_want, bands@, col, row, none) == None::<Panel>);
            return None;
        },
    };
    if let Panel::Processes = panel {
        assert(hop_hit_spec(area, expanded, f, ident_n, cores_want, bands@, col, row, none) == None::<Panel>);
        return None;
    }
    let inner = inset(area);
    let budget = meta_budget(panel, f);
    let plan = split_meta(inner, budget, panel_mins(panel, f));
    let ghost mut tiles: Seq<Rect> = Seq::empty();
    if let Some(meta) = plan.meta {
        let hit = meta_hop_hit(meta, plan.side, panel, f, ident_n, cores_want, col, row);
        proof {
            tiles = choose|tiles: Seq<Rect>|
                meta_tiles_ok(meta, panel, f, tiles) && hit == #[trigger] meta_hop_hit_spec(
                    meta,
                    plan.side,
                    panel,
                    f,
                    ident_n,
                    cores_want,
                    col,
                    row,
                    tiles,
                );
        }
        if hit.is_some() {
            proof {
                lemma_greedy_pack_trials(plan.main, bands@);
                let w = HopSplits { tiles, trials: greedy_pack_trials(plan.main, bands@) };
                assert(hop_splits_ok(area, expanded, f, bands@, w));
                assert(hop_hit_spec(area, expanded, f, ident_n, cores_want, bands@, col, row, w) == hit);
            }
            return hit;
        }
    }
    let packed = pack(plan.main, bands);
    let r = packed.hop_at(col, row);
    proof {
        let trials = choose|tr: Seq<spec_fn(nat) -> Seq<Rect>>|
            pack_trials_ok(plan.main, bands@, tr) && packed.cells@ == #[trigger] pack_spec(plan.main, bands@, tr);
        let w = HopSplits { tiles, trials };
        assert(hop_splits_ok(area, expanded, f, bands@, w));
        assert(hop_hit_spec(area, expanded, f, ident_n, cores_want, bands@, col, row, w) == r);
    }
    r
}

} // verus!
