//! Where each box goes. Rows and columns are divided by ratatui's constraint
//! solver; everything around it (which boxes exist, fallbacks, degrade
//! levels, hit testing) is decided here.
use vstd::prelude::*;
use crate::config::{PROC_RATIO_DEFAULT, PROC_RATIO_MAX, PROC_RATIO_MIN};
use crate::surface::Surface;
use ratatui::layout::{Constraint, Direction, Layout};

verus! {

/// A screen rectangle in terminal cells.
#[derive(Debug, Clone, Copy, PartialEq, Eq, Structural)]
pub struct Rect {
    pub x: u16,
    pub y: u16,
    pub width: u16,
    pub height: u16,
}

impl Rect {
    /// A rectangle from its corner and size.
    pub fn new(x: u16, y: u16, width: u16, height: u16) -> (r: Self)
        ensures
            r == (Rect { x, y, width, height }),
    {
        Rect { x, y, width, height }
    }
}

impl Default for Rect {
    fn default() -> (r: Self)
        ensures
            r == (Rect { x: 0, y: 0, width: 0, height: 0 }),
    {
        Rect { x: 0, y: 0, width: 0, height: 0 }
    }
}

/// Size request for one slot of a row or column split.
#[derive(Debug, Clone, Copy, PartialEq, Eq, Structural)]
pub enum Fit {
    /// Share the remaining space with this weight.
    Fill(u16),
    /// Exactly this many cells.
    Length(u16),
}

/// What every split gives back: one rectangle per constraint, each with
/// the area's `x` and width (a vertical split) or `y` and height (a
/// horizontal one), and lying inside the area along the split direction.
pub open spec fn split_ok(vertical: bool, n: nat, area: Rect, rs: Seq<Rect>) -> bool {
    &&& rs.len() == n
    &&& forall|i: int|
        #![trigger rs[i]]
        0 <= i < rs.len() ==> if vertical {
            rs[i].x == area.x && rs[i].width == area.width && area.y <= rs[i].y && rs[i].y + rs[i].height
                <= area.y + area.height
        } else {
            rs[i].y == area.y && rs[i].height == area.height && area.x <= rs[i].x && rs[i].x + rs[i].width
                <= area.x + area.width
        }
}

/// Where `r` starts along the split direction.
pub open spec fn lo(vertical: bool, r: Rect) -> int {
    if vertical { r.y as int } else { r.x as int }
}

/// How long `r` is along the split direction.
pub open spec fn extent(vertical: bool, r: Rect) -> int {
    if vertical { r.height as int } else { r.width as int }
}

/// The cells a `Length` asks for; none for a `Fill`.
pub open spec fn length_of(f: Fit) -> int {
    match f {
        Fit::Length(n) => n as int,
        Fit::Fill(_) => 0,
    }
}

/// The cells all the `Length`s of `fits` ask for together.
pub open spec fn lengths_total(fits: Seq<Fit>) -> int
    decreases fits.len(),
{
    if fits.len() == 0 {
        0
    } else {
        lengths_total(fits.drop_last()) + length_of(fits.last())
    }
}

/// Whether some slot of `fits` is a `Fill`.
pub open spec fn has_fill(fits: Seq<Fit>) -> bool {
    exists|i: int| 0 <= i < fits.len() && #[trigger] fits[i] is Fill
}

/// `rs` cover `area` along the split direction one after another, with no
/// gap and no overlap: the first starts where the area does, each next one
/// where the one before ends, and the last ends where the area does.
pub open spec fn tiled(vertical: bool, area: Rect, rs: Seq<Rect>) -> bool {
    &&& rs.len() > 0
    &&& lo(vertical, rs[0]) == lo(vertical, area)
    &&& forall|i: int|
        #![trigger rs[i + 1]]
        0 <= i < rs.len() - 1 ==> lo(vertical, rs[i + 1]) == lo(vertical, rs[i]) + extent(vertical, rs[i])
    &&& lo(vertical, rs.last()) + extent(vertical, rs.last()) == lo(vertical, area) + extent(vertical, area)
}

/// What a split of `area` by `fits` gives back: what every split gives
/// (`split_ok`) and, where the area ends inside the screen's coordinates
/// and the `Length`s fit in it, every `Length(n)` slot exactly `n` long and,
/// when some slot is a `Fill`, the slots tiling the area in order.
pub open spec fn split_fits(vertical: bool, fits: Seq<Fit>, area: Rect, rs: Seq<Rect>) -> bool {
    &&& split_ok(vertical, fits.len(), area, rs)
    &&& lo(vertical, area) + extent(vertical, area) <= u16::MAX && lengths_total(fits) <= extent(vertical, area)
        ==> {
        &&& forall|i: int|
            #![trigger rs[i]]
            0 <= i < rs.len() && fits[i] is Length ==> extent(vertical, rs[i]) == length_of(fits[i])
        &&& has_fill(fits) ==> tiled(vertical, area, rs)
    }
}

/// In tiled slots each one ends at or before any later one starts.
pub(crate) proof fn lemma_tiled_ordered(vertical: bool, area: Rect, rs: Seq<Rect>, i: int, j: int)
    requires
        tiled(vertical, area, rs),
        0 <= i < j < rs.len(),
    ensures
        lo(vertical, rs[i]) + extent(vertical, rs[i]) <= lo(vertical, rs[j]),
    decreases j - i,
{
    let k = j - 1;
    assert(lo(vertical, rs[k + 1]) == lo(vertical, rs[k]) + extent(vertical, rs[k]));
    if j > i + 1 {
        lemma_tiled_ordered(vertical, area, rs, i, j - 1);
    }
}

/// A split of `area` into `n` slots where the first takes the whole area and
/// the rest are empty at its end: what a split by `Fill`s alone can give.
pub open spec fn greedy_split(vertical: bool, n: nat, area: Rect) -> Seq<Rect> {
    Seq::new(
        n,
        |i: int|
            if i == 0 {
                area
            } else if vertical {
                Rect { x: area.x, y: sat_add16(area.y, area.height), width: area.width, height: 0 }
            } else {
                Rect { x: sat_add16(area.x, area.width), y: area.y, width: 0, height: area.height }
            },
    )
}

pub(crate) proof fn lemma_fills_total(fits: Seq<Fit>)
    requires
        forall|i: int| 0 <= i < fits.len() ==> #[trigger] fits[i] is Fill,
    ensures
        lengths_total(fits) == 0,
    decreases fits.len(),
{
    if fits.len() > 0 {
        let init = fits.drop_last();
        assert forall|i: int| 0 <= i < init.len() implies #[trigger] init[i] is Fill by {
            assert(init[i] == fits[i]);
        }
        lemma_fills_total(init);
    }
}

pub(crate) proof fn lemma_greedy_split(vertical: bool, fits: Seq<Fit>, area: Rect)
    requires
        forall|i: int| 0 <= i < fits.len() ==> #[trigger] fits[i] is Fill,
    ensures
        split_fits(vertical, fits, area, greedy_split(vertical, fits.len(), area)),
{
    lemma_fills_total(fits);
    let rs = greedy_split(vertical, fits.len(), area);
    if lo(vertical, area) + extent(vertical, area) <= u16::MAX && fits.len() > 0 {
        assert(rs[0] == area);
        assert(rs.last() == rs[fits.len() - 1]);
        assert forall|i: int| 0 <= i < rs.len() - 1 implies lo(vertical, #[trigger] rs[i + 1]) == lo(vertical, rs[i])
            + extent(vertical, rs[i]) by {
            if i > 0 {
                assert(extent(vertical, rs[i]) == 0);
            }
        }
    }
}

/// `ratatui::layout::Layout::split` with the given direction and
/// constraints (`Fill(w)` as `Constraint::Fill(w)`, `Length(n)` as
/// `Constraint::Length(n)`; the default `Flex::Start`, no margin, no
/// spacing). Ratatui solves the layout with cassowary, which returns an
/// optimum of the weighted preferences under the required constraints.
///
/// What every call gives back is fixed by the required constraints
/// (`configure_area`, `configure_variable_in_area_constraints`,
/// `configure_variable_constraints` in ratatui's `layout/layout.rs`): one
/// rectangle per constraint; a vertical split keeps the area's `x` and
/// width, a horizontal one its `y` and height; every segment's start and
/// end lie inside the area and the start comes first.
///
/// Where the area ends inside `u16` coordinates and the `Length`s fit, the
/// weights settle more. A `Length` holds at `STRONG * 10`, far above what
/// giving its cells to others could gain (a `Fill` grows at `MEDIUM`, the
/// last spacer at `MEDIUM / 10`, neighbouring segments pull toward equal
/// size at `WEAK`), so every `Length(n)` slot is exactly `n` long. With
/// some `Fill`, the first spacer is held empty at `REQUIRED - 1` and the
/// inner ones at zero at `REQUIRED / 10`, and the fills outgrow the last
/// spacer, so the slots tile the area: the rounded end of each segment is
/// the rounded start of the next. How the fills share that room (their
/// weights hold at `MEDIUM / 10`, and rounding moves each end) and which
/// of several equally good layouts comes back are not stated.
#[verifier::external_body]
pub(crate) fn split(vertical: bool, fits: &Vec<Fit>, area: Rect) -> (r: Vec<Rect>)
    ensures
        split_fits(vertical, fits@, area, r@),
{
    let constraints: Vec<Constraint> = fits.iter().map(|f| match *f {
        Fit::Fill(w) => Constraint::Fill(w),
        Fit::Length(n) => Constraint::Length(n),
    }).collect();
    let dir = if vertical { Direction::Vertical } else { Direction::Horizontal };
    let area = ratatui::layout::Rect { x: area.x, y: area.y, width: area.width, height: area.height };
    Layout::new(dir, constraints).split(area).iter()
        .map(|r| Rect { x: r.x, y: r.y, width: r.width, height: r.height }).collect()
}

/// The boxes of the screen.
#[derive(Debug, Clone, Copy, PartialEq, Eq, Structural)]
pub enum Panel {
    Cpu,
    Gpu,
    Mem,
    Net,
    Disk,
    Fans,
    Processes,
}

impl Panel {
    /// Every box, in screen order.
    pub const ALL: [Panel; 7] = [
        Panel::Cpu,
        Panel::Gpu,
        Panel::Mem,
        Panel::Net,
        Panel::Disk,
        Panel::Fans,
        Panel::Processes,
    ];

    /// Short title of the box.
    pub fn label(self) -> (s: &'static str)
        ensures
            self == Panel::Cpu ==> s@ == "cpu"@,
            self == Panel::Gpu ==> s@ == "gpu"@,
            self == Panel::Mem ==> s@ == "mem"@,
            self == Panel::Net ==> s@ == "net"@,
            self == Panel::Disk ==> s@ == "disk"@,
            self == Panel::Fans ==> s@ == "fans"@,
            self == Panel::Processes ==> s@ == "proc"@,
    {
        match self {
            Panel::Cpu => "cpu",
            Panel::Gpu => "gpu",
            Panel::Mem => "mem",
            Panel::Net => "net",
            Panel::Disk => "disk",
            Panel::Fans => "fans",
            Panel::Processes => "proc",
        }
    }
}

/// All panels in screen order.
pub open spec fn all_panels() -> Seq<Panel> {
    seq![Panel::Cpu, Panel::Gpu, Panel::Mem, Panel::Net, Panel::Disk, Panel::Fans, Panel::Processes]
}

/// What the layout needs to know about preferences and hardware.
#[derive(Debug, Clone, Copy, PartialEq, Eq, Structural)]
pub struct LayoutFlags {
    pub show_gpu: bool,
    pub show_net: bool,
    pub show_disk: bool,
    pub show_fans: bool,
    pub has_gpu: bool,
    pub has_fans: bool,
    pub has_disk: bool,
    pub expanded: Option<Panel>,
    pub proc_ratio: u16,
}

impl Default for LayoutFlags {
    fn default() -> (f: Self)
        ensures
            f == (LayoutFlags {
                show_gpu: true,
                show_net: true,
                show_disk: true,
                show_fans: true,
                has_gpu: true,
                has_fans: true,
                has_disk: true,
                expanded: None,
                proc_ratio: PROC_RATIO_DEFAULT,
            }),
    {
        LayoutFlags {
            show_gpu: true,
            show_net: true,
            show_disk: true,
            show_fans: true,
            has_gpu: true,
            has_fans: true,
            has_disk: true,
            expanded: None,
            proc_ratio: PROC_RATIO_DEFAULT,
        }
    }
}

/// A box is shown when the user wants it and the hardware has it; cpu, mem
/// and processes always are.
pub open spec fn visible_spec(flags: LayoutFlags, panel: Panel) -> bool {
    match panel {
        Panel::Cpu | Panel::Mem | Panel::Processes => true,
        Panel::Gpu => flags.show_gpu && flags.has_gpu,
        Panel::Net => flags.show_net,
        Panel::Disk => flags.show_disk && flags.has_disk,
        Panel::Fans => flags.show_fans,
    }
}

impl LayoutFlags {
    /// Whether `panel` is shown.
    pub fn visible(self, panel: Panel) -> (r: bool)
        ensures
            r == visible_spec(self, panel),
    {
        match panel {
            Panel::Cpu | Panel::Mem | Panel::Processes => true,
            Panel::Gpu => self.show_gpu && self.has_gpu,
            Panel::Net => self.show_net,
            Panel::Disk => self.show_disk && self.has_disk,
            Panel::Fans => self.show_fans,
        }
    }

    /// The shown panels in screen order.
    pub fn visible_panels(self) -> (r: Vec<Panel>)
        ensures
            r@ == all_panels().filter(|p: Panel| visible_spec(self, p)),
    {
        let mut out: Vec<Panel> = Vec::new();
        let ghost keep = |p: Panel| visible_spec(self, p);
        proof {
            reveal_with_fuel(Seq::<_>::filter, 8);
        }
        if self.visible(Panel::Cpu) { out.push(Panel::Cpu); }
        if self.visible(Panel::Gpu) { out.push(Panel::Gpu); }
        if self.visible(Panel::Mem) { out.push(Panel::Mem); }
        if self.visible(Panel::Net) { out.push(Panel::Net); }
        if self.visible(Panel::Disk) { out.push(Panel::Disk); }
        if self.visible(Panel::Fans) { out.push(Panel::Fans); }
        if self.visible(Panel::Processes) { out.push(Panel::Processes); }
        assert(all_panels().drop_last().drop_last().drop_last().drop_last().drop_last().drop_last().drop_last() =~= Seq::<Panel>::empty());
        assert(out@ =~= all_panels().filter(keep));
        out
    }
}

/// Clickable regions of the screen.
#[derive(Debug, Clone, Copy, PartialEq, Eq, Structural)]
pub enum Region {
    Cpu,
    Gpu,
    Mem,
    Net,
    Disk,
    Fans,
    Processes,
    Footer,
}

/// How much detail boxes can afford.
#[derive(Debug, Clone, Copy, PartialEq, Eq, Structural)]
pub enum Degrade {
    Full,
    Tight,
    Minimal,
}

/// Detail level for a left metrics rail of the given size.
pub open spec fn left_rail_degrade(width: u16, height: u16) -> Degrade {
    if width < 50 || height < 17 {
        Degrade::Minimal
    } else if width < 64 || height < 22 {
        Degrade::Tight
    } else {
        Degrade::Full
    }
}

/// Detail level for the glance body.
pub open spec fn glance_degrade(body: Rect) -> Degrade {
    if body.height < 12 || body.width < 50 {
        Degrade::Minimal
    } else if body.height < 18 {
        Degrade::Tight
    } else {
        Degrade::Full
    }
}

impl Degrade {
    /// Detail level for the work surface's left rail.
    pub fn for_left_rail(width: u16, height: u16) -> (d: Self)
        ensures
            d == left_rail_degrade(width, height),
    {
        if width < 50 || height < 17 {
            Degrade::Minimal
        } else if width < 64 || height < 22 {
            Degrade::Tight
        } else {
            Degrade::Full
        }
    }

    /// Detail level for the glance surface.
    pub fn for_glance(body: Rect) -> (d: Self)
        ensures
            d == glance_degrade(body),
    {
        if body.height < 12 || body.width < 50 {
            Degrade::Minimal
        } else if body.height < 18 {
            Degrade::Tight
        } else {
            Degrade::Full
        }
    }
}

/// Where everything goes on one frame.
#[derive(Debug, Clone, Copy, PartialEq, Eq, Structural)]
pub struct LayoutPlan {
    pub surface: Surface,
    pub degrade: Degrade,
    pub cpu: Option<Rect>,
    pub gpu: Option<Rect>,
    pub mem: Option<Rect>,
    pub net: Option<Rect>,
    pub disk: Option<Rect>,
    pub fans: Option<Rect>,
    pub processes: Option<Rect>,
    pub split: Option<Rect>,
    pub footer: Rect,
    pub expanded: Option<Panel>,
}

/// `a` and `b` share no cell: one lies wholly left of, right of, above or
/// below the other.
pub open spec fn apart(a: Rect, b: Rect) -> bool {
    a.x + a.width <= b.x || b.x + b.width <= a.x || a.y + a.height <= b.y || b.y + b.height <= a.y
}

/// `r` lies inside `area`.
pub open spec fn within(r: Rect, area: Rect) -> bool {
    &&& area.x <= r.x && r.x + r.width <= area.x + area.width
    &&& area.y <= r.y && r.y + r.height <= area.y + area.height
}

/// Every box and the splitter of `p` lie inside `area`.
pub open spec fn boxes_within(p: LayoutPlan, area: Rect) -> bool {
    &&& forall|q: Panel| #[trigger] panel_rect(p, q) matches Some(r) ==> within(r, area)
    &&& p.split matches Some(r) ==> within(r, area)
}

/// Boxes placed inside a row that lies inside `area` lie inside `area`.
proof fn lemma_boxes_step(p: LayoutPlan, r: LayoutPlan, row: Rect, area: Rect)
    requires
        boxes_within(p, area),
        boxes_kept_or_within(p, r, row),
        within(row, area),
    ensures
        boxes_within(r, area),
{
    assert forall|q: Panel| #[trigger] panel_rect(r, q) is Some implies within(panel_rect(r, q)->0, area) by {
        let x = panel_rect(r, q)->0;
        if panel_rect(p, q) == Some(x) {
        } else {
            assert(within(x, row));
        }
    }
}

/// Each box of `r` is the same as in `p`, or lies inside `area`; the
/// splitter is unchanged.
pub open spec fn boxes_kept_or_within(p: LayoutPlan, r: LayoutPlan, area: Rect) -> bool {
    &&& forall|q: Panel| #[trigger] panel_rect(r, q) matches Some(x) ==> (panel_rect(p, q) == Some(x) || within(x, area))
    &&& r.split == p.split
}

/// The rectangle planned for `panel`.
pub open spec fn panel_rect(p: LayoutPlan, panel: Panel) -> Option<Rect> {
    match panel {
        Panel::Cpu => p.cpu,
        Panel::Gpu => p.gpu,
        Panel::Mem => p.mem,
        Panel::Net => p.net,
        Panel::Disk => p.disk,
        Panel::Fans => p.fans,
        Panel::Processes => p.processes,
    }
}

/// The 3x1 expand/close mark in a box's top border, for boxes at least 5 wide.
pub open spec fn corner_spec(area: Rect) -> Option<Rect> {
    if area.width < 5 || area.height == 0 {
        None
    } else {
        Some(Rect {
            x: if area.x + (area.width - 4) > u16::MAX { u16::MAX } else { (area.x + (area.width - 4)) as u16 },
            y: area.y,
            width: 3,
            height: 1,
        })
    }
}

/// The close mark of the expanded box, if any.
pub open spec fn close_spec(p: LayoutPlan) -> Option<Rect> {
    match p.expanded {
        Some(panel) => match panel_rect(p, panel) {
            Some(area) => corner_spec(area),
            None => None,
        },
        None => None,
    }
}

/// The expand mark of `panel`; none while a box is expanded.
pub open spec fn expand_spec(p: LayoutPlan, panel: Panel) -> Option<Rect> {
    if p.expanded is Some {
        None
    } else {
        match panel_rect(p, panel) {
            Some(area) => corner_spec(area),
            None => None,
        }
    }
}

impl LayoutPlan {
    /// The rectangle of a clickable region.
    pub fn region(&self, region: Region) -> (r: Option<Rect>)
        ensures
            r == match region {
                Region::Cpu => self.cpu,
                Region::Gpu => self.gpu,
                Region::Mem => self.mem,
                Region::Net => self.net,
                Region::Disk => self.disk,
                Region::Fans => self.fans,
                Region::Processes => self.processes,
                Region::Footer => Some(self.footer),
            },
    {
        match region {
            Region::Cpu => self.cpu,
            Region::Gpu => self.gpu,
            Region::Mem => self.mem,
            Region::Net => self.net,
            Region::Disk => self.disk,
            Region::Fans => self.fans,
            Region::Processes => self.processes,
            Region::Footer => Some(self.footer),
        }
    }

    /// The rectangle of a panel, if it is on screen.
    pub fn panel(&self, panel: Panel) -> (r: Option<Rect>)
        ensures
            r == panel_rect(*self, panel),
    {
        match panel {
            Panel::Cpu => self.cpu,
            Panel::Gpu => self.gpu,
            Panel::Mem => self.mem,
            Panel::Net => self.net,
            Panel::Disk => self.disk,
            Panel::Fans => self.fans,
            Panel::Processes => self.processes,
        }
    }

    /// Where the expand/close mark of a box sits.
    pub fn corner_hit(area: Rect) -> (r: Option<Rect>)
        ensures
            r == corner_spec(area),
    {
        if area.width < 5 || area.height == 0 {
            return None;
        }
        Some(Rect { x: area.x.saturating_add(area.width - 4), y: area.y, width: 3, height: 1 })
    }

    /// The close mark of the expanded box.
    pub fn close_hit(&self) -> (r: Option<Rect>)
        ensures
            r == close_spec(*self),
    {
        let panel = self.expanded?;
        Self::corner_hit(self.panel(panel)?)
    }

    /// The expand mark of `panel`, when nothing is expanded.
    pub fn expand_hit(&self, panel: Panel) -> (r: Option<Rect>)
        ensures
            r == expand_spec(*self, panel),
    {
        if self.expanded.is_some() {
            return None;
        }
        Self::corner_hit(self.panel(panel)?)
    }
}


/// What a click landed on.
#[derive(Debug, Clone, Copy, PartialEq, Eq, Structural)]
pub enum Hit {
    Panel(Panel),
    Expand(Panel),
    ExpandClose,
    Search,
    ProcRow(usize),
    Split,
    Help,
    Settings,
    Kill,
    Quit,
}

/// Narrowest screen that still gets the work surface (24 process columns plus 36 metric columns).
pub const WORK_MIN_WIDTH: u16 = 60;
/// Shortest screen that still gets the work surface.
pub const WORK_MIN_HEIGHT: u16 = 16;

/// The surface actually drawn: work falls back to glance below the work gates.
pub open spec fn effective_surface(area: Rect, surface: Surface) -> Surface {
    if surface == Surface::Glance || area.height < WORK_MIN_HEIGHT || area.width < WORK_MIN_WIDTH {
        Surface::Glance
    } else {
        Surface::Work
    }
}

/// A plan with no boxes.
pub open spec fn empty_plan_spec(surface: Surface, degrade: Degrade, footer: Rect) -> LayoutPlan {
    LayoutPlan {
        surface,
        degrade,
        cpu: None,
        gpu: None,
        mem: None,
        net: None,
        disk: None,
        fans: None,
        processes: None,
        split: None,
        footer,
        expanded: None,
    }
}

/// `p` with `panel` placed at `rect`.
pub open spec fn set_panel_spec(p: LayoutPlan, panel: Panel, rect: Rect) -> LayoutPlan {
    match panel {
        Panel::Cpu => LayoutPlan { cpu: Some(rect), ..p },
        Panel::Gpu => LayoutPlan { gpu: Some(rect), ..p },
        Panel::Mem => LayoutPlan { mem: Some(rect), ..p },
        Panel::Net => LayoutPlan { net: Some(rect), ..p },
        Panel::Disk => LayoutPlan { disk: Some(rect), ..p },
        Panel::Fans => LayoutPlan { fans: Some(rect), ..p },
        Panel::Processes => LayoutPlan { processes: Some(rect), ..p },
    }
}

/// An expanded box fills the whole body; nothing else is shown.
pub open spec fn expanded_plan_spec(surface: Surface, body: Rect, footer: Rect, panel: Panel) -> LayoutPlan {
    set_panel_spec(
        LayoutPlan { expanded: Some(panel), ..empty_plan_spec(surface, Degrade::Full, footer) },
        panel,
        body,
    )
}

/// The shown ones of two panels, in order.
pub open spec fn pick(flags: LayoutFlags, a: Panel, b: Panel) -> Seq<Panel> {
    (if visible_spec(flags, a) { seq![a] } else { Seq::empty() })
        + (if visible_spec(flags, b) { seq![b] } else { Seq::empty() })
}

/// Equal-weight fill constraints.
pub open spec fn fills(n: nat) -> Seq<Fit> {
    Seq::new(n, |_i: int| Fit::Fill(1))
}

/// `p` with the first `n` panels placed at the matching rectangles.
pub open spec fn set_panels(p: LayoutPlan, panels: Seq<Panel>, rects: Seq<Rect>, n: int) -> LayoutPlan
    decreases n,
{
    if n <= 0 {
        p
    } else {
        set_panel_spec(set_panels(p, panels, rects, n - 1), panels[n - 1], rects[n - 1])
    }
}

/// Panels side by side in the columns `cols` that an equal split of `area`
/// gave; an empty list or an empty area places nothing.
pub open spec fn assign_row_spec(p: LayoutPlan, area: Rect, panels: Seq<Panel>, cols: Seq<Rect>) -> LayoutPlan {
    if panels.len() == 0 || area.width == 0 || area.height == 0 {
        p
    } else {
        set_panels(p, panels, cols, panels.len() as int)
    }
}

/// `cols` is what splitting `area` into one equal `Fill(1)` column per
/// panel can give.
pub open spec fn assign_ok(area: Rect, panels: Seq<Panel>, cols: Seq<Rect>) -> bool {
    panels.len() == 0 || area.width == 0 || area.height == 0 || split_fits(false, fills(panels.len()), area, cols)
}

/// The rectangles the splits made in planning one frame gave back: the
/// body and footer, the rows, the work columns, and the columns of up to
/// three rows of boxes.
pub struct PlanSplits {
    pub chunks: Seq<Rect>,
    pub rows: Seq<Rect>,
    pub cols: Seq<Rect>,
    pub row_a: Seq<Rect>,
    pub row_b: Seq<Rect>,
    pub row_c: Seq<Rect>,
}

/// Height of the cpu row on the glance surface.
pub open spec fn glance_cpu_h(body: Rect) -> u16 {
    if body.height >= 10 { 5 } else { 4 }
}

/// Height of the gpu/mem row on the glance surface.
pub open spec fn glance_mid_h(body: Rect, flags: LayoutFlags) -> u16 {
    if pick(flags, Panel::Gpu, Panel::Mem).len() > 0 && body.height >= glance_cpu_h(body) + 4 { 3 } else { 0 }
}

/// Height of the net/disk row on the glance surface.
pub open spec fn glance_io_h(body: Rect, flags: LayoutFlags) -> u16 {
    if pick(flags, Panel::Net, Panel::Disk).len() > 0
        && body.height >= glance_cpu_h(body) + glance_mid_h(body, flags) + 3 { 3 } else { 0 }
}

/// Height of the sensors row on the glance surface.
pub open spec fn glance_fan_h(body: Rect, flags: LayoutFlags) -> u16 {
    if visible_spec(flags, Panel::Fans)
        && body.height >= glance_cpu_h(body) + glance_mid_h(body, flags) + glance_io_h(body, flags) + 3 { 3 } else { 0 }
}

/// Glance: stacked rows of cpu, gpu/mem, net/disk and sensors, each present
/// only while the body still has room; no process table.
pub open spec fn glance_plan_spec(body: Rect, footer: Rect, flags: LayoutFlags, w: PlanSplits) -> LayoutPlan {
    let mid_h = glance_mid_h(body, flags);
    let io_h = glance_io_h(body, flags);
    let fan_h = glance_fan_h(body, flags);
    let rows = w.rows;
    let p0 = LayoutPlan { cpu: Some(rows[0]), ..empty_plan_spec(Surface::Glance, glance_degrade(body), footer) };
    let p1 = if mid_h > 0 { assign_row_spec(p0, rows[1], pick(flags, Panel::Gpu, Panel::Mem), w.row_a) } else { p0 };
    let p2 = if io_h > 0 { assign_row_spec(p1, rows[2], pick(flags, Panel::Net, Panel::Disk), w.row_b) } else { p1 };
    if fan_h > 0 { LayoutPlan { fans: Some(rows[3]), ..p2 } } else { p2 }
}

/// The rows a glance body is split by: the cpu, gpu/mem, net/disk and
/// sensors heights, then the rest.
pub open spec fn glance_fits(body: Rect, flags: LayoutFlags) -> Seq<Fit> {
    seq![
        Fit::Length(glance_cpu_h(body)),
        Fit::Length(glance_mid_h(body, flags)),
        Fit::Length(glance_io_h(body, flags)),
        Fit::Length(glance_fan_h(body, flags)),
        Fit::Fill(1),
    ]
}

/// The glance splits: five rows of the body (cpu, gpu/mem, net/disk,
/// sensors, rest) and the columns of the two shared rows.
pub open spec fn glance_ok(body: Rect, flags: LayoutFlags, w: PlanSplits) -> bool {
    &&& split_fits(true, glance_fits(body, flags), body, w.rows)
    &&& glance_mid_h(body, flags) > 0 ==> assign_ok(w.rows[1], pick(flags, Panel::Gpu, Panel::Mem), w.row_a)
    &&& glance_io_h(body, flags) > 0 ==> assign_ok(w.rows[2], pick(flags, Panel::Net, Panel::Disk), w.row_b)
}

/// The process column ratio kept inside its allowed range.
pub open spec fn clamp_ratio(r: u16) -> u16 {
    if r < PROC_RATIO_MIN { PROC_RATIO_MIN } else if r > PROC_RATIO_MAX { PROC_RATIO_MAX } else { r }
}

/// Width of the process column: its share of the body, at least 24 and
/// leaving 36 columns for the metrics when there is room.
pub open spec fn proc_width(body_width: u16, ratio: u16) -> u16 {
    let want = (body_width * clamp_ratio(ratio) / 100) as u16;
    let hi: u16 = if body_width >= 60 { (body_width - 36) as u16 } else { 24 };
    if want < 24 { 24 } else if want > hi { hi } else { want }
}

/// Row weights of the left rail: heroes 5, mem/sensors 3, net/disk 3.
pub open spec fn rail_weights(hero_on: bool, mid_on: bool, io_on: bool) -> Seq<Fit> {
    let w = (if hero_on { seq![Fit::Fill(5)] } else { Seq::empty() })
        + (if mid_on { seq![Fit::Fill(3)] } else { Seq::empty() })
        + (if io_on { seq![Fit::Fill(3)] } else { Seq::empty() });
    if w.len() == 0 { seq![Fit::Fill(1)] } else { w }
}

/// Work: the metric boxes in a weighted left rail (cpu/gpu, mem/sensors,
/// net/disk), a one-column splitter, then the process table on the right.
pub open spec fn work_plan_spec(body: Rect, footer: Rect, flags: LayoutFlags, w: PlanSplits) -> LayoutPlan {
    let ratio = clamp_ratio(flags.proc_ratio);
    let left_w: u16 = if body.width >= body.width * ratio / 100 { (body.width - body.width * ratio / 100) as u16 } else { 0 };
    let cols = w.cols;
    let hero = pick(flags, Panel::Cpu, Panel::Gpu);
    let mid = pick(flags, Panel::Mem, Panel::Fans);
    let io = pick(flags, Panel::Net, Panel::Disk);
    let rows = w.rows;
    let i_mid: int = if hero.len() > 0 { 1 } else { 0 };
    let i_io: int = i_mid + if mid.len() > 0 { 1int } else { 0 };
    let p0 = empty_plan_spec(Surface::Work, left_rail_degrade(left_w, body.height), footer);
    let p1 = if hero.len() > 0 { assign_row_spec(p0, rows[0], hero, w.row_a) } else { p0 };
    let p2 = if mid.len() > 0 { assign_row_spec(p1, rows[i_mid], mid, w.row_b) } else { p1 };
    let p3 = if io.len() > 0 { assign_row_spec(p2, rows[i_io], io, w.row_c) } else { p2 };
    LayoutPlan { split: Some(cols[1]), processes: Some(cols[2]), ..p3 }
}

/// The columns a work body is split by: the rail, the one-column splitter
/// and the process column.
pub open spec fn work_cols(body: Rect, flags: LayoutFlags) -> Seq<Fit> {
    seq![Fit::Fill(1), Fit::Length(1), Fit::Length(proc_width(body.width, flags.proc_ratio))]
}

/// The work splits: the body into rail, splitter and process columns
/// (`Fill(1)`, `Length(1)`, `Length(proc_width)`), the rail into one row per
/// group shown, and each row of boxes into columns.
pub open spec fn work_ok(body: Rect, flags: LayoutFlags, w: PlanSplits) -> bool {
    let hero = pick(flags, Panel::Cpu, Panel::Gpu);
    let mid = pick(flags, Panel::Mem, Panel::Fans);
    let io = pick(flags, Panel::Net, Panel::Disk);
    let i_mid: int = if hero.len() > 0 { 1 } else { 0 };
    let i_io: int = i_mid + if mid.len() > 0 { 1int } else { 0 };
    &&& split_fits(false, work_cols(body, flags), body, w.cols)
    &&& split_fits(true, rail_weights(hero.len() > 0, mid.len() > 0, io.len() > 0), w.cols[0], w.rows)
    &&& hero.len() > 0 ==> assign_ok(w.rows[0], hero, w.row_a)
    &&& mid.len() > 0 ==> assign_ok(w.rows[i_mid], mid, w.row_b)
    &&& io.len() > 0 ==> assign_ok(w.rows[i_io], io, w.row_c)
}

/// The whole frame: a one-line footer under the body, and the body planned
/// for the expanded box, the glance surface or the work surface.
pub open spec fn plan_spec(area: Rect, surface: Surface, flags: LayoutFlags, w: PlanSplits) -> LayoutPlan {
    let s = effective_surface(area, surface);
    let chunks = w.chunks;
    match flags.expanded {
        Some(panel) => expanded_plan_spec(s, chunks[0], chunks[1], panel),
        None => if s == Surface::Glance {
            glance_plan_spec(chunks[0], chunks[1], flags, w)
        } else {
            work_plan_spec(chunks[0], chunks[1], flags, w)
        },
    }
}

/// `w` is what the splits made in planning `area` can give back: the area
/// into body and footer (`Fill(1)`, `Length(1)`), then the body's splits.
pub open spec fn plan_ok(area: Rect, surface: Surface, flags: LayoutFlags, w: PlanSplits) -> bool {
    &&& split_fits(true, seq![Fit::Fill(1), Fit::Length(1)], area, w.chunks)
    &&& flags.expanded is None ==> if effective_surface(area, surface) == Surface::Glance {
        glance_ok(w.chunks[0], flags, w)
    } else {
        work_ok(w.chunks[0], flags, w)
    }
}

fn set_panel(p: LayoutPlan, panel: Panel, rect: Rect) -> (r: LayoutPlan)
    ensures
        r == set_panel_spec(p, panel, rect),
        forall|q: Panel| #[trigger] panel_rect(r, q) == (if q == panel { Some(rect) } else { panel_rect(p, q) }),
        r.split == p.split && r.footer == p.footer,
{
    let mut q = p;
    match panel {
        Panel::Cpu => q.cpu = Some(rect),
        Panel::Gpu => q.gpu = Some(rect),
        Panel::Mem => q.mem = Some(rect),
        Panel::Net => q.net = Some(rect),
        Panel::Disk => q.disk = Some(rect),
        Panel::Fans => q.fans = Some(rect),
        Panel::Processes => q.processes = Some(rect),
    }
    q
}

fn pick_exec(flags: LayoutFlags, a: Panel, b: Panel) -> (r: Vec<Panel>)
    ensures
        r@ == pick(flags, a, b),
{
    let mut v: Vec<Panel> = Vec::new();
    if flags.visible(a) {
        v.push(a);
    }
    if flags.visible(b) {
        v.push(b);
    }
    assert(v@ =~= pick(flags, a, b));
    v
}

/// The cpu and gpu boxes, when shown.
pub fn hero_panels(flags: LayoutFlags) -> (r: Vec<Panel>)
    ensures
        r@ == pick(flags, Panel::Cpu, Panel::Gpu),
{
    pick_exec(flags, Panel::Cpu, Panel::Gpu)
}

/// The memory and sensors boxes, when shown.
pub fn mid_panels(flags: LayoutFlags) -> (r: Vec<Panel>)
    ensures
        r@ == pick(flags, Panel::Mem, Panel::Fans),
{
    pick_exec(flags, Panel::Mem, Panel::Fans)
}

/// The network and disk boxes, when shown.
pub fn io_panels(flags: LayoutFlags) -> (r: Vec<Panel>)
    ensures
        r@ == pick(flags, Panel::Net, Panel::Disk),
{
    pick_exec(flags, Panel::Net, Panel::Disk)
}

fn assign_row(p: LayoutPlan, area: Rect, panels: &Vec<Panel>) -> (r: (LayoutPlan, Ghost<Seq<Rect>>))
    ensures
        assign_ok(area, panels@, r.1@),
        r.0 == assign_row_spec(p, area, panels@, r.1@),
        boxes_kept_or_within(p, r.0, area),
        r.0.footer == p.footer,
{
    if panels.len() == 0 || area.width == 0 || area.height == 0 {
        return (p, Ghost(Seq::empty()));
    }
    let n = panels.len();
    let mut fits: Vec<Fit> = Vec::new();
    let mut i: usize = 0;
    while i < n
        invariant
            i <= n,
            fits@ == fills(i as nat),
        decreases n - i,
    {
        fits.push(Fit::Fill(1));
        i = i + 1;
        assert(fits@ =~= fills(i as nat));
    }
    let cols = split(false, &fits, area);
    let mut q = p;
    let mut k: usize = 0;
    while k < n
        invariant
            n == panels@.len(),
            cols@.len() == n,
            fits@ == fills(n as nat),
            split_ok(false, n as nat, area, cols@),
            k <= n,
            q == set_panels(p, panels@, cols@, k as int),
            forall|i: int| #![trigger cols@[i]] 0 <= i < cols@.len() ==> within(cols@[i], area),
            boxes_kept_or_within(p, q, area),
            q.footer == p.footer,
        decreases n - k,
    {
        q = set_panel(q, panels[k], cols[k]);
        k = k + 1;
    }
    (q, Ghost(cols@))
}

fn glance_plan(body: Rect, footer: Rect, flags: LayoutFlags) -> (r: (LayoutPlan, Ghost<PlanSplits>))
    ensures
        glance_ok(body, flags, r.1@),
        r.0 == glance_plan_spec(body, footer, flags, r.1@),
        boxes_within(r.0, body),
        r.0.footer == footer,
{
    let mid_panels = pick_exec(flags, Panel::Gpu, Panel::Mem);
    let io = io_panels(flags);
    let cpu_h: u16 = if body.height >= 10 { 5 } else { 4 };
    let mid_h: u16 = if mid_panels.len() > 0 && body.height >= cpu_h + 4 { 3 } else { 0 };
    let io_h: u16 = if io.len() > 0 && body.height >= cpu_h + mid_h + 3 { 3 } else { 0 };
    let fan_h: u16 = if flags.visible(Panel::Fans) && body.height >= cpu_h + mid_h + io_h + 3 { 3 } else { 0 };
    let mut fits: Vec<Fit> = Vec::new();
    fits.push(Fit::Length(cpu_h));
    fits.push(Fit::Length(mid_h));
    fits.push(Fit::Length(io_h));
    fits.push(Fit::Length(fan_h));
    fits.push(Fit::Fill(1));
    assert(fits@ =~= seq![Fit::Length(cpu_h), Fit::Length(mid_h), Fit::Length(io_h), Fit::Length(fan_h), Fit::Fill(1)]);
    let rows = split(true, &fits, body);
    let mut q = LayoutPlan {
        surface: Surface::Glance,
        degrade: Degrade::for_glance(body),
        cpu: Some(rows[0]),
        gpu: None,
        mem: None,
        net: None,
        disk: None,
        fans: None,
        processes: None,
        split: None,
        footer,
        expanded: None,
    };
    assert(within(rows@[0], body) && within(rows@[1], body) && within(rows@[2], body) && within(rows@[3], body));
    assert(boxes_within(q, body));
    let ghost mut row_a: Seq<Rect> = Seq::empty();
    let ghost mut row_b: Seq<Rect> = Seq::empty();
    if mid_h > 0 {
        let ghost before = q;
        let (q1, ra) = assign_row(q, rows[1], &mid_panels);
        q = q1;
        proof {
            row_a = ra@;
            lemma_boxes_step(before, q, rows@[1], body);
        }
    }
    if io_h > 0 {
        let ghost before = q;
        let (q2, rb) = assign_row(q, rows[2], &io);
        q = q2;
        proof {
            row_b = rb@;
            lemma_boxes_step(before, q, rows@[2], body);
        }
    }
    if fan_h > 0 {
        let ghost before = q;
        q.fans = Some(rows[3]);
        proof {
            assert forall|x: Panel| #[trigger] panel_rect(q, x) is Some implies within(panel_rect(q, x)->0, body) by {
                if x != Panel::Fans {
                    assert(panel_rect(q, x) == panel_rect(before, x));
                }
            }
        }
    }
    let ghost w = PlanSplits {
        chunks: Seq::empty(),
        rows: rows@,
        cols: Seq::empty(),
        row_a: row_a,
        row_b: row_b,
        row_c: Seq::empty(),
    };
    (q, Ghost(w))
}

#[verifier::rlimit(100)]
#[verifier::spinoff_prover]
fn work_plan(body: Rect, footer: Rect, flags: LayoutFlags) -> (r: (LayoutPlan, Ghost<PlanSplits>))
    ensures
        work_ok(body, flags, r.1@),
        r.0 == work_plan_spec(body, footer, flags, r.1@),
        boxes_within(r.0, body),
        r.0.footer == footer,
{
    let ratio: u16 = if flags.proc_ratio < PROC_RATIO_MIN {
        PROC_RATIO_MIN
    } else if flags.proc_ratio > PROC_RATIO_MAX {
        PROC_RATIO_MAX
    } else {
        flags.proc_ratio
    };
    proof {
        assert((body.width as int) * (ratio as int) <= 65535 * 100) by (nonlinear_arith)
            requires
                body.width <= 65535,
                ratio <= 100,
        ;
    }
    let prod: u32 = (body.width as u32) * (ratio as u32);
    let share: u16 = (prod / 100) as u16;
    assert(share == body.width * ratio / 100);
    let left_w = body.width.saturating_sub(share);
    let degrade = Degrade::for_left_rail(left_w, body.height);
    let want = share;
    let hi: u16 = if body.width >= 60 { body.width - 36 } else { 24 };
    let proc_w: u16 = if want < 24 { 24 } else if want > hi { hi } else { want };
    let mut col_fits: Vec<Fit> = Vec::new();
    col_fits.push(Fit::Fill(1));
    col_fits.push(Fit::Length(1));
    col_fits.push(Fit::Length(proc_w));
    assert(col_fits@ =~= seq![Fit::Fill(1), Fit::Length(1), Fit::Length(proc_width(body.width, flags.proc_ratio))]);
    let cols = split(false, &col_fits, body);
    let left = cols[0];
    let hero = hero_panels(flags);
    let mid = mid_panels(flags);
    let io = io_panels(flags);
    let mut weights: Vec<Fit> = Vec::new();
    if hero.len() > 0 {
        weights.push(Fit::Fill(5));
    }
    if mid.len() > 0 {
        weights.push(Fit::Fill(3));
    }
    if io.len() > 0 {
        weights.push(Fit::Fill(3));
    }
    if weights.len() == 0 {
        weights.push(Fit::Fill(1));
    }
    assert(weights@ =~= rail_weights(hero@.len() > 0, mid@.len() > 0, io@.len() > 0));
    let rows = split(true, &weights, left);
    let mut q = LayoutPlan {
        surface: Surface::Work,
        degrade,
        cpu: None,
        gpu: None,
        mem: None,
        net: None,
        disk: None,
        fans: None,
        processes: None,
        split: None,
        footer,
        expanded: None,
    };
    assert forall|i: int| 0 <= i < rows@.len() implies within(#[trigger] rows@[i], body) by {
        assert(within(cols@[0], body));
    }
    assert(boxes_within(q, body));
    let ghost mut row_a: Seq<Rect> = Seq::empty();
    let ghost mut row_b: Seq<Rect> = Seq::empty();
    let ghost mut row_c: Seq<Rect> = Seq::empty();
    let mut idx: usize = 0;
    if hero.len() > 0 {
        let ghost before = q;
        let (q1, ra) = assign_row(q, rows[idx], &hero);
        q = q1;
        proof {
            row_a = ra@;
            lemma_boxes_step(before, q, rows@[idx as int], body);
        }
        idx = idx + 1;
    }
    if mid.len() > 0 {
        let ghost before = q;
        let (q2, rb) = assign_row(q, rows[idx], &mid);
        q = q2;
        proof {
            row_b = rb@;
            lemma_boxes_step(before, q, rows@[idx as int], body);
        }
        idx = idx + 1;
    }
    if io.len() > 0 {
        let ghost before = q;
        let (q3, rc) = assign_row(q, rows[idx], &io);
        q = q3;
        proof {
            row_c = rc@;
            lemma_boxes_step(before, q, rows@[idx as int], body);
        }
    }
    let ghost before = q;
    q.split = Some(cols[1]);
    q.processes = Some(cols[2]);
    proof {
        assert(within(cols@[1], body) && within(cols@[2], body));
        assert forall|x: Panel| #[trigger] panel_rect(q, x) is Some implies within(panel_rect(q, x)->0, body) by {
            if x != Panel::Processes {
                assert(panel_rect(q, x) == panel_rect(before, x));
            }
        }
    }
    let ghost w = PlanSplits { chunks: Seq::empty(), rows: rows@, cols: cols@, row_a, row_b, row_c };
    (q, Ghost(w))
}

/// Lays out one frame of `area`, with the splits it made.
fn plan_with_splits(area: Rect, surface: Surface, flags: LayoutFlags) -> (r: (LayoutPlan, Ghost<PlanSplits>))
    ensures
        plan_ok(area, surface, flags, r.1@),
        r.0 == plan_spec(area, surface, flags, r.1@),
        boxes_within(r.0, area),
        within(r.0.footer, area),
{
    let s = if surface == Surface::Glance || area.height < WORK_MIN_HEIGHT || area.width < WORK_MIN_WIDTH {
        Surface::Glance
    } else {
        Surface::Work
    };
    let mut fits: Vec<Fit> = Vec::new();
    fits.push(Fit::Fill(1));
    fits.push(Fit::Length(1));
    assert(fits@ =~= seq![Fit::Fill(1), Fit::Length(1)]);
    let chunks = split(true, &fits, area);
    let body = chunks[0];
    let footer = chunks[1];
    assert(within(body, area) && within(footer, area));
    match flags.expanded {
        Some(panel) => {
            let q = LayoutPlan {
                surface: s,
                degrade: Degrade::Full,
                cpu: None,
                gpu: None,
                mem: None,
                net: None,
                disk: None,
                fans: None,
                processes: None,
                split: None,
                footer,
                expanded: Some(panel),
            };
            let r = set_panel(q, panel, body);
            let ghost w = PlanSplits {
                chunks: chunks@,
                rows: Seq::empty(),
                cols: Seq::empty(),
                row_a: Seq::empty(),
                row_b: Seq::empty(),
                row_c: Seq::empty(),
            };
            (r, Ghost(w))
        },
        None => {
            let (r, w0) = if s == Surface::Glance {
                glance_plan(body, footer, flags)
            } else {
                work_plan(body, footer, flags)
            };
            let ghost w = PlanSplits { chunks: chunks@, ..w0@ };
            proof {
                assert forall|x: Panel| #[trigger] panel_rect(r, x) is Some implies within(panel_rect(r, x)->0, area) by {
                    assert(within(panel_rect(r, x)->0, body));
                }
            }
            (r, Ghost(w))
        },
    }
}

/// Lays out one frame of `area`: the plan for some results of its splits
/// that meet what every split gives back.
pub fn plan(area: Rect, surface: Surface, flags: LayoutFlags) -> (r: LayoutPlan)
    ensures
        exists|w: PlanSplits| plan_ok(area, surface, flags, w) && r == plan_spec(area, surface, flags, w),
        boxes_within(r, area),
        within(r.footer, area),
{
    let (r, w) = plan_with_splits(area, surface, flags);
    assert(plan_ok(area, surface, flags, w@) && r == plan_spec(area, surface, flags, w@));
    r
}

/// `a + b` capped at `u16::MAX`.
pub open spec fn sat_add16(a: u16, b: u16) -> u16 {
    if a + b > u16::MAX { u16::MAX } else { (a + b) as u16 }
}

/// `a - b` floored at zero.
pub open spec fn sat_sub16(a: u16, b: u16) -> u16 {
    if a >= b { (a - b) as u16 } else { 0 }
}

/// The cell (`col`, `row`) lies inside `r`.
pub open spec fn rect_contains(r: Rect, col: u16, row: u16) -> bool {
    col >= r.x && col < sat_add16(r.x, r.width) && row >= r.y && row < sat_add16(r.y, r.height)
}

/// Footer chips, left to right: help, search, kill, settings, quit.
pub open spec fn footer_chip(x: u16) -> Hit {
    if x < 12 {
        Hit::Help
    } else if x < 24 {
        Hit::Search
    } else if x < 36 {
        Hit::Kill
    } else if x < 50 {
        Hit::Settings
    } else {
        Hit::Quit
    }
}

/// The first of `panels` whose expand mark holds the cell.
pub open spec fn first_expand(p: LayoutPlan, col: u16, row: u16, panels: Seq<Panel>) -> Option<Panel>
    decreases panels.len(),
{
    if panels.len() == 0 {
        None
    } else {
        match expand_spec(p, panels[0]) {
            Some(c) if rect_contains(c, col, row) => Some(panels[0]),
            _ => first_expand(p, col, row, panels.drop_first()),
        }
    }
}

/// The first of `panels` other than the process table whose box holds the cell.
pub open spec fn first_panel(p: LayoutPlan, col: u16, row: u16, panels: Seq<Panel>) -> Option<Panel>
    decreases panels.len(),
{
    if panels.len() == 0 {
        None
    } else if panels[0] != Panel::Processes && (panel_rect(p, panels[0]) matches Some(r) && rect_contains(r, col, row)) {
        Some(panels[0])
    } else {
        first_panel(p, col, row, panels.drop_first())
    }
}

/// What a click at (`col`, `row`) on the frame laid out as `p` means:
/// footer chips first, then the close mark, expand marks, the splitter, the
/// process table (its title, search line and rows), then any other box.
pub open spec fn hit_plan_spec(p: LayoutPlan, col: u16, row: u16) -> Option<Hit> {
    if row == p.footer.y {
        Some(footer_chip(sat_sub16(col, p.footer.x)))
    } else if close_spec(p) matches Some(c) && rect_contains(c, col, row) {
        Some(Hit::ExpandClose)
    } else if p.expanded is None && first_expand(p, col, row, all_panels()) is Some {
        Some(Hit::Expand(first_expand(p, col, row, all_panels())->0))
    } else {
        match p.split {
            Some(sp) if rect_contains(sp, col, row) => Some(Hit::Split),
            _ => match p.processes {
                Some(pr) if rect_contains(pr, col, row) => if p.expanded is None && row == pr.y {
                    Some(Hit::Panel(Panel::Processes))
                } else if row == sat_add16(pr.y, 1) {
                    Some(Hit::Search)
                } else if row > sat_add16(pr.y, 2) && row < sat_add16(pr.y, pr.height) {
                    Some(Hit::ProcRow(sat_sub16(row, sat_add16(pr.y, 3)) as usize))
                } else {
                    Some(Hit::Panel(Panel::Processes))
                },
                _ => match first_panel(p, col, row, all_panels()) {
                    Some(panel) => Some(Hit::Panel(panel)),
                    None => None,
                },
            },
        }
    }
}

/// Whether the cell (`col`, `row`) lies inside `rect`.
pub fn contains(rect: Rect, col: u16, row: u16) -> (r: bool)
    ensures
        r == rect_contains(rect, col, row),
{
    col >= rect.x && col < rect.x.saturating_add(rect.width) && row >= rect.y
        && row < rect.y.saturating_add(rect.height)
}

fn panel_at(i: usize) -> (p: Panel)
    requires
        i < 7,
    ensures
        p == all_panels()[i as int],
{
    match i {
        0 => Panel::Cpu,
        1 => Panel::Gpu,
        2 => Panel::Mem,
        3 => Panel::Net,
        4 => Panel::Disk,
        5 => Panel::Fans,
        _ => Panel::Processes,
    }
}

/// Maps a click to what it hit on a screen laid out as `planned`.
#[verifier::loop_isolation(false)]
pub fn hit_test_plan(planned: &LayoutPlan, col: u16, row: u16) -> (r: Option<Hit>)
    ensures
        r == hit_plan_spec(*planned, col, row),
{
    let planned = *planned;
    if row == planned.footer.y {
        let x = col.saturating_sub(planned.footer.x);
        return Some(if x < 12 {
            Hit::Help
        } else if x < 24 {
            Hit::Search
        } else if x < 36 {
            Hit::Kill
        } else if x < 50 {
            Hit::Settings
        } else {
            Hit::Quit
        });
    }
    if let Some(close) = planned.close_hit() {
        if contains(close, col, row) {
            return Some(Hit::ExpandClose);
        }
    }
    assert(all_panels().subrange(0, 7) =~= all_panels());
    if planned.expanded.is_none() {
        let mut i: usize = 0;
        while i < 7
            invariant
                i <= 7,
                planned.expanded is None,
                first_expand(planned, col, row, all_panels()) == first_expand(
                    planned,
                    col,
                    row,
                    all_panels().subrange(i as int, 7),
                ),
            decreases 7 - i,
        {
            let panel = panel_at(i);
            let ghost rest = all_panels().subrange(i as int, 7);
            assert(rest[0] == panel);
            assert(rest.drop_first() =~= all_panels().subrange(i as int + 1, 7));
            if let Some(corner) = planned.expand_hit(panel) {
                if contains(corner, col, row) {
                    return Some(Hit::Expand(panel));
                }
            }
            i = i + 1;
        }
    }
    if let Some(sp) = planned.split {
        if contains(sp, col, row) {
            return Some(Hit::Split);
        }
    }
    if let Some(pr) = planned.processes {
        if contains(pr, col, row) {
            if planned.expanded.is_none() && row == pr.y {
                return Some(Hit::Panel(Panel::Processes));
            }
            if row == pr.y.saturating_add(1) {
                return Some(Hit::Search);
            }
            if row > pr.y.saturating_add(2) && row < pr.y.saturating_add(pr.height) {
                let idx = row.saturating_sub(pr.y.saturating_add(3)) as usize;
                return Some(Hit::ProcRow(idx));
            }
            return Some(Hit::Panel(Panel::Processes));
        }
    }
    let mut j: usize = 0;
    while j < 7
        invariant
            j <= 7,
            first_panel(planned, col, row, all_panels()) == first_panel(
                planned,
                col,
                row,
                all_panels().subrange(j as int, 7),
            ),
        decreases 7 - j,
    {
        let panel = panel_at(j);
        let ghost rest = all_panels().subrange(j as int, 7);
        assert(rest[0] == panel);
        assert(rest.drop_first() =~= all_panels().subrange(j as int + 1, 7));
        if panel != Panel::Processes {
            if let Some(rect) = planned.panel(panel) {
                if contains(rect, col, row) {
                    return Some(Hit::Panel(panel));
                }
            }
        }
        j = j + 1;
    }
    assert(all_panels().subrange(7, 7).len() == 0);
    None
}

/// Maps a click to what it hit on a frame that `plan` lays out for `area`.
/// The frame is laid out anew, so where the splits could fall more than
/// one way it need not be the frame that was drawn; a click on a drawn
/// frame is read with `hit_test_plan`.
pub fn hit_test(area: Rect, surface: Surface, flags: LayoutFlags, col: u16, row: u16) -> (r: Option<Hit>)
    ensures
        exists|w: PlanSplits|
            plan_ok(area, surface, flags, w) && r == hit_plan_spec(plan_spec(area, surface, flags, w), col, row),
{
    let (planned, w) = plan_with_splits(area, surface, flags);
    let r = hit_test_plan(&planned, col, row);
    assert(plan_ok(area, surface, flags, w@) && r == hit_plan_spec(plan_spec(area, surface, flags, w@), col, row));
    r
}


proof fn lemma_set_panels_untouched(p: LayoutPlan, panels: Seq<Panel>, rects: Seq<Rect>, n: int, q: Panel)
    requires
        0 <= n <= panels.len(),
        forall|i: int| 0 <= i < n ==> panels[i] != q,
    ensures
        panel_rect(set_panels(p, panels, rects, n), q) == panel_rect(p, q),
        set_panels(p, panels, rects, n).split == p.split,
        set_panels(p, panels, rects, n).surface == p.surface,
        set_panels(p, panels, rects, n).expanded == p.expanded,
        set_panels(p, panels, rects, n).degrade == p.degrade,
        set_panels(p, panels, rects, n).footer == p.footer,
    decreases n,
{
    if n > 0 {
        lemma_set_panels_untouched(p, panels, rects, n - 1, q);
    }
}

proof fn lemma_assign_row_untouched(p: LayoutPlan, area: Rect, panels: Seq<Panel>, cols: Seq<Rect>, q: Panel)
    requires
        !panels.contains(q),
    ensures
        panel_rect(assign_row_spec(p, area, panels, cols), q) == panel_rect(p, q),
        assign_row_spec(p, area, panels, cols).split == p.split,
        assign_row_spec(p, area, panels, cols).surface == p.surface,
        assign_row_spec(p, area, panels, cols).expanded == p.expanded,
        assign_row_spec(p, area, panels, cols).degrade == p.degrade,
        assign_row_spec(p, area, panels, cols).footer == p.footer,
{
    if !(panels.len() == 0 || area.width == 0 || area.height == 0) {
        assert forall|i: int| 0 <= i < panels.len() implies panels[i] != q by {
            if panels[i] == q {
                assert(panels.contains(q));
            }
        }
        lemma_set_panels_untouched(p, panels, cols, panels.len() as int, q);
    }
}

/// Work falls back to glance on screens narrower than 60 or shorter than 16
/// cells, whatever the preferences (so the process column clamp can never
/// invert).
pub proof fn law_small_screens_are_glance(area: Rect, flags: LayoutFlags, w: PlanSplits)
    requires
        area.width < WORK_MIN_WIDTH || area.height < WORK_MIN_HEIGHT,
    ensures
        plan_spec(area, Surface::Work, flags, w).surface == Surface::Glance,
{
    let chunks = w.chunks;
    if let Some(panel) = flags.expanded {
        let base = LayoutPlan { expanded: Some(panel), ..empty_plan_spec(Surface::Glance, Degrade::Full, chunks[1]) };
        assert(set_panel_spec(base, panel, chunks[0]).surface == Surface::Glance);
    } else {
        let body = chunks[0];
        let p0 = LayoutPlan {
            cpu: Some(w.rows[0]),
            ..empty_plan_spec(Surface::Glance, glance_degrade(body), chunks[1])
        };
        let rows = w.rows;
        lemma_assign_row_untouched(p0, rows[1], pick(flags, Panel::Gpu, Panel::Mem), w.row_a, Panel::Processes);
        let p1 = if glance_mid_h(body, flags) > 0 { assign_row_spec(p0, rows[1], pick(flags, Panel::Gpu, Panel::Mem), w.row_a) } else { p0 };
        lemma_assign_row_untouched(p1, rows[2], pick(flags, Panel::Net, Panel::Disk), w.row_b, Panel::Processes);
    }
}

/// The work gate: a frame is drawn as the work surface exactly when work
/// was asked for and the screen is at least 60 wide and 16 tall. Below the
/// gate it falls back to glance, which has no process table and no
/// splitter; it never squeezes the work layout.
pub proof fn law_work_gate(area: Rect, surface: Surface, flags: LayoutFlags, w: PlanSplits)
    ensures
        plan_spec(area, surface, flags, w).surface == Surface::Work <==> (surface == Surface::Work && area.width
            >= WORK_MIN_WIDTH && area.height >= WORK_MIN_HEIGHT),
        flags.expanded is None && plan_spec(area, surface, flags, w).surface == Surface::Glance ==> plan_spec(
            area,
            surface,
            flags,
            w,
        ).processes is None && plan_spec(area, surface, flags, w).split is None,
{
    let chunks = w.chunks;
    let s = effective_surface(area, surface);
    if let Some(panel) = flags.expanded {
        let base = LayoutPlan { expanded: Some(panel), ..empty_plan_spec(s, Degrade::Full, chunks[1]) };
        assert(set_panel_spec(base, panel, chunks[0]).surface == s);
    } else if s == Surface::Glance {
        law_glance_has_no_process_table(area, surface, flags, w);
    } else {
        law_work_has_process_table(area, surface, flags, w);
    }
}

/// Splitting a screen into body and footer (`Fill(1)`, `Length(1)`) gives
/// the footer the bottom row and the body everything above it.
pub(crate) proof fn lemma_body_footer(area: Rect, chunks: Seq<Rect>)
    requires
        split_fits(true, seq![Fit::Fill(1), Fit::Length(1)], area, chunks),
        area.height >= 1,
        area.y + area.height <= u16::MAX,
    ensures
        chunks[0] == (Rect { x: area.x, y: area.y, width: area.width, height: (area.height - 1) as u16 }),
        chunks[1] == (Rect { x: area.x, y: (area.y + area.height - 1) as u16, width: area.width, height: 1 }),
{
    let fits = seq![Fit::Fill(1), Fit::Length(1)];
    assert(fits.drop_last() =~= seq![Fit::Fill(1)]);
    assert(fits.drop_last().drop_last() =~= Seq::<Fit>::empty());
    assert(lengths_total(fits.drop_last().drop_last()) == 0);
    assert(fits.drop_last().last() == Fit::Fill(1));
    assert(lengths_total(fits.drop_last()) == 0);
    assert(fits.last() == Fit::Length(1));
    assert(lengths_total(fits) == 1);
    assert(fits[0] is Fill);
    assert(has_fill(fits));
    assert(fits[1] is Length);
    assert(chunks[1].height == 1);
    assert(lo(true, chunks[1]) == lo(true, chunks[0]) + extent(true, chunks[0]));
    assert(chunks.last() == chunks[1]);
}

/// An expanded box is the only box and never degrades: it gets the body
/// (the screen's full width above the footer row), at full detail, with no
/// splitter.
pub proof fn law_expanded_box_is_alone(area: Rect, surface: Surface, flags: LayoutFlags, w: PlanSplits, other: Panel)
    requires
        flags.expanded is Some,
    ensures
        plan_spec(area, surface, flags, w).expanded == flags.expanded,
        plan_spec(area, surface, flags, w).degrade == Degrade::Full,
        plan_spec(area, surface, flags, w).split is None,
        panel_rect(plan_spec(area, surface, flags, w), flags.expanded->0)
            == Some(w.chunks[0]),
        plan_spec(area, surface, flags, w).footer == w.chunks[1],
        plan_ok(area, surface, flags, w) ==> w.chunks[0].x == area.x && w.chunks[0].width == area.width
            && within(w.chunks[0], area),
        plan_ok(area, surface, flags, w) && area.height >= 1 && area.y + area.height <= u16::MAX ==> {
            &&& panel_rect(plan_spec(area, surface, flags, w), flags.expanded->0) == Some(
                Rect { height: (area.height - 1) as u16, ..area },
            )
            &&& plan_spec(area, surface, flags, w).footer == (Rect {
                y: (area.y + area.height - 1) as u16,
                height: 1,
                ..area
            })
        },
        other != flags.expanded->0 ==> panel_rect(plan_spec(area, surface, flags, w), other) is None,
{
    if plan_ok(area, surface, flags, w) {
        assert(w.chunks.len() == 2);
        let c = w.chunks[0];
        assert(c.x == area.x && c.width == area.width);
        if area.height >= 1 && area.y + area.height <= u16::MAX {
            lemma_body_footer(area, w.chunks);
        }
    }
}

/// The glance surface never shows the process table or the splitter, and
/// always shows the cpu box.
pub proof fn law_glance_has_no_process_table(area: Rect, surface: Surface, flags: LayoutFlags, w: PlanSplits)
    requires
        effective_surface(area, surface) == Surface::Glance,
        flags.expanded is None,
    ensures
        plan_spec(area, surface, flags, w).surface == Surface::Glance,
        plan_spec(area, surface, flags, w).processes is None,
        plan_spec(area, surface, flags, w).split is None,
        plan_spec(area, surface, flags, w).cpu is Some,
{
    let chunks = w.chunks;
    let body = chunks[0];
    let rows = w.rows;
    let p0 = LayoutPlan { cpu: Some(rows[0]), ..empty_plan_spec(Surface::Glance, glance_degrade(body), chunks[1]) };
    let mid = pick(flags, Panel::Gpu, Panel::Mem);
    let io = pick(flags, Panel::Net, Panel::Disk);
    assert(!mid.contains(Panel::Processes)) by {
        if mid.contains(Panel::Processes) {
            let i = choose|i: int| 0 <= i < mid.len() && mid[i] == Panel::Processes;
        }
    }
    assert(!mid.contains(Panel::Cpu)) by {
        if mid.contains(Panel::Cpu) {
            let i = choose|i: int| 0 <= i < mid.len() && mid[i] == Panel::Cpu;
        }
    }
    assert(!io.contains(Panel::Processes)) by {
        if io.contains(Panel::Processes) {
            let i = choose|i: int| 0 <= i < io.len() && io[i] == Panel::Processes;
        }
    }
    assert(!io.contains(Panel::Cpu)) by {
        if io.contains(Panel::Cpu) {
            let i = choose|i: int| 0 <= i < io.len() && io[i] == Panel::Cpu;
        }
    }
    lemma_assign_row_untouched(p0, rows[1], mid, w.row_a, Panel::Processes);
    lemma_assign_row_untouched(p0, rows[1], mid, w.row_a, Panel::Cpu);
    let p1 = if glance_mid_h(body, flags) > 0 { assign_row_spec(p0, rows[1], mid, w.row_a) } else { p0 };
    lemma_assign_row_untouched(p1, rows[2], io, w.row_b, Panel::Processes);
    lemma_assign_row_untouched(p1, rows[2], io, w.row_b, Panel::Cpu);
}

/// The work surface always has the process table and the splitter next to it.
pub proof fn law_work_has_process_table(area: Rect, surface: Surface, flags: LayoutFlags, w: PlanSplits)
    requires
        effective_surface(area, surface) == Surface::Work,
        flags.expanded is None,
    ensures
        plan_spec(area, surface, flags, w).surface == Surface::Work,
        plan_spec(area, surface, flags, w).processes is Some,
        plan_spec(area, surface, flags, w).split is Some,
        plan_spec(area, surface, flags, w).expanded is None,
{
    let chunks = w.chunks;
    let body = chunks[0];
    let footer = chunks[1];
    let q = Panel::Processes;
    assert forall|a: Panel, b: Panel| a != q && b != q implies !pick(flags, a, b).contains(q) by {
        if pick(flags, a, b).contains(q) {
            let i = choose|i: int| 0 <= i < pick(flags, a, b).len() && pick(flags, a, b)[i] == q;
        }
    }
    let ratio = clamp_ratio(flags.proc_ratio);
    let left_w: u16 = if body.width >= body.width * ratio / 100 { (body.width - body.width * ratio / 100) as u16 } else { 0 };
    let cols = w.cols;
    let hero = pick(flags, Panel::Cpu, Panel::Gpu);
    let mid = pick(flags, Panel::Mem, Panel::Fans);
    let io = pick(flags, Panel::Net, Panel::Disk);
    let rows = w.rows;
    let i_mid: int = if hero.len() > 0 { 1 } else { 0 };
    let i_io: int = i_mid + if mid.len() > 0 { 1int } else { 0 };
    let p0 = empty_plan_spec(Surface::Work, left_rail_degrade(left_w, body.height), footer);
    lemma_assign_row_untouched(p0, rows[0], hero, w.row_a, q);
    let p1 = if hero.len() > 0 { assign_row_spec(p0, rows[0], hero, w.row_a) } else { p0 };
    lemma_assign_row_untouched(p1, rows[i_mid], mid, w.row_b, q);
    let p2 = if mid.len() > 0 { assign_row_spec(p1, rows[i_mid], mid, w.row_b) } else { p1 };
    lemma_assign_row_untouched(p2, rows[i_io], io, w.row_c, q);
}

/// A box the preferences or the hardware hide is never placed (unless it is
/// the expanded one).
pub proof fn law_hidden_boxes_stay_off(area: Rect, surface: Surface, flags: LayoutFlags, w: PlanSplits, panel: Panel)
    requires
        !visible_spec(flags, panel),
        flags.expanded is None,
    ensures
        panel_rect(plan_spec(area, surface, flags, w), panel) is None,
{
    let chunks = w.chunks;
    let body = chunks[0];
    let footer = chunks[1];
    assert forall|a: Panel, b: Panel| !pick(flags, a, b).contains(panel) by {
        if pick(flags, a, b).contains(panel) {
            let i = choose|i: int| 0 <= i < pick(flags, a, b).len() && pick(flags, a, b)[i] == panel;
        }
    }
    if effective_surface(area, surface) == Surface::Glance {
        let rows = w.rows;
        let p0 = LayoutPlan { cpu: Some(rows[0]), ..empty_plan_spec(Surface::Glance, glance_degrade(body), footer) };
        lemma_assign_row_untouched(p0, rows[1], pick(flags, Panel::Gpu, Panel::Mem), w.row_a, panel);
        let p1 = if glance_mid_h(body, flags) > 0 { assign_row_spec(p0, rows[1], pick(flags, Panel::Gpu, Panel::Mem), w.row_a) } else { p0 };
        lemma_assign_row_untouched(p1, rows[2], pick(flags, Panel::Net, Panel::Disk), w.row_b, panel);
    } else {
        let ratio = clamp_ratio(flags.proc_ratio);
        let left_w: u16 = if body.width >= body.width * ratio / 100 { (body.width - body.width * ratio / 100) as u16 } else { 0 };
        let cols = w.cols;
        let hero = pick(flags, Panel::Cpu, Panel::Gpu);
        let mid = pick(flags, Panel::Mem, Panel::Fans);
        let io = pick(flags, Panel::Net, Panel::Disk);
        let rows = w.rows;
        let i_mid: int = if hero.len() > 0 { 1 } else { 0 };
        let i_io: int = i_mid + if mid.len() > 0 { 1int } else { 0 };
        let p0 = empty_plan_spec(Surface::Work, left_rail_degrade(left_w, body.height), footer);
        lemma_assign_row_untouched(p0, rows[0], hero, w.row_a, panel);
        let p1 = if hero.len() > 0 { assign_row_spec(p0, rows[0], hero, w.row_a) } else { p0 };
        lemma_assign_row_untouched(p1, rows[i_mid], mid, w.row_b, panel);
        let p2 = if mid.len() > 0 { assign_row_spec(p1, rows[i_mid], mid, w.row_b) } else { p1 };
        lemma_assign_row_untouched(p2, rows[i_io], io, w.row_c, panel);
    }
}

/// A click on the footer row always lands on one of its chips.
pub proof fn law_footer_row_hits_a_chip(p: LayoutPlan, col: u16)
    ensures
        hit_plan_spec(p, col, p.footer.y) == Some(footer_chip(sat_sub16(col, p.footer.x))),
{
}

proof fn lemma_corner_inside(area: Rect, col: u16, row: u16)
    requires
        corner_spec(area) matches Some(c) && rect_contains(c, col, row),
    ensures
        rect_contains(area, col, row),
{
}

proof fn lemma_first_expand(p: LayoutPlan, col: u16, row: u16, panels: Seq<Panel>, panel: Panel)
    requires
        p.expanded is None,
        forall|q: Panel| q != panel && #[trigger] panel_rect(p, q) is Some ==> !rect_contains(panel_rect(p, q)->0, col, row),
    ensures
        first_expand(p, col, row, panels) == if panels.contains(panel) && (expand_spec(p, panel) matches Some(c)
            && rect_contains(c, col, row)) {
            Some(panel)
        } else {
            None
        },
    decreases panels.len(),
{
    if panels.len() > 0 {
        let rest = panels.drop_first();
        lemma_first_expand(p, col, row, rest, panel);
        if panels[0] != panel {
            if let Some(area) = panel_rect(p, panels[0]) {
                if corner_spec(area) matches Some(c) && rect_contains(c, col, row) {
                    lemma_corner_inside(area, col, row);
                }
            }
            assert(panels.contains(panel) == rest.contains(panel)) by {
                if panels.contains(panel) {
                    let i = choose|i: int| 0 <= i < panels.len() && panels[i] == panel;
                    assert(rest[i - 1] == panel);
                }
                if rest.contains(panel) {
                    let i = choose|i: int| 0 <= i < rest.len() && rest[i] == panel;
                    assert(panels[i + 1] == panel);
                }
            }
        } else {
            assert(panels.contains(panel)) by {
                assert(panels[0] == panel);
            }
        }
    }
}

proof fn lemma_first_panel(p: LayoutPlan, col: u16, row: u16, panels: Seq<Panel>, panel: Panel)
    requires
        panels.contains(panel),
        panel != Panel::Processes,
        panel_rect(p, panel) matches Some(r) && rect_contains(r, col, row),
        forall|q: Panel| q != panel && #[trigger] panel_rect(p, q) is Some ==> !rect_contains(panel_rect(p, q)->0, col, row),
    ensures
        first_panel(p, col, row, panels) == Some(panel),
    decreases panels.len(),
{
    if panels[0] != panel {
        let rest = panels.drop_first();
        let i = choose|i: int| 0 <= i < panels.len() && panels[i] == panel;
        assert(rest[i - 1] == panel);
        lemma_first_panel(p, col, row, rest, panel);
    }
}

/// On a frame laid out as `p` with no box expanded, a click inside a box
/// other than the process table, off the footer row and the splitter and
/// in no other box, hits that box: its expand mark when the click is on the
/// mark, else the box itself.
pub proof fn law_click_in_box_hits_box(p: LayoutPlan, panel: Panel, col: u16, row: u16)
    requires
        p.expanded is None,
        panel != Panel::Processes,
        panel_rect(p, panel) matches Some(r) && rect_contains(r, col, row),
        row != p.footer.y,
        forall|q: Panel| q != panel && #[trigger] panel_rect(p, q) is Some ==> !rect_contains(panel_rect(p, q)->0, col, row),
        p.split matches Some(s) ==> !rect_contains(s, col, row),
    ensures
        hit_plan_spec(p, col, row) == Some(
            if corner_spec(panel_rect(p, panel)->0) matches Some(c) && rect_contains(c, col, row) {
                Hit::Expand(panel)
            } else {
                Hit::Panel(panel)
            },
        ),
{
    let all = all_panels();
    assert(all.contains(panel)) by {
        match panel {
            Panel::Cpu => assert(all[0] == panel),
            Panel::Gpu => assert(all[1] == panel),
            Panel::Mem => assert(all[2] == panel),
            Panel::Net => assert(all[3] == panel),
            Panel::Disk => assert(all[4] == panel),
            Panel::Fans => assert(all[5] == panel),
            Panel::Processes => assert(all[6] == panel),
        }
    }
    lemma_first_expand(p, col, row, all, panel);
    lemma_first_panel(p, col, row, all, panel);
    if let Some(pr) = p.processes {
        assert(panel_rect(p, Panel::Processes) is Some);
    }
}

} // verus!
