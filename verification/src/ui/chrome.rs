use vstd::prelude::*;
use crate::snapshot::Thermal;
use crate::ui::layout::{sat_add16, sat_sub16, Rect};

verus! {

/// Axis labelling style of a graph.
#[derive(Debug, Clone, Copy, PartialEq, Eq, Structural)]
pub enum Axis {
    Blank,
    Percent,
    Bits,
    Bytes,
    Celsius,
    Number,
}

/// How a graph is inked: flat, or tinted by the thermal state.
#[derive(Debug, Clone, Copy, PartialEq, Eq, Structural)]
pub enum GraphInk {
    Flat,
    Load(Thermal),
}

/// Width of the tick-label gutter: 7 columns for bit and byte rates on graphs
/// at least 2 rows tall and more than 13 columns wide, otherwise none.
pub open spec fn axis_gutter_spec(axis: Axis, width: u16, height: u16) -> u16 {
    if height < 2 {
        0
    } else if (axis == Axis::Bits || axis == Axis::Bytes) && width > 13 {
        7
    } else {
        0
    }
}

/// Columns reserved left of a graph for tick labels.
pub fn axis_gutter(axis: Axis, width: u16, height: u16) -> (g: u16)
    ensures
        g == axis_gutter_spec(axis, width, height),
{
    if height < 2 {
        return 0;
    }
    let need: u16 = match axis {
        Axis::Blank | Axis::Percent | Axis::Celsius | Axis::Number => 0,
        Axis::Bits | Axis::Bytes => 7,
    };
    if need == 0 || width <= need + 6 {
        0
    } else {
        need
    }
}

/// Where the parts of a graph go in its area.
#[derive(Debug, Clone, Copy, PartialEq, Eq, Structural)]
pub struct GraphPlan {
    /// Columns on the left kept for tick labels.
    pub gutter: u16,
    /// The plot: the area right of the gutter.
    pub plot: Rect,
    /// Whether anything is drawn at all.
    pub drawn: bool,
    /// Whether the plot is one row, drawn as a spark line.
    pub spark: bool,
    /// Where the label of the scale's top goes, if shown.
    pub top_hint: Option<Rect>,
    /// Where the label of the scale's (positive) bottom goes, if shown.
    pub bottom_hint: Option<Rect>,
    /// How many tick labels stack in the gutter: 5, 3, 1, or none.
    pub ticks: u8,
}

/// Whether a graph of `axis` labels the top of its scale in the plot: a
/// temperature or a count always, a percentage when its scale adapts.
pub open spec fn shows_hint(axis: Axis, hints_axis: bool) -> bool {
    axis == Axis::Celsius || axis == Axis::Number || (hints_axis && axis == Axis::Percent)
}

/// The layout of a graph in `area`: the gutter for `axis`; the plot right
/// of it; nothing drawn on an empty area or plot; a spark line for a
/// one-row plot; otherwise braille rows, with a top hint (5 columns at
/// most) on plots at least 3 rows tall and 10 wide when the axis shows one,
/// a bottom hint as well when the scale's floor is above zero and the plot
/// is at least 4 rows tall, and tick labels in the gutter when there is one
/// (5 on areas at least 5 rows tall, 3 from 3 rows, else 1).
pub open spec fn graph_plan_spec(area: Rect, axis: Axis, hints_axis: bool, min_positive: bool) -> GraphPlan {
    let gutter = axis_gutter_spec(axis, area.width, area.height);
    let plot = Rect {
        x: sat_add16(area.x, gutter),
        y: area.y,
        width: sat_sub16(area.width, gutter),
        height: area.height,
    };
    let drawn = area.width > 0 && area.height > 0 && plot.width > 0;
    let spark = drawn && plot.height == 1;
    let full = drawn && !spark;
    let hint_w: u16 = if plot.width < 5 { plot.width } else { 5 };
    let top = if full && shows_hint(axis, hints_axis) && plot.height >= 3 && plot.width >= 10 {
        Some(Rect { x: plot.x, y: plot.y, width: hint_w, height: 1 })
    } else {
        None
    };
    let bottom = if top is Some && min_positive && plot.height >= 4 {
        Some(Rect { x: plot.x, y: sat_add16(plot.y, sat_sub16(plot.height, 1)), width: hint_w, height: 1 })
    } else {
        None
    };
    let ticks: u8 = if full && gutter > 0 {
        if area.height >= 5 {
            5
        } else if area.height >= 3 {
            3
        } else {
            1
        }
    } else {
        0
    };
    GraphPlan { gutter, plot, drawn, spark, top_hint: top, bottom_hint: bottom, ticks }
}

/// Lays out a graph in `area`, given its axis, whether its scale adapts to
/// the data, and whether the scale's floor is above zero.
pub fn graph_plan(area: Rect, axis: Axis, hints_axis: bool, min_positive: bool) -> (p: GraphPlan)
    ensures
        p == graph_plan_spec(area, axis, hints_axis, min_positive),
{
    let gutter = axis_gutter(axis, area.width, area.height);
    let plot = Rect {
        x: area.x.saturating_add(gutter),
        y: area.y,
        width: area.width.saturating_sub(gutter),
        height: area.height,
    };
    let drawn = area.width > 0 && area.height > 0 && plot.width > 0;
    let spark = drawn && plot.height == 1;
    let full = drawn && !spark;
    let show = match axis {
        Axis::Celsius | Axis::Number => true,
        Axis::Percent => hints_axis,
        _ => false,
    };
    let hint_w: u16 = if plot.width < 5 { plot.width } else { 5 };
    let top = if full && show && plot.height >= 3 && plot.width >= 10 {
        Some(Rect { x: plot.x, y: plot.y, width: hint_w, height: 1 })
    } else {
        None
    };
    let bottom = if top.is_some() && min_positive && plot.height >= 4 {
        Some(Rect { x: plot.x, y: plot.y.saturating_add(plot.height.saturating_sub(1)), width: hint_w, height: 1 })
    } else {
        None
    };
    let ticks: u8 = if full && gutter > 0 {
        if area.height >= 5 {
            5
        } else if area.height >= 3 {
            3
        } else {
            1
        }
    } else {
        0
    };
    GraphPlan { gutter, plot, drawn, spark, top_hint: top, bottom_hint: bottom, ticks }
}

/// The `i`-th of `n` tick labels: its value in quarters of the scale's
/// top, from the top down.
pub open spec fn tick_quarters(n: u8, i: u8) -> u8 {
    if n == 5 {
        (4 - i) as u8
    } else if n == 3 {
        (4 - 2 * i) as u8
    } else {
        4
    }
}

/// The row of a tick at `quarters` of the top in `area`: the top row for
/// the whole scale, the bottom row for zero, and the row that far down in
/// between.
pub open spec fn tick_row_spec(area: Rect, quarters: u8) -> u16 {
    if quarters == 0 {
        (area.y + area.height - 1) as u16
    } else {
        (area.y + area.height * (4 - quarters) / 4) as u16
    }
}

/// The `i`-th of the `n` tick labels of a graph in `area`: its value in
/// quarters of the top, and its row.
pub fn tick_row(area: Rect, n: u8, i: u8) -> (r: (u8, u16))
    requires
        n == 5 || n == 3 || n == 1,
        i < n,
        area.height >= n,
        area.y + area.height <= u16::MAX,
    ensures
        r.0 == tick_quarters(n, i),
        r.1 == tick_row_spec(area, r.0),
        area.y <= r.1 < area.y + area.height,
{
    let q: u8 = if n == 5 {
        4 - i
    } else if n == 3 {
        4 - 2 * i
    } else {
        4
    };
    if q == 0 {
        (q, area.y + area.height - 1)
    } else {
        proof {
            assert((area.height as int) * ((4 - q) as int) <= (area.height as int) * 3) by (nonlinear_arith)
                requires
                    1 <= q <= 4,
            ;
            assert((area.height as int) * ((4 - q) as int) / 4 < area.height) by (nonlinear_arith)
                requires
                    1 <= q <= 4,
                    area.height >= 1,
            ;
        }
        let down: u32 = (area.height as u32) * ((4 - q) as u32) / 4;
        (q, area.y + down as u16)
    }
}

} // verus!
