//! Where the boxes of a planned frame lie with respect to one another, and
//! what a click on them hits.
use vstd::prelude::*;
use crate::surface::Surface;
use crate::ui::layout::{
    apart, assign_ok, assign_row_spec, effective_surface, extent, fills, has_fill, hit_plan_spec,
    law_click_in_box_hits_box, lemma_body_footer, lemma_fills_total, work_cols, work_plan_spec, work_ok, empty_plan_spec,
    left_rail_degrade, clamp_ratio, within, glance_plan_spec, glance_ok, glance_fits, glance_degrade, glance_cpu_h,
    glance_mid_h, glance_io_h, glance_fan_h, footer_chip, sat_sub16, lemma_tiled_ordered, lengths_total, lo, panel_rect, pick,
    plan_ok, plan_spec, proc_width, rail_weights, rect_contains, sat_add16, set_panel_spec, set_panels, split_fits,
    tiled, corner_spec, Fit, Hit, LayoutFlags, LayoutPlan, Panel, PlanSplits, Rect,
};

verus! {

/// No two boxes of `p` share a cell, and the splitter shares none with any
/// box.
pub open spec fn boxes_apart(p: LayoutPlan) -> bool {
    &&& forall|a: Panel, b: Panel|
        #![trigger panel_rect(p, a), panel_rect(p, b)]
        a != b && panel_rect(p, a) is Some && panel_rect(p, b) is Some ==> apart(
            panel_rect(p, a)->0,
            panel_rect(p, b)->0,
        )
    &&& forall|a: Panel|
        #![trigger panel_rect(p, a)]
        p.split is Some && panel_rect(p, a) is Some ==> apart(p.split->0, panel_rect(p, a)->0)
}

proof fn lemma_apart_excludes(a: Rect, b: Rect, col: u16, row: u16)
    requires
        apart(a, b) || apart(b, a),
        rect_contains(a, col, row),
    ensures
        !rect_contains(b, col, row),
{
}

/// On a frame laid out as `p` whose boxes lie apart, with no box expanded,
/// a click inside a box other than the process table and off the footer row
/// hits that box: its expand mark when the click is on the mark, else the
/// box itself.
pub proof fn law_click_hits_the_box_under_it(p: LayoutPlan, panel: Panel, col: u16, row: u16)
    requires
        boxes_apart(p),
        p.expanded is None,
        panel != Panel::Processes,
        panel_rect(p, panel) matches Some(r) && rect_contains(r, col, row),
        row != p.footer.y,
    ensures
        hit_plan_spec(p, col, row) == Some(
            if corner_spec(panel_rect(p, panel)->0) matches Some(c) && rect_contains(c, col, row) {
                Hit::Expand(panel)
            } else {
                Hit::Panel(panel)
            },
        ),
{
    let r = panel_rect(p, panel)->0;
    assert forall|q: Panel| q != panel && #[trigger] panel_rect(p, q) is Some implies !rect_contains(
        panel_rect(p, q)->0,
        col,
        row,
    ) by {
        lemma_apart_excludes(r, panel_rect(p, q)->0, col, row);
    }
    if let Some(s) = p.split {
        lemma_apart_excludes(r, s, col, row);
    }
    law_click_in_box_hits_box(p, panel, col, row);
}

/// Where `q` lands when `ps` are placed side by side in the columns `cols`
/// of `row`, over what it had before (`prev`).
pub open spec fn placed(prev: Option<Rect>, row: Rect, ps: Seq<Panel>, cols: Seq<Rect>, q: Panel) -> Option<Rect> {
    if ps.len() == 0 || row.width == 0 || row.height == 0 {
        prev
    } else if ps.len() >= 2 && ps[1] == q {
        Some(cols[1])
    } else if ps[0] == q {
        Some(cols[0])
    } else {
        prev
    }
}

proof fn lemma_set_panel_rect(p: LayoutPlan, a: Panel, r: Rect, q: Panel)
    ensures
        panel_rect(set_panel_spec(p, a, r), q) == if q == a { Some(r) } else { panel_rect(p, q) },
        set_panel_spec(p, a, r).split == p.split,
        set_panel_spec(p, a, r).expanded == p.expanded,
        set_panel_spec(p, a, r).footer == p.footer,
{
}

proof fn lemma_assign_rect(p: LayoutPlan, row: Rect, ps: Seq<Panel>, cols: Seq<Rect>, q: Panel)
    requires
        ps.len() <= 2,
    ensures
        panel_rect(assign_row_spec(p, row, ps, cols), q) == placed(panel_rect(p, q), row, ps, cols, q),
        assign_row_spec(p, row, ps, cols).split == p.split,
        assign_row_spec(p, row, ps, cols).expanded == p.expanded,
        assign_row_spec(p, row, ps, cols).footer == p.footer,
{
    if !(ps.len() == 0 || row.width == 0 || row.height == 0) {
        let one = set_panels(p, ps, cols, 1);
        assert(set_panels(p, ps, cols, 0) == p);
        assert(one == set_panel_spec(p, ps[0], cols[0]));
        lemma_set_panel_rect(p, ps[0], cols[0], q);
        if ps.len() == 2 {
            assert(set_panels(p, ps, cols, 2) == set_panel_spec(one, ps[1], cols[1]));
            lemma_set_panel_rect(one, ps[1], cols[1], q);
        }
    }
}

proof fn lemma_pick(flags: LayoutFlags, a: Panel, b: Panel)
    ensures
        pick(flags, a, b).len() <= 2,
        pick(flags, a, b).len() == 2 ==> pick(flags, a, b)[0] == a && pick(flags, a, b)[1] == b,
        pick(flags, a, b).len() == 1 ==> pick(flags, a, b)[0] == a || pick(flags, a, b)[0] == b,
{
}

/// Where box `q` lands on the work surface laid out with splits `w`.
pub open spec fn work_box(flags: LayoutFlags, w: PlanSplits, q: Panel) -> Option<Rect> {
    let hero = pick(flags, Panel::Cpu, Panel::Gpu);
    let mid = pick(flags, Panel::Mem, Panel::Fans);
    let io = pick(flags, Panel::Net, Panel::Disk);
    match q {
        Panel::Processes => Some(w.cols[2]),
        Panel::Cpu | Panel::Gpu => placed(None, w.rows[0], hero, w.row_a, q),
        Panel::Mem | Panel::Fans => placed(None, w.rows[1], mid, w.row_b, q),
        Panel::Net | Panel::Disk => if io.len() > 0 {
            placed(None, w.rows[2], io, w.row_c, q)
        } else {
            None
        },
    }
}

proof fn lemma_work_boxes(body: Rect, footer: Rect, flags: LayoutFlags, w: PlanSplits)
    ensures
        forall|q: Panel|
            #![trigger panel_rect(work_plan_spec(body, footer, flags, w), q)]
            panel_rect(work_plan_spec(body, footer, flags, w), q) == work_box(flags, w, q),
        work_plan_spec(body, footer, flags, w).split == Some(w.cols[1]),
        work_plan_spec(body, footer, flags, w).expanded is None,
        work_plan_spec(body, footer, flags, w).footer == footer,
{
    let hero = pick(flags, Panel::Cpu, Panel::Gpu);
    let mid = pick(flags, Panel::Mem, Panel::Fans);
    let io = pick(flags, Panel::Net, Panel::Disk);
    lemma_pick(flags, Panel::Cpu, Panel::Gpu);
    lemma_pick(flags, Panel::Mem, Panel::Fans);
    lemma_pick(flags, Panel::Net, Panel::Disk);
    assert(hero.len() > 0 && hero[0] == Panel::Cpu);
    assert(mid.len() > 0 && mid[0] == Panel::Mem);
    let ratio = clamp_ratio(flags.proc_ratio);
    let left_w: u16 = if body.width >= body.width * ratio / 100 { (body.width - body.width * ratio / 100) as u16 } else { 0 };
    let p0 = empty_plan_spec(Surface::Work, left_rail_degrade(left_w, body.height), footer);
    let p1 = assign_row_spec(p0, w.rows[0], hero, w.row_a);
    let p2 = assign_row_spec(p1, w.rows[1], mid, w.row_b);
    let p3 = if io.len() > 0 { assign_row_spec(p2, w.rows[2], io, w.row_c) } else { p2 };
    assert forall|q: Panel| #![trigger panel_rect(work_plan_spec(body, footer, flags, w), q)] panel_rect(
        work_plan_spec(body, footer, flags, w),
        q,
    ) == work_box(flags, w, q) by {
        lemma_assign_rect(p0, w.rows[0], hero, w.row_a, q);
        lemma_assign_rect(p1, w.rows[1], mid, w.row_b, q);
        if io.len() > 0 {
            lemma_assign_rect(p2, w.rows[2], io, w.row_c, q);
        }
    }
    lemma_assign_rect(p0, w.rows[0], hero, w.row_a, Panel::Cpu);
    lemma_assign_rect(p1, w.rows[1], mid, w.row_b, Panel::Cpu);
    lemma_assign_rect(p2, w.rows[2], io, w.row_c, Panel::Cpu);
}

proof fn lemma_work_cols(body: Rect, flags: LayoutFlags, cols: Seq<Rect>)
    requires
        split_fits(false, work_cols(body, flags), body, cols),
        body.width >= 60,
        body.x + body.width <= u16::MAX,
    ensures
        cols.len() == 3,
        forall|i: int| #![trigger cols[i]] 0 <= i < 3 ==> cols[i].y == body.y && cols[i].height == body.height,
        cols[0].x == body.x,
        cols[1].x == cols[0].x + cols[0].width,
        cols[1].width == 1,
        cols[2].x == cols[1].x + 1,
{
    let fits = work_cols(body, flags);
    let pw = proc_width(body.width, flags.proc_ratio);
    assert(pw <= body.width - 36);
    assert(fits.drop_last().drop_last() =~= seq![Fit::Fill(1)]);
    assert(fits.drop_last().drop_last().drop_last() =~= Seq::<Fit>::empty());
    assert(lengths_total(fits.drop_last().drop_last().drop_last()) == 0);
    assert(lengths_total(fits.drop_last().drop_last()) == 0);
    assert(lengths_total(fits.drop_last()) == 1);
    assert(lengths_total(fits) == 1 + pw);
    assert(fits[0] is Fill);
    assert(has_fill(fits));
    assert(fits[1] is Length && fits[2] is Length);
    assert(cols[1].width == 1);
    let k0: int = 0;
    let k1: int = 1;
    assert(lo(false, cols[k0 + 1]) == lo(false, cols[k0]) + extent(false, cols[k0]));
    assert(lo(false, cols[k1 + 1]) == lo(false, cols[k1]) + extent(false, cols[k1]));
}

proof fn lemma_rail_rows(rail: Rect, io_on: bool, rows: Seq<Rect>)
    requires
        split_fits(true, rail_weights(true, true, io_on), rail, rows),
        rail.y + rail.height <= u16::MAX,
    ensures
        rows.len() == if io_on { 3int } else { 2int },
        forall|i: int| #![trigger rows[i]] 0 <= i < rows.len() ==> rows[i].x == rail.x && rows[i].width == rail.width,
        forall|i: int, j: int|
            #![trigger rows[i], rows[j]]
            0 <= i < j < rows.len() ==> rows[i].y + rows[i].height <= rows[j].y,
{
    let fits = rail_weights(true, true, io_on);
    if io_on {
        assert(fits =~= seq![Fit::Fill(5), Fit::Fill(3), Fit::Fill(3)]);
    } else {
        assert(fits =~= seq![Fit::Fill(5), Fit::Fill(3)]);
    }
    lemma_fills_total(fits);
    assert(fits[0] is Fill);
    assert(has_fill(fits));
    assert forall|i: int, j: int| #![trigger rows[i], rows[j]] 0 <= i < j < rows.len() implies rows[i].y
        + rows[i].height <= rows[j].y by {
        lemma_tiled_ordered(true, rail, rows, i, j);
    }
}

proof fn lemma_row_cols(row: Rect, n: nat, cols: Seq<Rect>)
    requires
        1 <= n <= 2,
        split_fits(false, fills(n), row, cols),
        row.x + row.width <= u16::MAX,
    ensures
        cols.len() == n,
        forall|k: int|
            #![trigger cols[k]]
            0 <= k < n ==> cols[k].y == row.y && cols[k].height == row.height && row.x <= cols[k].x && cols[k].x
                + cols[k].width <= row.x + row.width,
        n == 2 ==> cols[0].x + cols[0].width <= cols[1].x,
{
    let fits = fills(n);
    lemma_fills_total(fits);
    assert(fits[0] is Fill);
    assert(has_fill(fits));
    if n == 2 {
        lemma_tiled_ordered(false, row, cols, 0, 1);
    }
}

/// On the work surface, with no box expanded and the screen inside `u16`
/// coordinates, no two boxes share a cell and the splitter shares none
/// with any box, whatever the shares the splits gave.
pub proof fn law_work_boxes_apart(area: Rect, surface: Surface, flags: LayoutFlags, w: PlanSplits)
    requires
        plan_ok(area, surface, flags, w),
        flags.expanded is None,
        effective_surface(area, surface) == Surface::Work,
        area.x + area.width <= u16::MAX,
        area.y + area.height <= u16::MAX,
    ensures
        boxes_apart(plan_spec(area, surface, flags, w)),
{
    let chunks = w.chunks;
    lemma_body_footer(area, chunks);
    let body = chunks[0];
    let footer = chunks[1];
    let p = plan_spec(area, surface, flags, w);
    assert(p == work_plan_spec(body, footer, flags, w));
    assert(work_ok(body, flags, w));
    lemma_work_boxes(body, footer, flags, w);
    lemma_work_cols(body, flags, w.cols);
    let cols = w.cols;
    let rail = cols[0];
    let hero = pick(flags, Panel::Cpu, Panel::Gpu);
    let mid = pick(flags, Panel::Mem, Panel::Fans);
    let io = pick(flags, Panel::Net, Panel::Disk);
    lemma_pick(flags, Panel::Cpu, Panel::Gpu);
    lemma_pick(flags, Panel::Mem, Panel::Fans);
    lemma_pick(flags, Panel::Net, Panel::Disk);
    assert(hero.len() > 0 && mid.len() > 0);
    assert(rail_weights(hero.len() > 0, mid.len() > 0, io.len() > 0) == rail_weights(true, true, io.len() > 0));
    lemma_rail_rows(rail, io.len() > 0, w.rows);
    let rows = w.rows;
    // every box of the rail lies in its row, inside the rail's columns
    if rows[0].width > 0 && rows[0].height > 0 {
        assert(assign_ok(rows[0], hero, w.row_a));
        lemma_row_cols(rows[0], hero.len(), w.row_a);
    }
    if rows[1].width > 0 && rows[1].height > 0 {
        assert(assign_ok(rows[1], mid, w.row_b));
        lemma_row_cols(rows[1], mid.len(), w.row_b);
    }
    if io.len() > 0 && rows[2].width > 0 && rows[2].height > 0 {
        assert(assign_ok(rows[2], io, w.row_c));
        lemma_row_cols(rows[2], io.len(), w.row_c);
    }
    assert forall|a: Panel| #![trigger panel_rect(p, a)] a != Panel::Processes && panel_rect(p, a) is Some implies {
        let r = panel_rect(p, a)->0;
        &&& rail.x <= r.x && r.x + r.width <= rail.x + rail.width
        &&& r.y == rows[row_of(a)].y && r.height == rows[row_of(a)].height
        &&& 0 <= row_of(a) < rows.len()
    } by {
        assert(panel_rect(p, a) == work_box(flags, w, a));
    }
    assert forall|a: Panel, b: Panel|
        #![trigger panel_rect(p, a), panel_rect(p, b)]
        a != b && panel_rect(p, a) is Some && panel_rect(p, b) is Some implies apart(
            panel_rect(p, a)->0,
            panel_rect(p, b)->0,
        ) by {
        assert(panel_rect(p, a) == work_box(flags, w, a));
        assert(panel_rect(p, b) == work_box(flags, w, b));
        if a != Panel::Processes && b != Panel::Processes && row_of(a) != row_of(b) {
            if row_of(a) < row_of(b) {
                assert(rows[row_of(a)].y + rows[row_of(a)].height <= rows[row_of(b)].y);
            } else {
                assert(rows[row_of(b)].y + rows[row_of(b)].height <= rows[row_of(a)].y);
            }
        }
    }
}

/// The row of the work rail that box `q` goes in.
pub open spec fn row_of(q: Panel) -> int {
    match q {
        Panel::Cpu | Panel::Gpu => 0,
        Panel::Mem | Panel::Fans => 1,
        _ => 2,
    }
}

/// Where box `q` lands on the glance surface laid out with splits `w`.
pub open spec fn glance_box(body: Rect, flags: LayoutFlags, w: PlanSplits, q: Panel) -> Option<Rect> {
    match q {
        Panel::Cpu => Some(w.rows[0]),
        Panel::Gpu | Panel::Mem => if glance_mid_h(body, flags) > 0 {
            placed(None, w.rows[1], pick(flags, Panel::Gpu, Panel::Mem), w.row_a, q)
        } else {
            None
        },
        Panel::Net | Panel::Disk => if glance_io_h(body, flags) > 0 {
            placed(None, w.rows[2], pick(flags, Panel::Net, Panel::Disk), w.row_b, q)
        } else {
            None
        },
        Panel::Fans => if glance_fan_h(body, flags) > 0 { Some(w.rows[3]) } else { None },
        Panel::Processes => None,
    }
}

/// The row of the glance surface that box `q` goes in.
pub open spec fn glance_row_of(q: Panel) -> int {
    match q {
        Panel::Cpu => 0,
        Panel::Gpu | Panel::Mem => 1,
        Panel::Net | Panel::Disk => 2,
        _ => 3,
    }
}

proof fn lemma_glance_boxes(body: Rect, footer: Rect, flags: LayoutFlags, w: PlanSplits)
    ensures
        forall|q: Panel|
            #![trigger panel_rect(glance_plan_spec(body, footer, flags, w), q)]
            panel_rect(glance_plan_spec(body, footer, flags, w), q) == glance_box(body, flags, w, q),
        glance_plan_spec(body, footer, flags, w).split is None,
        glance_plan_spec(body, footer, flags, w).expanded is None,
        glance_plan_spec(body, footer, flags, w).footer == footer,
{
    let mid = pick(flags, Panel::Gpu, Panel::Mem);
    let io = pick(flags, Panel::Net, Panel::Disk);
    lemma_pick(flags, Panel::Gpu, Panel::Mem);
    lemma_pick(flags, Panel::Net, Panel::Disk);
    let p0 = LayoutPlan { cpu: Some(w.rows[0]), ..empty_plan_spec(Surface::Glance, glance_degrade(body), footer) };
    let p1 = if glance_mid_h(body, flags) > 0 { assign_row_spec(p0, w.rows[1], mid, w.row_a) } else { p0 };
    assert forall|q: Panel| #![trigger panel_rect(glance_plan_spec(body, footer, flags, w), q)] panel_rect(
        glance_plan_spec(body, footer, flags, w),
        q,
    ) == glance_box(body, flags, w, q) by {
        lemma_assign_rect(p0, w.rows[1], mid, w.row_a, q);
        lemma_assign_rect(p1, w.rows[2], io, w.row_b, q);
    }
    lemma_assign_rect(p0, w.rows[1], mid, w.row_a, Panel::Cpu);
    lemma_assign_rect(p1, w.rows[2], io, w.row_b, Panel::Cpu);
}

proof fn lemma_glance_rows(body: Rect, flags: LayoutFlags, rows: Seq<Rect>)
    requires
        split_fits(true, glance_fits(body, flags), body, rows),
        body.height >= glance_cpu_h(body),
        body.y + body.height <= u16::MAX,
    ensures
        rows.len() == 5,
        forall|i: int| #![trigger rows[i]] 0 <= i < 5 ==> rows[i].x == body.x && rows[i].width == body.width,
        forall|i: int, j: int|
            #![trigger rows[i], rows[j]]
            0 <= i < j < 5 ==> rows[i].y + rows[i].height <= rows[j].y,
{
    let fits = glance_fits(body, flags);
    let d1 = fits.drop_last();
    let d2 = d1.drop_last();
    let d3 = d2.drop_last();
    let d4 = d3.drop_last();
    assert(d4.drop_last() =~= Seq::<Fit>::empty());
    assert(lengths_total(d4.drop_last()) == 0);
    assert(lengths_total(d4) == glance_cpu_h(body));
    assert(lengths_total(d3) == glance_cpu_h(body) + glance_mid_h(body, flags));
    assert(lengths_total(d2) == glance_cpu_h(body) + glance_mid_h(body, flags) + glance_io_h(body, flags));
    assert(lengths_total(d1) == glance_cpu_h(body) + glance_mid_h(body, flags) + glance_io_h(body, flags)
        + glance_fan_h(body, flags));
    assert(lengths_total(fits) <= body.height);
    assert(fits[4] is Fill);
    assert(has_fill(fits));
    assert forall|i: int, j: int| #![trigger rows[i], rows[j]] 0 <= i < j < 5 implies rows[i].y + rows[i].height
        <= rows[j].y by {
        lemma_tiled_ordered(true, body, rows, i, j);
    }
}

/// On the glance surface of a screen at least 5 rows tall, with no box
/// expanded and the screen inside `u16` coordinates, no two boxes share a
/// cell, whatever the shares the splits gave.
pub proof fn law_glance_boxes_apart(area: Rect, surface: Surface, flags: LayoutFlags, w: PlanSplits)
    requires
        plan_ok(area, surface, flags, w),
        flags.expanded is None,
        effective_surface(area, surface) == Surface::Glance,
        area.height >= 5,
        area.x + area.width <= u16::MAX,
        area.y + area.height <= u16::MAX,
    ensures
        boxes_apart(plan_spec(area, surface, flags, w)),
{
    let chunks = w.chunks;
    lemma_body_footer(area, chunks);
    let body = chunks[0];
    let footer = chunks[1];
    let p = plan_spec(area, surface, flags, w);
    assert(p == glance_plan_spec(body, footer, flags, w));
    assert(glance_ok(body, flags, w));
    lemma_glance_boxes(body, footer, flags, w);
    lemma_glance_rows(body, flags, w.rows);
    let rows = w.rows;
    let mid = pick(flags, Panel::Gpu, Panel::Mem);
    let io = pick(flags, Panel::Net, Panel::Disk);
    lemma_pick(flags, Panel::Gpu, Panel::Mem);
    lemma_pick(flags, Panel::Net, Panel::Disk);
    if glance_mid_h(body, flags) > 0 && mid.len() > 0 && rows[1].width > 0 && rows[1].height > 0 {
        lemma_row_cols(rows[1], mid.len(), w.row_a);
    }
    if glance_io_h(body, flags) > 0 && io.len() > 0 && rows[2].width > 0 && rows[2].height > 0 {
        lemma_row_cols(rows[2], io.len(), w.row_b);
    }
    assert forall|a: Panel| #![trigger panel_rect(p, a)] panel_rect(p, a) is Some implies {
        let r = panel_rect(p, a)->0;
        &&& r.y == rows[glance_row_of(a)].y && r.height == rows[glance_row_of(a)].height
        &&& a != Panel::Processes
    } by {
        assert(panel_rect(p, a) == glance_box(body, flags, w, a));
    }
    assert forall|a: Panel, b: Panel|
        #![trigger panel_rect(p, a), panel_rect(p, b)]
        a != b && panel_rect(p, a) is Some && panel_rect(p, b) is Some implies apart(
            panel_rect(p, a)->0,
            panel_rect(p, b)->0,
        ) by {
        assert(panel_rect(p, a) == glance_box(body, flags, w, a));
        assert(panel_rect(p, b) == glance_box(body, flags, w, b));
        if glance_row_of(a) != glance_row_of(b) {
            if glance_row_of(a) < glance_row_of(b) {
                assert(rows[glance_row_of(a)].y + rows[glance_row_of(a)].height <= rows[glance_row_of(b)].y);
            } else {
                assert(rows[glance_row_of(b)].y + rows[glance_row_of(b)].height <= rows[glance_row_of(a)].y);
            }
        }
    }
}

/// On a planned frame with no box expanded (on the glance surface, a
/// screen at least 5 rows tall) and the screen inside `u16` coordinates,
/// a click inside a box other than the process table and off the footer
/// row hits that box: its expand mark when the click is on the mark, else
/// the box itself.
pub proof fn law_click_hits_planned_box(
    area: Rect,
    surface: Surface,
    flags: LayoutFlags,
    w: PlanSplits,
    panel: Panel,
    col: u16,
    row: u16,
)
    requires
        plan_ok(area, surface, flags, w),
        flags.expanded is None,
        effective_surface(area, surface) == Surface::Glance ==> area.height >= 5,
        area.x + area.width <= u16::MAX,
        area.y + area.height <= u16::MAX,
        panel != Panel::Processes,
        panel_rect(plan_spec(area, surface, flags, w), panel) matches Some(r) && rect_contains(r, col, row),
        row != plan_spec(area, surface, flags, w).footer.y,
    ensures
        hit_plan_spec(plan_spec(area, surface, flags, w), col, row) == Some(
            if corner_spec(panel_rect(plan_spec(area, surface, flags, w), panel)->0) matches Some(c)
                && rect_contains(c, col, row) {
                Hit::Expand(panel)
            } else {
                Hit::Panel(panel)
            },
        ),
{
    let chunks = w.chunks;
    if effective_surface(area, surface) == Surface::Work {
        law_work_boxes_apart(area, surface, flags, w);
        lemma_work_boxes(chunks[0], chunks[1], flags, w);
    } else {
        law_glance_boxes_apart(area, surface, flags, w);
        lemma_glance_boxes(chunks[0], chunks[1], flags, w);
    }
    law_click_hits_the_box_under_it(plan_spec(area, surface, flags, w), panel, col, row);
}

/// On any planned frame of a screen inside `u16` coordinates, the footer
/// is the screen's bottom row, and a click there hits the footer chip under
/// it.
pub proof fn law_bottom_row_hits_a_chip(area: Rect, surface: Surface, flags: LayoutFlags, w: PlanSplits, col: u16)
    requires
        plan_ok(area, surface, flags, w),
        area.height >= 1,
        area.y + area.height <= u16::MAX,
    ensures
        plan_spec(area, surface, flags, w).footer == (Rect {
            y: (area.y + area.height - 1) as u16,
            height: 1,
            ..area
        }),
        hit_plan_spec(plan_spec(area, surface, flags, w), col, (area.y + area.height - 1) as u16) == Some(
            footer_chip(sat_sub16(col, area.x)),
        ),
{
    lemma_body_footer(area, w.chunks);
    lemma_work_boxes(w.chunks[0], w.chunks[1], flags, w);
    lemma_glance_boxes(w.chunks[0], w.chunks[1], flags, w);
}

} // verus!
