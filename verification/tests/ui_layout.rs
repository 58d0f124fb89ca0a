use plottypus::surface::Surface;
use plottypus::ui::layout::{hit_test, hit_test_plan, plan, Degrade, Hit, LayoutFlags, LayoutPlan, Panel, Rect, Region};

fn flags() -> LayoutFlags {
    LayoutFlags {
        show_gpu: true,
        show_net: true,
        show_disk: true,
        show_fans: true,
        has_gpu: true,
        has_fans: true,
        has_disk: true,
        expanded: None,
        proc_ratio: 55,
    }
}

#[test]
fn degrade_ladder_boundaries() {
    // left rail = width * (1 - 55%)
    let cases = [
        (120, 30, Degrade::Tight),   // left 54
        (145, 30, Degrade::Full),    // left 65
        (100, 30, Degrade::Minimal), // left 45
        (160, 16, Degrade::Minimal), // body is 15 tall here
        (160, 18, Degrade::Tight),   // body 17: width ok, height short
        (170, 23, Degrade::Full),    // body 22 clears both bands
    ];
    for (width, height, want) in cases {
        let planned = plan(Rect::new(0, 0, width, height), Surface::Work, flags());
        assert_eq!(planned.degrade, want, "{width}x{height}");
    }
    let mut narrow = flags();
    narrow.proc_ratio = 35;
    let planned = plan(Rect::new(0, 0, 120, 30), Surface::Work, narrow);
    assert_eq!(planned.degrade, Degrade::Full);
}

#[test]
fn expanded_views_never_degrade() {
    let mut fs = flags();
    fs.expanded = Some(Panel::Cpu);
    let planned = plan(Rect::new(0, 0, 70, 20), Surface::Work, fs);
    assert_eq!(planned.degrade, Degrade::Full);
}

#[test]
fn work_separates_metric_boxes() {
    let planned = plan(Rect::new(0, 0, 140, 40), Surface::Work, flags());
    assert_eq!(planned.surface, Surface::Work);
    let cpu = planned.cpu.unwrap_or_default();
    let proc = planned.processes.unwrap_or_default();
    let gpu = planned.gpu.unwrap_or_default();
    let mem = planned.mem.unwrap_or_default();
    let fans = planned.fans.unwrap_or_default();
    let net = planned.net.unwrap_or_default();
    let disk = planned.disk.unwrap_or_default();
    assert!(cpu.height >= 8, "cpu {cpu:?}");
    assert_eq!(cpu.y, gpu.y, "cpu and gpu are equal hero tiles");
    assert_eq!(cpu.height, gpu.height);
    assert!(cpu.x < gpu.x);
    assert!(cpu.width + proc.width < 140);
    assert!(
        proc.height >= 20,
        "proc should be full left-column height {proc:?}"
    );
    assert!(proc.x > cpu.x + cpu.width, "proc on the right");
    assert!(planned.split.is_some());
    assert!(mem.height >= 5 && fans.height >= 5);
    assert_eq!(mem.y, fans.y);
    assert!(mem.x < fans.x);
    assert_eq!(net.y, disk.y);
    assert!(net.x < disk.x);
    assert!(cpu.y + cpu.height <= mem.y);
    assert!(mem.y + mem.height <= net.y);
    assert!(cpu.height > mem.height, "heroes taller than mem/sens");
    assert_eq!(proc.y, cpu.y);
    assert_eq!(planned.footer.height, 1);
    assert!(planned.expanded.is_none());
}

#[test]
fn midsize_work_keeps_boxes() {
    let planned = plan(Rect::new(0, 0, 80, 24), Surface::Work, flags());
    assert_eq!(planned.surface, Surface::Work);
    assert!(planned.cpu.is_some());
    assert!(planned.gpu.is_some());
    assert!(planned.mem.is_some());
    assert!(planned.fans.is_some());
    assert!(planned.net.is_some());
    assert!(planned.disk.is_some());
    assert!(planned.processes.is_some());
    let cpu = planned.cpu.unwrap_or_default();
    let proc = planned.processes.unwrap_or_default();
    let gpu = planned.gpu.unwrap_or_default();
    assert!(cpu.height >= 6);
    assert!(proc.height >= 5);
    assert_eq!(cpu.height, gpu.height);
    assert!(cpu.height + 2 < 24, "cpu must not eat the screen");
}

#[test]
fn hidden_flags_drop_boxes() {
    let mut flags = flags();
    flags.show_gpu = false;
    flags.show_fans = false;
    flags.show_disk = false;
    let planned = plan(Rect::new(0, 0, 120, 30), Surface::Work, flags);
    assert!(planned.gpu.is_none());
    assert!(planned.fans.is_none());
    assert!(planned.disk.is_none());
    assert!(planned.mem.is_some());
    assert!(planned.net.is_some());
}

#[test]
fn expand_fills_body() {
    let mut flags = flags();
    flags.expanded = Some(Panel::Cpu);
    let planned = plan(Rect::new(0, 0, 80, 24), Surface::Work, flags);
    let cpu = planned.cpu.unwrap_or_default();
    assert_eq!(cpu, Rect::new(0, 0, 80, 23));
    assert!(planned.gpu.is_none());
    assert!(planned.processes.is_none());
    assert_eq!(planned.expanded, Some(Panel::Cpu));
    assert!(planned.close_hit().is_some());
}

#[test]
fn glance_has_no_process_pane() {
    let planned = plan(Rect::new(0, 0, 80, 20), Surface::Glance, flags());
    assert_eq!(planned.surface, Surface::Glance);
    assert!(planned.processes.is_none());
    assert!(planned.cpu.is_some());
    assert_eq!(planned.footer.height, 1);
    assert_eq!(planned.region(Region::Processes), None);
    assert_eq!(planned.region(Region::Cpu), planned.cpu);
}

#[test]
fn tiny_work_falls_back_to_glance() {
    let planned = plan(Rect::new(0, 0, 40, 8), Surface::Work, flags());
    assert_eq!(planned.surface, Surface::Glance);
    assert!(planned.processes.is_none());
}

#[test]
fn work_between_gates_falls_back_instead_of_panicking() {
    // Widths 40..59 sit between the glance and work gates.
    for width in 40..60_u16 {
        for height in [16_u16, 20, 24, 31] {
            let planned = plan(Rect::new(0, 0, width, height), Surface::Work, flags());
            assert_eq!(
                planned.surface,
                Surface::Glance,
                "{width}x{height} must be Glance"
            );
        }
    }
}

#[test]
fn plan_and_hit_test_sweep_every_size_without_panic() {
    for width in (1..=120_u16).step_by(3) {
        for height in (1..=44_u16).step_by(3) {
            let area = Rect::new(0, 0, width, height);
            let mut fs = flags();
            let _ = plan(area, Surface::Work, fs);
            let _ = plan(area, Surface::Glance, fs);
            let _ = hit_test(area, Surface::Work, fs, width / 2, height / 2);
            for panel in Panel::ALL {
                fs.expanded = Some(panel);
                let planned = plan(area, Surface::Work, fs);
                if let Some(rect) = planned.panel(panel) {
                    let _ = hit_test(area, Surface::Work, fs, rect.x, rect.y);
                }
            }
        }
    }
}

#[test]
fn click_box_hits_panel() {
    let area = Rect::new(0, 0, 120, 30);
    let planned = plan(area, Surface::Work, flags());
    let cpu = planned.cpu.unwrap_or_default();
    assert_eq!(
        hit_test(area, Surface::Work, flags(), cpu.x + 2, cpu.y + 1),
        Some(Hit::Panel(Panel::Cpu))
    );
    let corner = LayoutPlan::corner_hit(cpu).unwrap_or_default();
    assert_eq!(
        hit_test(area, Surface::Work, flags(), corner.x, corner.y),
        Some(Hit::Expand(Panel::Cpu))
    );
    let mem = planned.mem.unwrap_or_default();
    assert_eq!(
        hit_test(area, Surface::Work, flags(), mem.x + 2, mem.y + 1),
        Some(Hit::Panel(Panel::Mem))
    );
}

#[test]
fn click_x_closes_expand() {
    let mut flags = flags();
    flags.expanded = Some(Panel::Mem);
    let area = Rect::new(0, 0, 80, 24);
    let planned = plan(area, Surface::Work, flags);
    let close = planned.close_hit().unwrap_or_default();
    assert_eq!(
        hit_test(area, Surface::Work, flags, close.x, close.y),
        Some(Hit::ExpandClose)
    );
}

#[test]
fn visible_panels_respect_hardware() {
    let mut flags = flags();
    flags.has_fans = false;
    flags.has_gpu = false;
    flags.show_fans = false;
    let vis = flags.visible_panels();
    assert!(!vis.contains(&Panel::Fans));
    assert!(!vis.contains(&Panel::Gpu));
    assert!(vis.contains(&Panel::Cpu));
    assert!(vis.contains(&Panel::Processes));
}

#[test]
fn narrow_ratio_widens_the_left_rail() {
    let mut wide = flags();
    wide.proc_ratio = 72;
    let a = plan(Rect::new(0, 0, 140, 40), Surface::Work, flags());
    let b = plan(Rect::new(0, 0, 140, 40), Surface::Work, wide);
    let pa = a.processes.unwrap_or_default();
    let pb = b.processes.unwrap_or_default();
    assert!(pb.width > pa.width);
    assert_eq!(a.footer, Rect::new(0, 39, 140, 1));
}

#[test]
fn wide_work_screens_plan_at_the_top_ratio() {
    let mut f = flags();
    f.proc_ratio = 72;
    let area = Rect::new(0, 0, 1000, 40);
    let p = plan(area, Surface::Work, f);
    assert_eq!(p.surface, Surface::Work);
    let procs = p.processes.unwrap_or_default();
    assert_eq!(procs.width, 720);
    assert!(p.split.is_some());
    let right = Rect::new(0, 0, 65535, 40);
    let q = plan(right, Surface::Work, f);
    assert_eq!(q.processes.unwrap_or_default().width, 47185);
}

#[test]
fn hit_test_plan_reads_the_given_frame() {
    let area = Rect::new(0, 0, 120, 30);
    let p = plan(area, Surface::Work, flags());
    let cpu = p.cpu.unwrap_or_default();
    assert_eq!(hit_test_plan(&p, cpu.x + 2, cpu.y + 1), Some(Hit::Panel(Panel::Cpu)));
    assert_eq!(hit_test_plan(&p, 0, p.footer.y), Some(Hit::Help));
    let procs = p.processes.unwrap_or_default();
    assert_eq!(hit_test_plan(&p, procs.x + 2, procs.y + 1), Some(Hit::Search));
    assert_eq!(hit_test_plan(&p, procs.x + 2, procs.y + 4), Some(Hit::ProcRow(1)));
}

fn rect_inside(r: Rect, area: Rect) -> bool {
    r.x >= area.x
        && u32::from(r.x) + u32::from(r.width) <= u32::from(area.x) + u32::from(area.width)
        && r.y >= area.y
        && u32::from(r.y) + u32::from(r.height) <= u32::from(area.y) + u32::from(area.height)
}

#[test]
fn planned_boxes_stay_on_screen() {
    let panels = [Panel::Cpu, Panel::Gpu, Panel::Mem, Panel::Net, Panel::Disk, Panel::Fans, Panel::Processes];
    for (w, h) in [(120u16, 30u16), (80, 24), (59, 20), (60, 16), (30, 10), (250, 70)] {
        for surface in [Surface::Work, Surface::Glance] {
            for expanded in [None, Some(Panel::Mem)] {
                let area = Rect::new(1, 1, w, h);
                let f = LayoutFlags { expanded, ..flags() };
                let p = plan(area, surface, f);
                for q in panels {
                    if let Some(r) = p.panel(q) {
                        assert!(rect_inside(r, area), "{q:?} {r:?} in {area:?}");
                    }
                }
                if let Some(r) = p.split {
                    assert!(rect_inside(r, area));
                }
                assert!(rect_inside(p.footer, area));
                let work = surface == Surface::Work && w >= 60 && h >= 16;
                assert_eq!(p.surface == Surface::Work, work);
                if expanded.is_none() && !work {
                    assert!(p.processes.is_none() && p.split.is_none());
                }
            }
        }
    }
}

fn apart(a: Rect, b: Rect) -> bool {
    u32::from(a.x) + u32::from(a.width) <= u32::from(b.x)
        || u32::from(b.x) + u32::from(b.width) <= u32::from(a.x)
        || u32::from(a.y) + u32::from(a.height) <= u32::from(b.y)
        || u32::from(b.y) + u32::from(b.height) <= u32::from(a.y)
}

#[test]
fn planned_boxes_lie_apart_and_clicks_hit_them() {
    let panels = [Panel::Cpu, Panel::Gpu, Panel::Mem, Panel::Net, Panel::Disk, Panel::Fans, Panel::Processes];
    for (w, h) in [(120u16, 30u16), (80, 24), (60, 16), (59, 20), (40, 8), (250, 70)] {
        for surface in [Surface::Work, Surface::Glance] {
            let p = plan(Rect::new(0, 0, w, h), surface, flags());
            for a in panels {
                for b in panels {
                    if let (true, Some(ra), Some(rb)) = (a != b, p.panel(a), p.panel(b)) {
                        assert!(apart(ra, rb), "{a:?} {ra:?} and {b:?} {rb:?} on {w}x{h}");
                    }
                }
                if let (Some(s), Some(r)) = (p.split, p.panel(a)) {
                    assert!(apart(s, r));
                }
                if a != Panel::Processes {
                    if let Some(r) = p.panel(a) {
                        if r.width > 4 && r.height > 1 {
                            assert_eq!(hit_test_plan(&p, r.x + 1, r.y + 1), Some(Hit::Panel(a)));
                        }
                    }
                }
            }
        }
    }
}

#[test]
fn expanded_box_takes_all_above_the_footer() {
    let mut f = flags();
    f.expanded = Some(Panel::Cpu);
    let p = plan(Rect::new(0, 0, 80, 24), Surface::Work, f);
    assert_eq!(p.cpu, Some(Rect::new(0, 0, 80, 23)));
    assert_eq!(p.footer, Rect::new(0, 23, 80, 1));
    assert_eq!(p.degrade, Degrade::Full);
    assert!(p.split.is_none() && p.mem.is_none() && p.processes.is_none());
}

#[test]
fn work_columns_follow_the_ratio() {
    let p = plan(Rect::new(0, 0, 120, 30), Surface::Work, flags());
    let split = p.split.unwrap_or_default();
    let procs = p.processes.unwrap_or_default();
    assert_eq!(procs.width, 66);
    assert_eq!(split.width, 1);
    assert_eq!(split.x + 1, procs.x);
    assert_eq!(procs.x + procs.width, 120);
    assert_eq!(p.footer, Rect::new(0, 29, 120, 1));
}
