use plottypus::snapshot::{ClusterKind, FanMetric, FanSnapshot};
use plottypus::ui::expanded::{
    core_kind_rank, core_tag, hop_row_hit, hop_row_rects, hop_targets, inset, label_for, left_slots, meta_budget, panel_mins, peak_fan,
    peak_fan_index, split_meta, HopStyle, MetaBudget, MetaSide, PaneFacts, ID_HOP_CPU, ID_HOP_FAN,
    ID_HOP_GPU,
};
use plottypus::ui::layout::{Panel, Rect};

fn fan(rpm: u16, max_rpm: u16) -> FanMetric {
    FanMetric {
        name: String::from("Fan"),
        rpm,
        max_rpm,
    }
}

fn facts() -> PaneFacts {
    PaneFacts {
        show_gpu: true,
        gpu_present: false,
        show_fans: true,
        fans_present: false,
        has_fans: false,
        show_disk: false,
        has_disk: false,
        show_net: true,
        show_cores: true,
        any_cluster: false,
        mem_extras: false,
        volumes_present: false,
        cpu_zone_live: false,
        sens_graph_live: false,
        gpu_temp_live: false,
    }
}

fn spark_mosaic() -> MetaBudget {
    MetaBudget {
        hops: HopStyle::Spark,
        mosaic: true,
        identity: false,
        extras: false,
        volumes: false,
    }
}

#[test]
fn peak_fan_index_picks_highest_rpm_then_lowest_index() {
    let fans = FanSnapshot {
        fans: vec![fan(1200, 6000), fan(2140, 6000), fan(2140, 6000)],
    };
    assert_eq!(peak_fan_index(&fans), Some(1));
    assert_eq!(peak_fan(&fans), Some(2140));
}

#[test]
fn peak_fan_idle_zero_is_present() {
    let fans = FanSnapshot {
        fans: vec![fan(0, 6000)],
    };
    assert_eq!(peak_fan_index(&fans), Some(0));
    assert_eq!(peak_fan(&fans), Some(0));
}

#[test]
fn peak_fan_absent_when_no_hardware() {
    let fans = FanSnapshot::empty();
    assert!(peak_fan_index(&fans).is_none());
    assert!(peak_fan(&fans).is_none());
}

#[test]
fn sensors_without_fans_do_not_open_a_fan_hop() {
    let f = PaneFacts {
        has_fans: true,
        fans_present: false,
        ..facts()
    };
    let hops = hop_targets(Panel::Cpu, f);
    assert!(!hops.iter().any(|(id, _)| *id == ID_HOP_FAN));
}

#[test]
fn split_meta_78x13_hops_only() {
    let plan = split_meta(Rect::new(0, 0, 78, 13), spark_mosaic(), 9);
    assert_eq!(plan.main.height, 10);
    assert_eq!(plan.meta.map(|r| r.height), Some(3));
}

#[test]
fn split_meta_78x16_still_no_mosaic() {
    let plan = split_meta(Rect::new(0, 0, 78, 16), spark_mosaic(), 9);
    assert_eq!(plan.meta.map(|r| r.height), Some(3));
    assert_eq!(plan.main.height, 13);
}

#[test]
fn split_meta_78x17_mosaic_exact() {
    let plan = split_meta(Rect::new(0, 0, 78, 17), spark_mosaic(), 9);
    assert_eq!(plan.meta.map(|r| r.height), Some(8));
    assert_eq!(plan.main.height, 9);
}

#[test]
fn split_meta_wide_opens_a_left_column() {
    let plan = split_meta(Rect::new(0, 0, 160, 40), spark_mosaic(), 9);
    assert_eq!(plan.side, MetaSide::Left);
    let meta = plan.meta.expect("left column");
    assert_eq!(meta.x, 0);
    assert_eq!(meta.width, 26);
    assert_eq!(meta.height, 40);
    assert_eq!(plan.main.x, 27);
    assert_eq!(plan.main.width, 133);
    assert_eq!(plan.main.height, 40, "graphs keep the full height");
}

#[test]
fn split_meta_narrow_stays_a_bottom_strip() {
    let plan = split_meta(Rect::new(0, 0, 78, 21), spark_mosaic(), 9);
    assert_eq!(plan.side, MetaSide::Bottom);
    assert_eq!(plan.main.width, 78);
    assert_eq!(plan.meta.map(|r| r.height), Some(8));
}

#[test]
fn split_meta_strip_sits_below_the_graphs() {
    let plan = split_meta(Rect::new(2, 3, 78, 21), spark_mosaic(), 9);
    let meta = plan.meta.expect("strip");
    assert_eq!(plan.main.y, 3);
    assert_eq!(meta.y, 3 + plan.main.height);
    assert_eq!(plan.main.height + meta.height, 21);
}

#[test]
fn split_meta_empty_budget_keeps_the_pane() {
    let none = MetaBudget {
        hops: HopStyle::Absent,
        mosaic: false,
        identity: false,
        extras: false,
        volumes: false,
    };
    let area = Rect::new(0, 0, 78, 21);
    let plan = split_meta(area, none, 9);
    assert_eq!(plan.main, area);
    assert!(plan.meta.is_none());
}

#[test]
fn meta_budget_and_mins_follow_the_facts() {
    let f = PaneFacts {
        gpu_present: true,
        any_cluster: true,
        cpu_zone_live: true,
        ..facts()
    };
    let b = meta_budget(Panel::Cpu, f);
    assert_eq!(b.hops, HopStyle::Spark);
    assert!(b.mosaic);
    assert_eq!(panel_mins(Panel::Cpu, f), 9);
    assert_eq!(panel_mins(Panel::Cpu, facts()), 4);
    assert_eq!(meta_budget(Panel::Mem, f).hops, HopStyle::LabelOnly);
    assert!(meta_budget(Panel::Processes, f).is_empty());
    assert_eq!(b.hops_h(), 3);
}

#[test]
fn gpu_view_jumps_to_cpu_first() {
    let f = PaneFacts {
        gpu_present: true,
        ..facts()
    };
    let hops = hop_targets(Panel::Fans, f);
    assert_eq!(hops, vec![(ID_HOP_CPU, Panel::Cpu), (ID_HOP_GPU, Panel::Gpu)]);
}

#[test]
fn left_column_shares_rows_between_jumps() {
    let hops = vec![(ID_HOP_CPU, Panel::Cpu), (ID_HOP_GPU, Panel::Gpu)];
    let slots = left_slots(Rect::new(0, 0, 26, 20), &hops, 2, 4);
    assert_eq!(slots.identity, 2);
    let tiles: Vec<Rect> = slots.hop_rects.iter().map(|(_, _, r)| *r).collect();
    assert_eq!(tiles, vec![Rect::new(0, 2, 26, 7), Rect::new(0, 9, 26, 7)]);
    assert_eq!(slots.cores, Some(Rect::new(0, 16, 26, 4)));
}

#[test]
fn labels_and_ranks() {
    assert_eq!(label_for(0).0, "cpu");
    assert_eq!(label_for(42).0, "Fan 3");
    assert_eq!(label_for(99).0, "");
    assert_eq!(core_kind_rank(ClusterKind::Super), 0);
    assert_eq!(core_kind_rank(ClusterKind::Efficiency), 2);
    assert_eq!(inset(Rect::new(0, 0, 10, 5)), Rect::new(1, 1, 8, 3));
}

#[test]
fn core_rows_are_tagged_by_kind() {
    assert_eq!(core_tag(ClusterKind::Super), "S");
    assert_eq!(core_tag(ClusterKind::Performance), "P");
    assert_eq!(core_tag(ClusterKind::Efficiency), "E");
}

#[test]
fn every_cell_of_a_jump_row_hits_a_jump() {
    use_row(Rect::new(3, 10, 31, 3));
}

fn use_row(area: Rect) {
    let hops = vec![(1u8, Panel::Cpu), (2, Panel::Mem), (3, Panel::Net)];
    let tiles = hop_row_rects(area, hops.len());
    assert_eq!(tiles.len(), 3);
    assert_eq!(tiles[0].x, area.x);
    assert_eq!(tiles[2].x + tiles[2].width, area.x + area.width);
    for col in area.x..area.x + area.width {
        for row in area.y..area.y + area.height {
            assert!(hop_row_hit(area, &hops, col, row).is_some(), "{col},{row}");
        }
    }
    assert_eq!(hop_row_hit(area, &hops, area.x + area.width, area.y), None);
}
