use plottypus::ui::grid::{bands_fit, pack, Band, CellKind, CellSpec, CellTitle};
use plottypus::ui::layout::{Panel, Rect};

fn title(label: &'static str) -> CellTitle {
    CellTitle {
        label,
        value: None,
        hop: None,
    }
}

fn graph(id: u8, label: &'static str) -> CellSpec {
    CellSpec {
        id,
        kind: CellKind::Graph,
        title: title(label),
        min: (16, 5),
        weight: 1,
        present: true,
    }
}

fn spark(id: u8, label: &'static str, hop: Panel) -> CellSpec {
    CellSpec {
        id,
        kind: CellKind::Spark,
        title: CellTitle {
            label,
            value: None,
            hop: Some(hop),
        },
        min: (12, 3),
        weight: 1,
        present: true,
    }
}

fn cluster(id: u8, label: &'static str) -> CellSpec {
    CellSpec {
        id,
        kind: CellKind::Cluster,
        title: title(label),
        min: (14, 5),
        weight: 1,
        present: true,
    }
}

fn cpu_bands_hops(hops: bool) -> Vec<Band> {
    vec![
        Band {
            min_height: 4,
            max_height: Some(4),
            take_leftover: false,
            ..Band::new(
                4,
                vec![graph(0, "cpu"), graph(1, "super"), graph(2, "perf")],
            )
        },
        Band {
            take_leftover: true,
            ..Band::new(
                5,
                vec![
                    graph(10, "super zone"),
                    graph(11, "perf zone"),
                    graph(13, "package"),
                ],
            )
        },
        Band::new(
            3,
            vec![
                CellSpec {
                    present: hops,
                    ..spark(20, "gpu", Panel::Gpu)
                },
                CellSpec {
                    present: hops,
                    ..spark(21, "fan", Panel::Fans)
                },
            ],
        ),
        Band {
            grow_to: Some(8),
            ..Band::new(5, vec![cluster(30, "super"), cluster(31, "perf")])
        },
    ]
}

#[test]
fn pack_cpu_80x23_reference() {
    let area = Rect::new(0, 0, 78, 21);
    let pack = pack(area, &cpu_bands_hops(true));
    let cpu = pack.get(0).expect("cpu");
    let super_g = pack.get(1).expect("super");
    let perf_g = pack.get(2).expect("perf");
    assert_eq!(cpu.kind, CellKind::Graph);
    assert_eq!(cpu.rect, Rect::new(0, 0, 26, 4));
    assert_eq!(super_g.rect, Rect::new(26, 0, 26, 4));
    assert_eq!(perf_g.rect, Rect::new(52, 0, 26, 4));

    let zone = pack.get(10).expect("super zone");
    assert_eq!(zone.rect, Rect::new(0, 4, 26, 6));
    assert_eq!(
        pack.get(11).expect("perf zone").rect,
        Rect::new(26, 4, 26, 6)
    );
    assert_eq!(pack.get(13).expect("package").rect, Rect::new(52, 4, 26, 6));

    let gpu = pack.get(20).expect("gpu hop");
    let fan = pack.get(21).expect("fan hop");
    assert_eq!(gpu.kind, CellKind::Spark);
    assert_eq!(gpu.rect, Rect::new(0, 10, 39, 3));
    assert_eq!(fan.rect, Rect::new(39, 10, 39, 3));
    assert_eq!(gpu.hop, Some(Panel::Gpu));

    let strip = pack.get(30).expect("super strip");
    assert_eq!(strip.kind, CellKind::Cluster);
    assert_eq!(strip.rect, Rect::new(0, 13, 39, 8));
    assert_eq!(
        pack.get(31).expect("perf strip").rect,
        Rect::new(39, 13, 39, 8)
    );
    assert_eq!(pack.cells.len(), 10);
}

#[test]
fn pack_leftover_does_not_fatten_capped_band() {
    let area = Rect::new(0, 0, 78, 21);
    let pack = pack(area, &cpu_bands_hops(false));
    assert!(pack.get(20).is_none());
    let cpu = pack.get(0).expect("cpu");
    assert_eq!(cpu.rect.height, 4);
    assert_eq!(pack.get(10).expect("zone").rect.height, 9);
    assert_eq!(pack.get(30).expect("strip").rect.height, 8);
}

#[test]
fn pack_shares_leftover_across_takers() {
    let bands = [
        Band {
            take_leftover: true,
            ..Band::new(4, vec![graph(0, "super"), graph(1, "perf")])
        },
        Band {
            take_leftover: true,
            ..Band::new(5, vec![graph(10, "super zone"), graph(11, "perf zone")])
        },
    ];
    let pack = pack(Rect::new(0, 0, 78, 21), &bands);
    let usage = pack.get(0).expect("super");
    let zone = pack.get(10).expect("zone");
    assert_eq!(usage.rect.height, 10);
    assert_eq!(zone.rect.height, 11);
    assert_eq!(
        usage.rect.height.saturating_add(zone.rect.height),
        21,
        "sibling bands must fill the pane"
    );
}

#[test]
fn pack_fills_the_pane_when_heat_band_is_absent() {
    let bands = [Band {
        max_height: Some(4),
        take_leftover: false,
        ..Band::new(4, vec![graph(0, "cpu"), graph(1, "super")])
    }];
    let pack = pack(Rect::new(0, 0, 78, 21), &bands);
    let cpu = pack.get(0).expect("cpu");
    assert_eq!(cpu.rect.height, 21, "unused leftover must fill the pane");
    assert_eq!(pack.get(1).expect("super").rect.height, 21);
}

#[test]
fn pack_drops_tail_band_when_short() {
    let area = Rect::new(0, 0, 58, 13);
    let pack = pack(area, &cpu_bands_hops(true));
    assert!(pack.get(30).is_none());
    assert_eq!(pack.get(0).expect("cpu").kind, CellKind::Graph);
    assert_eq!(pack.get(20).expect("hop").kind, CellKind::Spark);
}

#[test]
fn pack_omits_absent_cells() {
    let bands = [Band::new(
        5,
        vec![
            graph(0, "cpu"),
            CellSpec {
                present: false,
                ..graph(3, "eff")
            },
        ],
    )];
    let pack = pack(Rect::new(0, 0, 40, 5), &bands);
    assert!(pack.get(0).is_some());
    assert!(pack.get(3).is_none());
    assert_eq!(pack.get(0).expect("cpu").rect.width, 40);
}

#[test]
fn hop_at_hits_spark_rect() {
    let pack = pack(Rect::new(0, 0, 78, 21), &cpu_bands_hops(true));
    assert_eq!(pack.hop_at(1, 11), Some(Panel::Gpu));
    assert_eq!(pack.hop_at(50, 11), Some(Panel::Fans));
    assert_eq!(pack.hop_at(1, 1), None);
}

#[test]
fn bands_fit_counts_only_bands_with_present_cells() {
    let mut tall = Band::new(60_000, vec![graph(1, "a")]);
    tall.take_leftover = true;
    let mut empty = Band::new(60_000, vec![graph(2, "b")]);
    empty.cells[0].present = false;
    assert!(bands_fit(&[tall.clone(), empty]));
    assert!(!bands_fit(&[tall.clone(), tall]));
    assert!(bands_fit(&[]));
}

fn inside(r: Rect, area: Rect) -> bool {
    r.x >= area.x
        && u32::from(r.x) + u32::from(r.width) <= u32::from(area.x) + u32::from(area.width)
        && r.y >= area.y
        && u32::from(r.y) + u32::from(r.height) <= u32::from(area.y) + u32::from(area.height)
}

#[test]
fn packed_cells_stay_inside_and_rows_stack() {
    for (w, h) in [(120u16, 30u16), (80, 24), (40, 12), (200, 60)] {
        let area = Rect::new(3, 2, w, h);
        let cells = pack(area, &cpu_bands_hops(true)).cells;
        for c in &cells {
            assert!(inside(c.rect, area), "{c:?} in {area:?}");
        }
        for (i, a) in cells.iter().enumerate() {
            for b in &cells[i + 1..] {
                assert!(
                    (a.rect.y == b.rect.y && a.rect.height == b.rect.height) || a.rect.y + a.rect.height <= b.rect.y
                );
            }
        }
    }
    assert!(pack(Rect::new(0, 0, 0, 10), &cpu_bands_hops(true)).cells.is_empty());
}

#[test]
fn packed_cells_lie_apart() {
    for (w, h) in [(78u16, 21u16), (130, 40), (40, 5), (78, 13)] {
        let cells = pack(Rect::new(0, 0, w, h), &cpu_bands_hops(true)).cells;
        for (i, a) in cells.iter().enumerate() {
            for b in cells.iter().skip(i + 1) {
                let (ra, rb) = (a.rect, b.rect);
                assert!(
                    ra.x + ra.width <= rb.x
                        || rb.x + rb.width <= ra.x
                        || ra.y + ra.height <= rb.y
                        || rb.y + rb.height <= ra.y,
                    "{ra:?} and {rb:?} on {w}x{h}"
                );
            }
        }
    }
}
