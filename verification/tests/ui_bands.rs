use plottypus::snapshot::{DiskSnapshot, DiskVolume, FanMetric, FanSnapshot, MemorySnapshot, NetworkSnapshot};
use plottypus::ui::bands::{
    bands_for, cpu_bands, disk_bands, gpu_bands, is_extra_reading, mem_bands, net_bands, sens_bands, CpuCells, Gauge,
    GpuCells, PaneCells, SensCells, ID_MEM_APP, ID_MEM_COMPRESSED, ID_MEM_WIRED,
};
use plottypus::ui::expanded::{
    ID_CPU, ID_EFF_LOAD, ID_FAN0, ID_GPU_TEMP, ID_GPU_UTIL, ID_MEM, ID_NET_DOWN, ID_PACKAGE, ID_PERF_LOAD,
    ID_SUPER_LOAD, ID_SUPER_ZONE, ID_VOLUMES,
};
use plottypus::ui::grid::{pack, CellKind};
use plottypus::ui::layout::{Panel, Rect};

fn gauge(value: Option<&str>, live: bool) -> Gauge {
    Gauge {
        value: value.map(String::from),
        live,
    }
}

/// The cpu cells of a machine with super and performance cores and live
/// readings for both zones.
fn super_perf_cells() -> CpuCells {
    CpuCells {
        has_super: true,
        has_perf: true,
        has_eff: false,
        total_load: String::from("60%"),
        super_load: String::from("80%"),
        perf_load: String::from("40%"),
        eff_load: String::from("0%"),
        super_zone: gauge(Some("71°"), true),
        perf_zone: gauge(Some("62°"), true),
        eff_zone: gauge(None, false),
        package: gauge(None, false),
    }
}

fn no_fans() -> FanSnapshot {
    FanSnapshot { fans: Vec::new() }
}

fn fan(rpm: u16, max_rpm: u16) -> FanMetric {
    FanMetric {
        name: String::from("Fan"),
        rpm,
        max_rpm,
    }
}

#[test]
fn pack_cpu_main_78x13_reference() {
    let bands = cpu_bands(super_perf_cells());
    let packed = pack(Rect::new(0, 0, 78, 13), &bands);
    let usage = packed.get(ID_SUPER_LOAD).expect("super");
    let zone = packed.get(ID_SUPER_ZONE).expect("super zone");
    assert!(
        usage.rect.height > 4,
        "usage must grow with leftover, got {}",
        usage.rect.height
    );
    assert_eq!(usage.rect.height.saturating_add(zone.rect.height), 13);
    assert_eq!(usage.rect.y, 0);
    assert_eq!(zone.rect.y, usage.rect.height);
    assert!(packed.get(ID_CPU).is_none());
    assert!(packed.get(ID_PACKAGE).is_none());
}

#[test]
fn pack_cpu_shares_leftover_on_a_tall_pane() {
    let packed = pack(Rect::new(0, 0, 78, 30), &cpu_bands(super_perf_cells()));
    let usage = packed.get(ID_SUPER_LOAD).expect("super");
    let zone = packed.get(ID_SUPER_ZONE).expect("super zone");
    assert_eq!(usage.rect.height.saturating_add(zone.rect.height), 30);
    assert!(usage.rect.height >= 10, "got {}", usage.rect.height);
    assert!(zone.rect.height >= 10, "got {}", zone.rect.height);
}

#[test]
fn pack_cpu_without_zones_fills_a_tall_pane() {
    let cells = CpuCells {
        has_super: false,
        has_perf: true,
        has_eff: false,
        total_load: String::from("40%"),
        super_load: String::from("0%"),
        perf_load: String::from("40%"),
        eff_load: String::from("0%"),
        super_zone: gauge(None, false),
        perf_zone: gauge(None, false),
        eff_zone: gauge(None, false),
        package: gauge(None, false),
    };
    let packed = pack(Rect::new(0, 0, 130, 40), &cpu_bands(cells));
    let usage = packed.get(ID_PERF_LOAD).expect("performance");
    assert_eq!(usage.rect.height, 40, "usage must fill when heat is absent");
    assert!(packed.get(ID_SUPER_ZONE).is_none());
    assert!(packed.get(ID_PACKAGE).is_none());
}

#[test]
fn pack_gpu_without_temp_fills_a_tall_pane() {
    let cells = GpuCells {
        present: true,
        util: String::from("16%"),
        temp: gauge(None, false),
    };
    let packed = pack(Rect::new(0, 0, 130, 40), &gpu_bands(cells));
    let util = packed.get(ID_GPU_UTIL).expect("util");
    assert_eq!(util.rect.height, 40);
    assert!(packed.get(ID_GPU_TEMP).is_none());
}

#[test]
fn pack_gpu_shares_height_between_util_and_temp() {
    let cells = GpuCells {
        present: true,
        util: String::from("16%"),
        temp: gauge(Some("51°"), true),
    };
    let packed = pack(Rect::new(0, 0, 130, 30), &gpu_bands(cells));
    let util = packed.get(ID_GPU_UTIL).expect("util");
    let temp = packed.get(ID_GPU_TEMP).expect("temp");
    assert_eq!(util.rect.height.saturating_add(temp.rect.height), 30);
    let gap = util.rect.height.abs_diff(temp.rect.height);
    assert!(
        gap <= 1,
        "util {} vs temp {}",
        util.rect.height,
        temp.rect.height
    );
}

#[test]
fn cpu_total_load_only_without_clusters() {
    let mut cells = super_perf_cells();
    cells.has_super = false;
    cells.has_perf = false;
    let bands = cpu_bands(cells);
    assert_eq!(bands.len(), 2);
    assert!(bands[0].take_leftover && bands[1].take_leftover);
    assert_eq!(bands[0].min_height, 4);
    assert_eq!(bands[0].cells[0].id, ID_CPU);
    assert!(bands[0].cells[0].present);
    assert_eq!(bands[0].cells[0].title.value.as_deref(), Some("60%"));
    assert!(!bands[0].cells[1].present);
    assert!(!bands[0].cells[3].present);
    assert_eq!(bands[0].cells[3].id, ID_EFF_LOAD);
}

#[test]
fn cpu_package_shows_only_without_live_zones() {
    let mut cells = super_perf_cells();
    cells.package = gauge(Some("48°"), true);
    let with_zones = cpu_bands(cells.clone());
    assert!(!with_zones[1].cells[3].present);
    cells.super_zone.live = false;
    cells.perf_zone.live = false;
    let without = cpu_bands(cells);
    assert!(without[1].cells[3].present);
    assert_eq!(without[1].cells[3].title.value.as_deref(), Some("48°"));
    assert_eq!(without[1].cells[3].title.label, "package");
}

#[test]
fn no_gpu_means_no_bands() {
    let cells = GpuCells {
        present: false,
        util: String::from("0%"),
        temp: gauge(None, false),
    };
    assert!(gpu_bands(cells).is_empty());
}

fn sens_cells(readings: bool) -> SensCells {
    SensCells {
        super_zone: gauge(None, false),
        perf_zone: gauge(Some("55°"), true),
        eff_zone: gauge(None, false),
        package: gauge(Some("57°"), true),
        gpu_temp: gauge(None, false),
        readings,
    }
}

#[test]
fn sensors_list_the_first_four_fans_that_report() {
    let fans = FanSnapshot {
        fans: vec![fan(1200, 6000), fan(0, 0), fan(0, 5000), fan(2140, 6000), fan(3000, 6000)],
    };
    let bands = sens_bands(sens_cells(true), &fans);
    assert_eq!(bands.len(), 3);
    let row = &bands[1].cells;
    assert_eq!(row.len(), 3);
    assert_eq!(row[0].id, ID_FAN0);
    assert_eq!(row[0].title.label, "Fan 1");
    assert_eq!(row[0].title.value.as_deref(), Some("1200 rpm"));
    assert_eq!(row[1].id, ID_FAN0 + 2);
    assert_eq!(row[1].title.label, "Fan 3");
    assert_eq!(row[1].title.value.as_deref(), Some("0 rpm"));
    assert_eq!(row[2].id, ID_FAN0 + 3);
    assert_eq!(row[2].title.label, "Fan 4");
    assert_eq!(row[2].title.value.as_deref(), Some("2140 rpm"));
    assert_eq!(bands[2].min_height, 3);
    assert!(!bands[2].take_leftover);
    assert!(bands[2].cells[0].present);
    assert_eq!(bands[2].cells[0].kind, CellKind::List);
}

#[test]
fn sensors_without_fans_keep_an_empty_fan_row() {
    let bands = sens_bands(sens_cells(false), &no_fans());
    assert!(bands[1].cells.is_empty());
    assert!(!bands[2].cells[0].present);
    assert_eq!(bands[0].cells.len(), 5);
    assert!(bands[0].cells[1].present);
    assert!(!bands[0].cells[0].present);
}

#[test]
fn graph_names_are_not_extra_readings() {
    for name in ["cpu", "gpu", "efficiency", "performance", "super"] {
        assert!(!is_extra_reading(name), "{name}");
    }
    assert!(is_extra_reading("battery"));
    assert!(is_extra_reading("CPU"));
}

#[test]
fn memory_parts_skip_zeros() {
    let mut m = MemorySnapshot::default();
    m.used_bytes = 18 * 1024 * 1024 * 1024;
    m.total_bytes = 36 * 1024 * 1024 * 1024;
    m.wired_bytes = 3 * 1024 * 1024 * 1024;
    m.compressed_bytes = 0;
    let bands = mem_bands(&m);
    assert_eq!(bands[0].cells[0].id, ID_MEM);
    assert_eq!(bands[0].cells[0].title.value.as_deref(), Some("18.0G / 36.0G"));
    let parts = &bands[1].cells;
    assert_eq!(parts.len(), 2);
    assert_eq!(parts[0].id, ID_MEM_WIRED);
    assert_eq!(parts[0].title.value.as_deref(), Some("3.0G"));
    assert_eq!(parts[1].id, ID_MEM_APP);
    assert_eq!(parts[1].title.label, "app");
    assert_eq!(parts[1].title.value.as_deref(), Some("15.0G"));
    m.compressed_bytes = 20 * 1024 * 1024 * 1024;
    let bands = mem_bands(&m);
    let ids: Vec<u8> = bands[1].cells.iter().map(|c| c.id).collect();
    assert_eq!(ids, [ID_MEM_WIRED, ID_MEM_COMPRESSED]);
}

#[test]
fn net_and_disk_rates_are_formatted() {
    let net = NetworkSnapshot {
        iface: String::from("en0"),
        rx_bps: 12_400_000,
        tx_bps: 800,
    };
    let bands = net_bands(&net);
    assert_eq!(bands.len(), 1);
    assert_eq!(bands[0].cells[0].id, ID_NET_DOWN);
    assert_eq!(bands[0].cells[0].title.value.as_deref(), Some("12.4Mb"));
    assert_eq!(bands[0].cells[1].title.value.as_deref(), Some("800b"));
    let disk = DiskSnapshot {
        volumes: vec![DiskVolume {
            name: String::from("Macintosh HD"),
            mount: String::from("/"),
            used_bytes: 1,
            total_bytes: 2,
        }],
        read_bps: 2048,
        write_bps: 0,
    };
    let bands = disk_bands(&disk);
    assert_eq!(bands[0].cells[0].title.value.as_deref(), Some("2K/s"));
    assert_eq!(bands[0].cells[1].title.value.as_deref(), Some("0B/s"));
    assert_eq!(bands[1].cells[0].id, ID_VOLUMES);
    assert!(bands[1].cells[0].present);
}

#[test]
fn processes_have_no_bands() {
    let cells = PaneCells {
        cpu: super_perf_cells(),
        gpu: GpuCells {
            present: true,
            util: String::from("1%"),
            temp: gauge(None, false),
        },
        sens: sens_cells(false),
    };
    let mem = MemorySnapshot::default();
    let net = NetworkSnapshot {
        iface: String::new(),
        rx_bps: 0,
        tx_bps: 0,
    };
    let disk = DiskSnapshot {
        volumes: Vec::new(),
        read_bps: 0,
        write_bps: 0,
    };
    let bands = bands_for(Panel::Processes, cells, &no_fans(), &mem, &net, &disk);
    assert!(bands.is_empty());
}
