use plottypus::config::{
    Config, ProcSort, INTERVAL_DEFAULT, INTERVAL_FAST, INTERVAL_SLOW, PROC_RATIO_DEFAULT,
};
use plottypus::error::Error;
use plottypus::snapshot::{ClusterKind, DiskSnapshot, DiskVolume, FanMetric, FanSnapshot, SocInfo, Thermal};
use plottypus::surface::{auto_surface, Surface};

#[test]
fn interval_cycles_three_steps() {
    let cfg = Config::default();
    assert_eq!(cfg.interval, INTERVAL_DEFAULT);
    let next = cfg.cycle_interval();
    assert_eq!(next, INTERVAL_SLOW);
    let cfg = cfg.with_interval(next);
    assert_eq!(cfg.cycle_interval(), INTERVAL_FAST);
    let cfg = cfg.with_interval(INTERVAL_FAST);
    assert_eq!(cfg.cycle_interval(), INTERVAL_DEFAULT);
}

#[test]
fn defaults_show_net_but_hide_disk() {
    let cfg = Config::default();
    assert!(cfg.show_net);
    assert!(!cfg.show_disk);
    assert_eq!(cfg.proc_ratio, PROC_RATIO_DEFAULT);
}

#[test]
fn proc_sort_cycles_and_labels() {
    assert_eq!(ProcSort::Cpu.next(), ProcSort::Mem);
    assert_eq!(ProcSort::Mem.next(), ProcSort::Pid);
    assert_eq!(ProcSort::Pid.next(), ProcSort::Cpu);
    assert_eq!(ProcSort::Cpu.label(), "cpu");
    assert_eq!(ProcSort::Mem.label(), "mem");
    assert_eq!(ProcSort::Pid.label(), "pid");
}

#[test]
fn system_display() {
    let err = Error::system("host_statistics64");
    assert_eq!(err.message(), "system: host_statistics64");
}

#[test]
fn process_display() {
    let err = Error::process(12, "permission denied");
    assert_eq!(err.message(), "process 12: permission denied");
}

#[test]
fn terminal_display() {
    let err = Error::terminal("raw mode");
    assert_eq!(err.message(), "terminal: raw mode");
}

#[test]
fn small_terminal_is_glance() {
    assert_eq!(auto_surface(30, 40), Surface::Glance);
    assert_eq!(auto_surface(80, 10), Surface::Glance);
    assert_eq!(auto_surface(80, 15), Surface::Glance);
}

#[test]
fn typical_terminal_is_work() {
    assert_eq!(auto_surface(80, 24), Surface::Work);
    assert_eq!(auto_surface(120, 30), Surface::Work);
    assert_eq!(auto_surface(40, 16), Surface::Work);
}

#[test]
fn other_flips() {
    assert_eq!(Surface::Work.other(), Surface::Glance);
    assert_eq!(Surface::Glance.other(), Surface::Work);
}

#[test]
fn other_twice_is_identity() {
    for s in [Surface::Work, Surface::Glance] {
        assert_eq!(s.other().other(), s);
    }
}

fn volume(name: &str, mount: &str, used: u64, total: u64) -> DiskVolume {
    DiskVolume {
        name: String::from(name),
        mount: String::from(mount),
        used_bytes: used,
        total_bytes: total,
    }
}

#[test]
fn disk_primary_prefers_root() {
    let snap = DiskSnapshot {
        volumes: vec![
            volume("Data", "/System/Volumes/Data", 10, 100),
            volume("Macintosh HD", "/", 40, 100),
        ],
        read_bps: 0,
        write_bps: 0,
    };
    assert_eq!(snap.primary().map(|v| v.mount.as_str()), Some("/"));
    assert_eq!(snap.primary().map(|v| v.used_bytes), Some(40));
}

#[test]
fn disk_primary_falls_back_to_first_and_none() {
    let snap = DiskSnapshot {
        volumes: vec![volume("A", "/Volumes/A", 1, 2), volume("B", "/Volumes/B", 1, 2)],
        read_bps: 0,
        write_bps: 0,
    };
    assert_eq!(snap.primary().map(|v| v.name.as_str()), Some("A"));
    let empty = DiskSnapshot { volumes: Vec::new(), read_bps: 0, write_bps: 0 };
    assert!(empty.primary().is_none());
}

#[test]
fn fanless_is_absent() {
    assert!(!FanSnapshot::empty().is_present());
    let fans = FanSnapshot {
        fans: vec![FanMetric { name: String::from("Fan 1"), rpm: 1800, max_rpm: 6000 }],
    };
    assert!(fans.is_present());
    let idle = FanSnapshot {
        fans: vec![FanMetric { name: String::from("Fan 1"), rpm: 0, max_rpm: 0 }],
    };
    assert!(!idle.is_present());
}

#[test]
fn thermal_nominal_only() {
    assert!(Thermal::Nominal.is_nominal());
    assert!(!Thermal::Fair.is_nominal());
    assert!(!Thermal::Serious.is_nominal());
    assert!(!Thermal::Critical.is_nominal());
}

#[test]
fn soc_default_is_unknown() {
    let soc = SocInfo::default();
    assert_eq!(soc.name, "unknown");
    assert_eq!(soc.e_cores + soc.p_cores + soc.s_cores, 0);
}

#[test]
fn save_then_load_roundtrips() {
    let cfg = Config {
        interval: INTERVAL_FAST,
        show_gpu: false,
        surface: Some(Surface::Glance),
        proc_sort: ProcSort::Mem,
        proc_ratio: 66,
        ..Config::default()
    };
    let text = cfg.to_text();
    let loaded = Config::from_text(&text);
    assert_eq!(loaded, cfg);
}

#[test]
fn garbage_values_fall_back_per_key() {
    let cfg = Config::from_text(
        "interval_ms = 99999\nproc_ratio = 5\nshow_fans = maybe\nsort = nope\n",
    );
    assert_eq!(cfg.interval, INTERVAL_DEFAULT);
    assert_eq!(cfg.proc_ratio, plottypus::config::PROC_RATIO_MIN);
    assert!(cfg.show_fans);
    assert_eq!(cfg.proc_sort, ProcSort::Cpu);
}

#[test]
fn partial_file_overrides_only_named_keys() {
    let cfg = Config::from_text("# comment\nshow_threads = true\n");
    assert!(cfg.show_threads);
    assert!(!cfg.show_disk);
}

#[test]
fn settings_text_is_line_per_key() {
    let text = Config::default().to_text();
    assert_eq!(
        text,
        "interval_ms = 1000\n# surface = work\nshow_gpu = true\nshow_net = true\nshow_disk = false\nshow_fans = true\nshow_cores = true\nshow_threads = false\nsort = \"cpu\"\nproc_ratio = 55\n"
    );
}

#[test]
fn settings_lines_trim_quotes_comments_and_crlf() {
    let cfg = Config::from_text("  sort = \"pid\"  # by id\r\nsurface=work\r\nproc_ratio = +90\nshow_disk = true");
    assert_eq!(cfg.proc_sort, ProcSort::Pid);
    assert_eq!(cfg.surface, Some(Surface::Work));
    assert_eq!(cfg.proc_ratio, plottypus::config::PROC_RATIO_MAX);
    assert!(cfg.show_disk);
}

#[test]
fn apply_ignores_unknown_keys() {
    let mut cfg = Config::default();
    cfg.apply("colour", "red");
    assert_eq!(cfg, Config::default());
    cfg.apply("interval_ms", "2000");
    assert_eq!(cfg.interval, INTERVAL_SLOW);
    cfg.apply("interval_ms", "750");
    assert_eq!(cfg.interval, INTERVAL_SLOW);
}

fn chip(e: u8, p: u8, s: u8) -> SocInfo {
    SocInfo { e_cores: e, p_cores: p, s_cores: s, ..SocInfo::default() }
}

#[test]
fn cores_take_roles_in_family_order() {
    let soc = chip(2, 2, 2);
    assert_eq!(soc.role_for(0, 6), Some((ClusterKind::Efficiency, 0)));
    assert_eq!(soc.role_for(1, 6), Some((ClusterKind::Efficiency, 1)));
    assert_eq!(soc.role_for(3, 6), Some((ClusterKind::Performance, 1)));
    assert_eq!(soc.role_for(4, 6), Some((ClusterKind::Super, 0)));
    assert_eq!(soc.role_for(5, 6), Some((ClusterKind::Super, 1)));
    assert_eq!(soc.role_for(6, 6), None);
}

#[test]
fn extra_cores_join_the_last_family() {
    let soc = chip(4, 4, 0);
    assert_eq!(soc.role_for(9, 12), Some((ClusterKind::Performance, 5)));
    assert_eq!(chip(1, 1, 1).role_for(4, 5), Some((ClusterKind::Super, 2)));
    assert_eq!(chip(0, 0, 0).role_for(0, 8), None);
    assert_eq!(chip(0, 0, 1).role_for(70_000, 80_000), Some((ClusterKind::Super, u16::MAX)));
}
