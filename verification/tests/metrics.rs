use plottypus::metrics::cpu::{core_active_ticks, overall_active_ticks, CpuCollector};
use plottypus::metrics::disk::{keep_volume, prefer_root_over_data, volume_name};
use plottypus::metrics::fan::{decode_rpm, fan_key, fourcc, smc_value, type_code, SmcValue};
use plottypus::metrics::memory::{pressure_from_level, used_bytes, VmPages};
use plottypus::metrics::process::{
    argv0_from_procargs, basename, i32_at, i64_at, kill_outcome, kill_target, libc_signal, parse_kinfo,
    parse_one_kinfo, preferred_name, Signal, KINFO_PROC_LEN, OFF_COMM, OFF_PID, OFF_PPID, OFF_START_SEC,
};
use plottypus::metrics::soc::cluster_counts;
use plottypus::metrics::sys::{mach_ticks_to_ns, sample_due};
use plottypus::metrics::thermal::thermal_from_nsprocessinfo;
use plottypus::metrics::topology::{assemble, parse_cpu_index};
use plottypus::metrics::zones::{
    cluster_letter_kind, counts_from_levels, extra_name, hid_has_macc, hid_temp_zone,
    kind_from_level_name, smc_has_te, smc_temp_zone, TempZone,
};
use plottypus::snapshot::{ClusterKind, DiskVolume, Pressure, Thermal};

fn ratio(t: (u64, u64)) -> f32 {
    if t.1 == 0 {
        0.0
    } else {
        t.0 as f32 / t.1 as f32
    }
}

#[test]
fn ratio_from_two_tick_arrays() {
    let prev = vec![[10, 5, 80, 5], [0, 0, 100, 0]];
    let now = vec![[20, 15, 90, 5], [10, 0, 110, 0]];
    assert!((ratio(core_active_ticks(&prev[0], &now[0])) - 20.0 / 30.0).abs() < f32::EPSILON);
    assert!((ratio(core_active_ticks(&prev[1], &now[1])) - 0.5).abs() < f32::EPSILON);
    assert_eq!(overall_active_ticks(&prev, &now), (30, 50));
    assert!((ratio(overall_active_ticks(&prev, &now)) - 0.6).abs() < f32::EPSILON);
}

#[test]
fn zero_delta_is_idle() {
    let ticks = [4, 1, 90, 1];
    assert_eq!(core_active_ticks(&ticks, &ticks), (0, 0));
    assert_eq!(overall_active_ticks(&[ticks], &[ticks]), (0, 0));
}

#[test]
fn length_mismatch_is_zero() {
    assert_eq!(overall_active_ticks(&[[1, 0, 0, 0]], &[[1, 0, 0, 0], [1, 0, 0, 0]]), (0, 0));
}

#[test]
fn wrapping_ticks() {
    let prev = [u32::MAX - 4, 0, 10, 0];
    let now = [5, 0, 20, 0];
    assert_eq!(core_active_ticks(&prev, &now), (10, 20));
    let r = ratio(core_active_ticks(&prev, &now));
    assert!(r > 0.4 && r < 0.6, "{r}");
}

#[test]
fn collector_measures_against_previous_sample() {
    let mut col = CpuCollector::new();
    let first = vec![[1, 1, 1, 1], [2, 2, 2, 2]];
    assert_eq!(col.advance(&first), first);
    let second = vec![[5, 1, 1, 1], [2, 2, 9, 2]];
    assert_eq!(col.advance(&second), first);
    let third = vec![[9, 9, 9, 9]];
    assert_eq!(col.advance(&third), third);
}

#[test]
fn keep_root_and_user_volumes() {
    assert!(keep_volume("apfs", "/"));
    assert!(keep_volume("hfs", "/"));
    assert!(keep_volume("apfs", "/Volumes/External"));
    assert!(keep_volume("exfat", "/Volumes/USB"));
    assert!(keep_volume("APFS", "/"));
    assert!(keep_volume("apfs", "/System/Volumes/Data"));
}

#[test]
fn skip_virtual_and_system_mounts() {
    assert!(!keep_volume("devfs", "/dev"));
    assert!(!keep_volume("autofs", "/System/Volumes/Data/home"));
    assert!(!keep_volume("fdesc", "/dev"));
    assert!(!keep_volume("apfs", "/dev"));
    assert!(!keep_volume("apfs", "/dev/disk3s1"));
    assert!(!keep_volume("apfs", "/System/Volumes/VM"));
    assert!(!keep_volume("apfs", "/System/Volumes/Preboot"));
    assert!(!keep_volume("apfs", "/System/Volumes/Update"));
    assert!(!keep_volume("apfs", "/System/Volumes/Update/mnt1"));
    assert!(!keep_volume("apfs", "/System/Volumes/xarts"));
    assert!(!keep_volume("apfs", "/System/Volumes/iSCPreboot"));
    assert!(!keep_volume("apfs", "/System/Volumes/Hardware"));
    assert!(!keep_volume("nfs", "/mnt/server"));
    assert!(!keep_volume("apfs", ""));
}

#[test]
fn prefix_match_needs_a_path_boundary() {
    assert!(keep_volume("apfs", "/devices"));
    assert!(keep_volume("apfs", "/System/Volumes/VMware"));
    assert!(keep_volume("apfs", "/Volumes/"));
    assert!(!keep_volume("msdos", "/Volumes/"));
    assert!(keep_volume("exfat", "/Volumes/x"));
}

fn vol(name: &str, mount: &str) -> DiskVolume {
    DiskVolume {
        name: String::from(name),
        mount: String::from(mount),
        used_bytes: 1,
        total_bytes: 2,
    }
}

#[test]
fn prefer_root_drops_data_firmlink() {
    let out = prefer_root_over_data(vec![
        vol("Data", "/System/Volumes/Data"),
        vol("Macintosh HD", "/"),
    ]);
    assert_eq!(out.len(), 1);
    assert_eq!(out[0].mount, "/");
    assert_eq!(out[0].name, "Macintosh HD");
}

#[test]
fn data_volume_kept_when_root_absent() {
    let out = prefer_root_over_data(vec![vol("Data", "/System/Volumes/Data")]);
    assert_eq!(out.len(), 1);
    assert_eq!(out[0].mount, "/System/Volumes/Data");
}

#[test]
fn volume_name_from_mount() {
    assert_eq!(volume_name("/"), "Macintosh HD");
    assert_eq!(volume_name("/Volumes/External SSD"), "External SSD");
    assert_eq!(volume_name("/System/Volumes/Data"), "Data");
}

#[test]
fn volume_name_edge_cases() {
    assert_eq!(volume_name("/Volumes/USB/"), "USB");
    assert_eq!(volume_name("//"), "//");
    assert_eq!(volume_name(""), "");
    assert_eq!(volume_name("disk"), "disk");
}

#[test]
fn fourcc_is_be() {
    assert_eq!(fourcc(*b"F0Ac"), 0x4630_4163);
    assert_eq!(type_code(*b"flt "), 0x666c_7420);
}

#[test]
fn fan_key_builds_indexed_keys() {
    assert_eq!(fan_key(0, *b"Ac"), fourcc(*b"F0Ac"));
    assert_eq!(fan_key(1, *b"Mx"), fourcc(*b"F1Mx"));
    assert_eq!(fan_key(250, *b"Ac"), fourcc([b'F', 255, b'A', b'c']));
}

#[test]
fn decode_fpe2() {
    let bytes = [0x1c, 0x20, 0, 0];
    let rpm = decode_rpm(type_code(*b"fpe2"), &bytes, 2).unwrap();
    assert_eq!(rpm, 1800);
}

#[test]
fn decode_flt() {
    let bits = 1850.0_f32.to_le_bytes();
    let rpm = decode_rpm(type_code(*b"flt "), &bits, 4).unwrap();
    assert_eq!(rpm, 1850);
}

#[test]
fn decode_rejects_garbage() {
    let bits = 99_000.0_f32.to_le_bytes();
    assert!(decode_rpm(type_code(*b"flt "), &bits, 4).is_none());
    assert!(decode_rpm(type_code(*b"flt "), &[], 0).is_none());
}

fn float_rpm(v: f32) -> Option<u16> {
    if !(0.0..=20_000.0).contains(&v) || !v.is_finite() {
        return None;
    }
    Some(v.round() as u16)
}

#[test]
fn decode_flt_matches_f32_rounding() {
    let mut values = vec![
        0.0_f32, -0.0, 0.5, 1.5, 2.5, 0.49999997, 1234.5, 19_999.5, 20_000.0, 20_000.002,
        -1.0, f32::NAN, f32::INFINITY, f32::NEG_INFINITY, f32::MIN_POSITIVE, 1e-40, 3.75,
    ];
    let mut x: u32 = 0x1234_5678;
    for _ in 0..50_000 {
        x ^= x << 13;
        x ^= x >> 17;
        x ^= x << 5;
        values.push(f32::from_bits(x));
        values.push(f32::from_bits(x % 0x4700_0000));
    }
    for v in values {
        let got = decode_rpm(type_code(*b"flt "), &v.to_le_bytes(), 4);
        assert_eq!(got, float_rpm(v), "{v:?} bits {:#x}", v.to_bits());
    }
}

#[test]
fn decode_integer_types() {
    assert_eq!(decode_rpm(type_code(*b"ui8 "), &[200], 1), Some(200));
    assert_eq!(decode_rpm(type_code(*b"ui16"), &[0x07, 0xd0], 2), Some(2000));
    assert_eq!(decode_rpm(type_code(*b"ui16"), &[0xff, 0xff], 2), None);
    assert_eq!(decode_rpm(type_code(*b"ui32"), &[0, 0, 0x4e, 0x20], 4), Some(20000));
    assert_eq!(decode_rpm(type_code(*b"ui32"), &[0, 0, 0x4e, 0x21], 4), None);
    assert_eq!(decode_rpm(type_code(*b"sp78"), &[0x0a, 0x80], 2), Some(2688));
    assert_eq!(decode_rpm(type_code(*b"sp78"), &[0xff, 0x00], 2), None);
    assert_eq!(decode_rpm(0, &[9], 1), Some(9));
    assert_eq!(decode_rpm(0, &[1, 2, 3], 3), None);
    assert_eq!(decode_rpm(type_code(*b"flt "), &[0, 0], 4), None);
}

#[test]
fn used_bytes_matches_research_formula() {
    let pages = VmPages {
        active: 10,
        inactive: 20,
        wire: 5,
        speculative: 2,
        compressor: 8,
        purgeable: 3,
        external: 4,
    };
    assert_eq!(used_bytes(pages, 4096), 38 * 4096);
}

#[test]
fn used_bytes_saturates_when_subtracting() {
    let pages = VmPages {
        active: 1,
        inactive: 1,
        wire: 1,
        speculative: 0,
        compressor: 0,
        purgeable: 10,
        external: 10,
    };
    assert_eq!(used_bytes(pages, 4096), 0);
}

#[test]
fn used_bytes_saturates_when_multiplying() {
    let pages = VmPages {
        active: u64::MAX,
        inactive: 5,
        wire: 0,
        speculative: 0,
        compressor: 0,
        purgeable: 0,
        external: 0,
    };
    assert_eq!(used_bytes(pages, 4096), u64::MAX);
}

#[test]
fn pressure_mapping() {
    assert_eq!(pressure_from_level(None), Pressure::Nominal);
    assert_eq!(pressure_from_level(Some(1)), Pressure::Nominal);
    assert_eq!(pressure_from_level(Some(2)), Pressure::Warn);
    assert_eq!(pressure_from_level(Some(4)), Pressure::Critical);
    assert_eq!(pressure_from_level(Some(99)), Pressure::Nominal);
}

#[test]
fn basename_from_path() {
    assert_eq!(basename("/Applications/Xcode.app/Contents/MacOS/Xcode"), "Xcode");
    assert_eq!(basename("kernel_task"), "kernel_task");
    assert_eq!(basename("/"), "/");
}

#[test]
fn argv0_wins_over_version_folder_paths() {
    assert_eq!(
        preferred_name(
            50,
            Some("zedit"),
            Some("/Users/x/.local/share/zedit/versions/2.1.241"),
            "2.1.241"
        ),
        "zedit"
    );
}

#[test]
fn name_falls_back_path_then_comm() {
    assert_eq!(
        preferred_name(50, None, Some("/Applications/Safari.app/MacOS/Safari"), ""),
        "Safari"
    );
    assert_eq!(preferred_name(50, None, None, "MTLCompilerServi"), "MTLCompilerServi");
    assert_eq!(preferred_name(50, Some("/"), Some(""), ""), "/");
}

#[test]
fn pid_label_when_nothing_else() {
    assert_eq!(preferred_name(50, None, None, ""), "pid 50");
}

#[test]
fn signal_numbers() {
    assert_eq!(libc_signal(Signal::Term), libc::SIGTERM);
    assert_eq!(libc_signal(Signal::Kill), libc::SIGKILL);
    assert_eq!(libc_signal(Signal::Int), libc::SIGINT);
}

#[test]
fn send_signal_rejects_pid_zero() {
    let err = kill_target(0).expect_err("pid 0");
    assert!(err.message().contains("invalid pid"));
    assert!(kill_target(u32::MAX).is_err());
    assert_eq!(kill_target(42).ok(), Some(42));
}

#[test]
fn kill_outcome_reports_os_error() {
    assert!(kill_outcome(7, 0, "").is_ok());
    let err = kill_outcome(7, -1, "No such process").expect_err("failed kill");
    assert_eq!(err.message(), "process 7: No such process");
}

#[test]
fn cluster_counts_two_and_three_level() {
    assert_eq!(cluster_counts(2, [6, 4, 0]), (4, 6, 0));
    assert_eq!(cluster_counts(3, [2, 6, 4]), (4, 6, 2));
    assert_eq!(cluster_counts(1, [8, 0, 0]), (0, 8, 0));
    assert_eq!(cluster_counts(0, [0, 0, 0]), (0, 0, 0));
}

#[test]
fn maps_nsprocessinfo_states() {
    assert_eq!(thermal_from_nsprocessinfo(0), Thermal::Nominal);
    assert_eq!(thermal_from_nsprocessinfo(1), Thermal::Fair);
    assert_eq!(thermal_from_nsprocessinfo(2), Thermal::Serious);
    assert_eq!(thermal_from_nsprocessinfo(3), Thermal::Critical);
    assert_eq!(thermal_from_nsprocessinfo(-1), Thermal::Nominal);
}

#[test]
fn timebase_conversion() {
    assert_eq!(mach_ticks_to_ns(0, 125, 3), 0);
    assert_eq!(mach_ticks_to_ns(24, 125, 3), 1000);
    assert_eq!(mach_ticks_to_ns(1_000_000, 1, 1), 1_000_000);
    assert_eq!(mach_ticks_to_ns(7, 1, 0), 7);
    assert_eq!(mach_ticks_to_ns(u64::MAX, 2, 1), u64::MAX);
}

#[test]
fn hid_acc_names() {
    assert_eq!(hid_temp_zone("eACC MTR Temp Sensor1", false), TempZone::Efficiency);
    assert_eq!(hid_temp_zone("pACC MTR Temp Sensor2", false), TempZone::Performance);
    assert_eq!(hid_temp_zone("pACC MTR Temp Sensor2", true), TempZone::Super);
    assert_eq!(hid_temp_zone("mACC MTR Temp Sensor0", true), TempZone::Performance);
    assert_eq!(hid_temp_zone("PMU tdie3", false), TempZone::Cpu);
    assert_eq!(hid_temp_zone("GPU MTR Temp Sensor1", false), TempZone::Gpu);
    assert_eq!(hid_temp_zone("NAND CH0 temp", false), TempZone::Other);
    assert!(hid_has_macc(&["pACC", "mACC 1"]));
    assert!(!hid_has_macc(&["pACC", "eACC"]));
}

#[test]
fn smc_keys_split_only_when_honest() {
    assert_eq!(smc_temp_zone("Te05", true), TempZone::Efficiency);
    assert_eq!(smc_temp_zone("Tf04", true), TempZone::Performance);
    assert_eq!(smc_temp_zone("Tp01", true), TempZone::Performance);
    assert_eq!(smc_temp_zone("Tp01", false), TempZone::Cpu);
    assert_eq!(smc_temp_zone("TC0C", false), TempZone::Cpu);
    assert_eq!(smc_temp_zone("Tg0D", false), TempZone::Gpu);
    assert!(smc_has_te(&["Tp01", "Te05"]));
    assert!(!smc_has_te(&["Tp01", "TC0P"]));
}

#[test]
fn cluster_letters() {
    assert_eq!(cluster_letter_kind('E', "EP", false), Some(ClusterKind::Efficiency));
    assert_eq!(cluster_letter_kind('P', "EP", false), Some(ClusterKind::Performance));
    assert_eq!(cluster_letter_kind('M', "MP", true), Some(ClusterKind::Performance));
    assert_eq!(cluster_letter_kind('P', "MP", true), Some(ClusterKind::Super));
    assert_eq!(cluster_letter_kind('P', "EP", true), Some(ClusterKind::Super));
    assert_eq!(cluster_letter_kind('P', "EPS", true), Some(ClusterKind::Performance));
    assert_eq!(cluster_letter_kind('X', "EP", false), None);
}

#[test]
fn named_perflevels() {
    assert_eq!(kind_from_level_name("Super"), Some(ClusterKind::Super));
    assert_eq!(kind_from_level_name("Performance"), Some(ClusterKind::Performance));
    assert_eq!(kind_from_level_name("Efficiency"), Some(ClusterKind::Efficiency));
    assert_eq!(
        counts_from_levels(&[(ClusterKind::Super, 6), (ClusterKind::Performance, 12)]),
        (0, 12, 6)
    );
}

#[test]
fn level_counts_saturate() {
    assert_eq!(
        counts_from_levels(&[(ClusterKind::Efficiency, 200), (ClusterKind::Efficiency, 100)]),
        (255, 0, 0)
    );
    assert_eq!(kind_from_level_name("Turbo"), None);
}

#[test]
fn extra_names() {
    assert_eq!(extra_name("NAND CH0 temp"), "nand");
    assert_eq!(extra_name("TH0x"), "nand");
    assert_eq!(extra_name("Ambient sensor"), "ambient");
    assert_eq!(extra_name("TaLC"), "ambient");
    assert_eq!(extra_name(""), "temp");
    assert_eq!(extra_name("Battery Temperature Sensor"), "Battery Temp");
    assert_eq!(extra_name("Tm02"), "Tm02");
}

#[test]
fn assemble_orders_cores_by_logical_id() {
    let found = vec![(1, 'P'), (0, 'e'), (2, 'P')];
    assert_eq!(
        assemble(&found, false),
        vec![ClusterKind::Efficiency, ClusterKind::Performance, ClusterKind::Performance]
    );
    let super_chip = vec![(0, 'M'), (1, 'P')];
    assert_eq!(assemble(&super_chip, true), vec![ClusterKind::Performance, ClusterKind::Super]);
}

#[test]
fn assemble_gives_up_on_gaps_and_unknown_letters() {
    assert!(assemble(&vec![(0, 'E'), (2, 'P')], false).is_empty());
    assert!(assemble(&vec![(0, 'E'), (1, 'X')], false).is_empty());
    assert!(assemble(&Vec::new(), false).is_empty());
}

#[test]
fn cpu_index_from_name() {
    assert_eq!(parse_cpu_index("cpu7"), Some(7));
    assert_eq!(parse_cpu_index("cpu+12"), Some(12));
    assert_eq!(parse_cpu_index("cpu"), None);
    assert_eq!(parse_cpu_index("gpu1"), None);
    assert_eq!(parse_cpu_index("cpu1a"), None);
    assert_eq!(parse_cpu_index("cpu-1"), None);
    assert_eq!(parse_cpu_index("cpu99999999999999999999999"), None);
}

fn procargs(argc: i32, rest: &[u8]) -> Vec<u8> {
    let mut buf = argc.to_le_bytes().to_vec();
    buf.extend_from_slice(rest);
    buf
}

#[test]
fn argv0_is_the_first_argument_after_the_path() {
    let buf = procargs(2, b"/usr/local/bin/zedit\0\0\0\0zedit\0-x\0");
    assert_eq!(argv0_from_procargs(&buf).as_deref(), Some("zedit"));
    let launcher = procargs(1, b"/Apps/Tool.app/Versions/3/tool\0\0launcher\0");
    assert_eq!(argv0_from_procargs(&launcher).as_deref(), Some("launcher"));
}

#[test]
fn argv0_needs_an_argument() {
    assert_eq!(argv0_from_procargs(&procargs(0, b"/bin/sh\0\0sh\0")), None);
    assert_eq!(argv0_from_procargs(&procargs(-3, b"/bin/sh\0\0sh\0")), None);
    assert_eq!(argv0_from_procargs(&procargs(1, b"/bin/sh\0\0\0\0")), None);
    assert_eq!(argv0_from_procargs(&[1, 0, 0, 0, b'a']), None);
}

#[test]
fn argv0_bytes_are_decoded_lossily() {
    let buf = procargs(1, b"/x\0\0ab\xffc\0");
    assert_eq!(argv0_from_procargs(&buf).as_deref(), Some("ab\u{fffd}c"));
}

fn record(pid: i32, ppid: i32, start: i64, comm: &[u8]) -> Vec<u8> {
    let mut r = vec![0u8; KINFO_PROC_LEN];
    r[OFF_START_SEC..OFF_START_SEC + 8].copy_from_slice(&start.to_le_bytes());
    r[OFF_PID..OFF_PID + 4].copy_from_slice(&pid.to_le_bytes());
    r[OFF_PPID..OFF_PPID + 4].copy_from_slice(&ppid.to_le_bytes());
    r[OFF_COMM..OFF_COMM + comm.len()].copy_from_slice(comm);
    r
}

#[test]
fn kinfo_records_skip_empty_slots_and_partial_tails() {
    let mut buf = record(42, 1, 1_700_000_000, b"launchd\0");
    buf.extend(record(0, 0, 0, b"ghost\0"));
    buf.extend(record(7, -1, -5, b"abcdefghijklmnopq"));
    buf.extend_from_slice(&[9; 100]);
    let procs = parse_kinfo(&buf);
    assert_eq!(procs.len(), 2);
    assert_eq!(procs[0].pid, 42);
    assert_eq!(procs[0].ppid, 1);
    assert_eq!(procs[0].start_sec, 1_700_000_000);
    assert_eq!(procs[0].comm, "launchd");
    assert_eq!(procs[1].pid, 7);
    assert_eq!(procs[1].ppid, 0);
    assert_eq!(procs[1].start_sec, -5);
    assert_eq!(procs[1].comm, "abcdefghijklmnopq");
}

#[test]
fn kinfo_fields_decode_little_endian() {
    let buf = record(0x0102_0304, 0x7fff_ffff, i64::MIN, b"\xc3\x28\0");
    assert_eq!(i32_at(&buf, OFF_PID), 0x0102_0304);
    assert_eq!(i64_at(&buf, OFF_START_SEC), i64::MIN);
    let one = parse_one_kinfo(&buf, 0).expect("record");
    assert_eq!(one.ppid, 0x7fff_ffff);
    assert_eq!(one.comm, "\u{fffd}(");
    assert!(parse_one_kinfo(&record(-4, 1, 0, b"x\0"), 0).is_none());
}

#[test]
fn smc_numbers_decode_by_type() {
    let bits = 42.5_f32.to_le_bytes();
    match smc_value(type_code(*b"flt "), &bits, 4) {
        Some(SmcValue::FloatBits(b)) => assert_eq!(f32::from_bits(b), 42.5),
        other => panic!("{other:?}"),
    }
    assert_eq!(
        smc_value(type_code(*b"fpe2"), &[0x1f, 0x40], 2),
        Some(SmcValue::Fixed { raw: 0x1f40, divisor: 4 })
    );
    // a two-byte size is read as a plain whole number before the type is looked at
    assert_eq!(
        smc_value(type_code(*b"sp78"), &[0xff, 0x80], 2),
        Some(SmcValue::Fixed { raw: 0xff80, divisor: 1 })
    );
    assert_eq!(
        smc_value(type_code(*b"sp78"), &[0xff, 0x80], 3),
        Some(SmcValue::Fixed { raw: -128, divisor: 256 })
    );
    assert_eq!(smc_value(type_code(*b"ui8 "), &[7], 1), Some(SmcValue::Fixed { raw: 7, divisor: 1 }));
    assert_eq!(
        smc_value(type_code(*b"ui32"), &[0xff, 0xff, 0xff, 0xff], 4),
        Some(SmcValue::Fixed { raw: 0xffff_ffff, divisor: 1 })
    );
    assert_eq!(smc_value(type_code(*b"flag"), &[1, 2, 3], 3), None);
    assert_eq!(smc_value(type_code(*b"flt "), &[1, 2], 4), None);
    assert_eq!(smc_value(type_code(*b"ui16"), &[], 2), None);
}

#[test]
fn samples_come_due_after_their_period() {
    assert!(sample_due(None, 1_000));
    assert!(!sample_due(Some(999), 1_000));
    assert!(sample_due(Some(1_000), 1_000));
    assert!(sample_due(Some(5_000), 2_000));
}
