use plottypus::format::{bits_per_sec, bytes_per_sec, bytes_short};

#[test]
fn bytes_scale() {
    assert_eq!(bytes_short(512), "512B");
    assert_eq!(bytes_short(2048), "2K");
    assert_eq!(bytes_short(12 * 1024 * 1024), "12M");
    assert_eq!(bytes_short(36 * 1024 * 1024 * 1024), "36.0G");
}

#[test]
fn throughput_scale() {
    assert_eq!(bits_per_sec(800), "800b");
    assert_eq!(bits_per_sec(12_400_000), "12.4Mb");
    assert_eq!(bytes_per_sec(800), "800B/s");
    assert_eq!(bytes_per_sec(12 * 1024 * 1024), "12M/s");
}

fn float_bytes_short(bytes: u64) -> String {
    const KIB: f64 = 1024.0;
    const MIB: f64 = KIB * 1024.0;
    const GIB: f64 = MIB * 1024.0;
    const TIB: f64 = GIB * 1024.0;
    let n = bytes as f64;
    if n >= TIB {
        format!("{:.1}T", n / TIB)
    } else if n >= GIB {
        format!("{:.1}G", n / GIB)
    } else if n >= MIB {
        format!("{:.0}M", n / MIB)
    } else if n >= KIB {
        format!("{:.0}K", n / KIB)
    } else {
        format!("{bytes}B")
    }
}

fn float_bits_per_sec(bps: u64) -> String {
    const K: f64 = 1000.0;
    const M: f64 = K * 1000.0;
    const G: f64 = M * 1000.0;
    let n = bps as f64;
    if n >= G {
        format!("{:.1}Gb", n / G)
    } else if n >= M {
        format!("{:.1}Mb", n / M)
    } else if n >= K {
        format!("{:.0}Kb", n / K)
    } else {
        format!("{bps}b")
    }
}

fn sample_values() -> Vec<u64> {
    let mut out = vec![0, 1, 9, 10, 999, 1000, 1023, 1024, 1536, 2560, 3584, u64::MAX, u64::MAX - 1];
    let mut x: u64 = 0x9e37_79b9_7f4a_7c15;
    for shift in 0..64 {
        out.push(1u64 << shift);
        out.push((1u64 << shift).wrapping_sub(1));
        out.push((1u64 << shift) + (1u64 << shift) / 2);
    }
    for k in [1_000u64, 1_000_000, 1_000_000_000] {
        for m in [1u64, 2, 3, 12, 124, 999, 5_000, 12_345, 999_999] {
            out.push(m * k);
            out.push(m * k + k / 20);
            out.push(m * k + k / 2);
            out.push(m * k + 5 * k / 100);
            out.push(m * k + 15 * k / 100);
            out.push(m * k + 25 * k / 100);
            out.push(m * k + 45 * k / 100);
        }
    }
    for _ in 0..20_000 {
        x ^= x << 13;
        x ^= x >> 7;
        x ^= x << 17;
        out.push(x >> (x % 64));
    }
    out
}

#[test]
fn bytes_short_matches_binary64_printing() {
    for v in sample_values() {
        assert_eq!(bytes_short(v), float_bytes_short(v), "{v}");
    }
}

#[test]
fn bits_per_sec_matches_binary64_printing() {
    for v in sample_values() {
        assert_eq!(bits_per_sec(v), float_bits_per_sec(v), "{v}");
    }
}

#[test]
fn bytes_short_ties_round_to_even() {
    // 1.25 GiB and 1.35 GiB are exact halves at the shown digit
    assert_eq!(bytes_short(5 * (1 << 28)), "1.2G");
    assert_eq!(bytes_short(2560), "2K");
    assert_eq!(bytes_short(3584), "4K");
}

#[test]
fn terabytes_keep_one_decimal() {
    assert_eq!(bytes_short(3 * (1u64 << 40) / 2), "1.5T");
    assert_eq!(bytes_short(u64::MAX), "16777216.0T");
}
