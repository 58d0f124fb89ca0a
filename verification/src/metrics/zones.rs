use vstd::prelude::*;
use crate::snapshot::ClusterKind;
use crate::text::{ascii_lower_seq, has_infix, has_prefix, lower_contains, starts_with, contains_char};

verus! {

/// Which part of the chip a temperature sensor belongs to.
#[derive(Debug, Clone, Copy, PartialEq, Eq, Structural)]
pub enum TempZone {
    Efficiency,
    Performance,
    Super,
    Gpu,
    Cpu,
    Other,
}

/// Some HID sensor name mentions `macc` (ignoring ASCII case).
pub open spec fn any_macc(names: Seq<&str>) -> bool {
    exists|i: int| 0 <= i < names.len() && has_infix(ascii_lower_seq(names[i]@), "macc"@)
}

/// Whether any sensor name contains `macc`, ASCII case ignored.
pub fn hid_has_macc(names: &[&str]) -> (r: bool)
    ensures
        r == any_macc(names@),
{
    let n = names.len();
    let mut i: usize = 0;
    while i < n
        invariant
            n == names@.len(),
            i <= n,
            forall|j: int| 0 <= j < i ==> !has_infix(ascii_lower_seq(names@[j]@), "macc"@),
        decreases n - i,
    {
        if lower_contains(names[i], "macc") {
            return true;
        }
        i = i + 1;
    }
    false
}

/// Zone of an HID sensor from its product name. `pACC` is the super cluster
/// on chips that also have `mACC` sensors.
pub open spec fn hid_zone_spec(name: Seq<char>, has_macc: bool) -> TempZone {
    let p = ascii_lower_seq(name);
    if has_infix(p, "eacc"@) {
        TempZone::Efficiency
    } else if has_infix(p, "macc"@) {
        TempZone::Performance
    } else if has_infix(p, "sacc"@) {
        TempZone::Super
    } else if has_infix(p, "pacc"@) {
        if has_macc { TempZone::Super } else { TempZone::Performance }
    } else if has_infix(p, "gpu"@) {
        TempZone::Gpu
    } else if has_infix(p, "pmu tdie"@) || has_infix(p, "soc mtr"@) || has_infix(p, "pmgr"@)
        || has_infix(p, "cpu"@) {
        TempZone::Cpu
    } else {
        TempZone::Other
    }
}

/// An HID sensor on the die or the SoC (`PMU tdie`, `SOC MTR`, `PMGR`), or
/// one naming the CPU, counts as the chip's CPU zone, whatever the case of
/// its name, unless the name also names a cluster (`eACC`, `mACC`, `sACC`,
/// `pACC`) or the GPU; a name that names a cluster is always in a cluster
/// zone; and a CPU-zone sensor always names one of those four.
pub proof fn law_die_and_soc_sensors_are_cpu(name: Seq<char>, has_macc: bool, marker: Seq<char>)
    ensures
        (marker == "pmu tdie"@ || marker == "soc mtr"@ || marker == "pmgr"@ || marker == "cpu"@) && has_infix(
            ascii_lower_seq(name),
            marker,
        ) && !has_infix(ascii_lower_seq(name), "eacc"@) && !has_infix(ascii_lower_seq(name), "macc"@)
            && !has_infix(ascii_lower_seq(name), "sacc"@) && !has_infix(ascii_lower_seq(name), "pacc"@)
            && !has_infix(ascii_lower_seq(name), "gpu"@) ==> hid_zone_spec(name, has_macc) == TempZone::Cpu,
        has_infix(ascii_lower_seq(name), "eacc"@) ==> hid_zone_spec(name, has_macc) == TempZone::Efficiency,
        has_infix(ascii_lower_seq(name), "macc"@) && !has_infix(ascii_lower_seq(name), "eacc"@) ==> hid_zone_spec(
            name,
            has_macc,
        ) == TempZone::Performance,
        has_infix(ascii_lower_seq(name), "sacc"@) && !has_infix(ascii_lower_seq(name), "eacc"@) && !has_infix(
            ascii_lower_seq(name),
            "macc"@,
        ) ==> hid_zone_spec(name, has_macc) == TempZone::Super,
        has_infix(ascii_lower_seq(name), "pacc"@) && !has_infix(ascii_lower_seq(name), "eacc"@) && !has_infix(
            ascii_lower_seq(name),
            "macc"@,
        ) && !has_infix(ascii_lower_seq(name), "sacc"@) ==> hid_zone_spec(name, has_macc) == if has_macc {
            TempZone::Super
        } else {
            TempZone::Performance
        },
        has_infix(ascii_lower_seq(name), "gpu"@) && !has_infix(ascii_lower_seq(name), "eacc"@) && !has_infix(
            ascii_lower_seq(name),
            "macc"@,
        ) && !has_infix(ascii_lower_seq(name), "sacc"@) && !has_infix(ascii_lower_seq(name), "pacc"@)
            ==> hid_zone_spec(name, has_macc) == TempZone::Gpu,
        hid_zone_spec(name, has_macc) == TempZone::Cpu ==> has_infix(ascii_lower_seq(name), "pmu tdie"@)
            || has_infix(ascii_lower_seq(name), "soc mtr"@) || has_infix(ascii_lower_seq(name), "pmgr"@)
            || has_infix(ascii_lower_seq(name), "cpu"@),
{
}

/// A sensor's zone does not depend on the case of its name.
pub proof fn law_hid_zone_ignores_case(name: Seq<char>, has_macc: bool)
    ensures
        hid_zone_spec(ascii_lower_seq(name), has_macc) == hid_zone_spec(name, has_macc),
{
    assert(ascii_lower_seq(ascii_lower_seq(name)) =~= ascii_lower_seq(name)) by {
        assert forall|i: int| 0 <= i < name.len() implies crate::text::ascii_lower(crate::text::ascii_lower(name[i]))
            == crate::text::ascii_lower(name[i]) by {
            let c = name[i];
            if 'A' <= c && c <= 'Z' {
                assert((c as u32 + 32) as u8 as char >= 'a');
            }
        }
    }
}

/// Classifies an HID temperature sensor by name.
pub fn hid_temp_zone(name: &str, has_macc: bool) -> (z: TempZone)
    ensures
        z == hid_zone_spec(name@, has_macc),
{
    if lower_contains(name, "eacc") {
        TempZone::Efficiency
    } else if lower_contains(name, "macc") {
        TempZone::Performance
    } else if lower_contains(name, "sacc") {
        TempZone::Super
    } else if lower_contains(name, "pacc") {
        if has_macc { TempZone::Super } else { TempZone::Performance }
    } else if lower_contains(name, "gpu") {
        TempZone::Gpu
    } else if lower_contains(name, "pmu tdie") || lower_contains(name, "soc mtr")
        || lower_contains(name, "pmgr") || lower_contains(name, "cpu") {
        TempZone::Cpu
    } else {
        TempZone::Other
    }
}

/// Zone of an SMC temperature key. `Tp` keys only count as performance cores
/// when `Te` keys exist; otherwise they are the package.
pub open spec fn smc_zone_spec(key: Seq<char>, has_te: bool) -> TempZone {
    if has_prefix(key, "Te"@) {
        TempZone::Efficiency
    } else if has_prefix(key, "Tf"@) {
        TempZone::Performance
    } else if has_prefix(key, "Tp"@) {
        if has_te { TempZone::Performance } else { TempZone::Cpu }
    } else if has_prefix(key, "TC"@) {
        TempZone::Cpu
    } else if has_prefix(key, "Tg"@) || has_prefix(key, "TG"@) {
        TempZone::Gpu
    } else {
        TempZone::Other
    }
}

/// An SMC key's zone is read off its first two characters: `Te` the
/// efficiency cluster, `Tf` the performance cluster, `Tp` the performance
/// cluster on chips with `Te` keys and the CPU on others, `TC` the CPU,
/// `Tg`/`TG` the GPU; a key of any other prefix is another reading.
pub proof fn law_smc_zone_by_prefix(key: Seq<char>, has_te: bool)
    ensures
        key.len() >= 2 ==> smc_zone_spec(key, has_te) == smc_zone_spec(key.subrange(0, 2), has_te),
        key.len() >= 2 && key[0] == 'T' && key[1] == 'e' ==> smc_zone_spec(key, has_te) == TempZone::Efficiency,
        key.len() >= 2 && key[0] == 'T' && key[1] == 'f' ==> smc_zone_spec(key, has_te) == TempZone::Performance,
        key.len() >= 2 && key[0] == 'T' && key[1] == 'p' ==> smc_zone_spec(key, has_te) == if has_te {
            TempZone::Performance
        } else {
            TempZone::Cpu
        },
        key.len() >= 2 && key[0] == 'T' && key[1] == 'C' ==> smc_zone_spec(key, has_te) == TempZone::Cpu,
        key.len() >= 2 && key[0] == 'T' && (key[1] == 'g' || key[1] == 'G') ==> smc_zone_spec(key, has_te)
            == TempZone::Gpu,
        key.len() < 2 || key[0] != 'T' ==> smc_zone_spec(key, has_te) == TempZone::Other,
{
    if key.len() >= 2 {
        let two = key.subrange(0, 2);
        assert(two.subrange(0, 2) =~= two);
        reveal_strlit("Te");
        reveal_strlit("Tf");
        reveal_strlit("Tp");
        reveal_strlit("TC");
        reveal_strlit("Tg");
        reveal_strlit("TG");
        assert(key.subrange(0, 2) =~= seq![key[0], key[1]]);
        assert("Te"@ =~= seq!['T', 'e']);
        assert("Tf"@ =~= seq!['T', 'f']);
        assert("Tp"@ =~= seq!['T', 'p']);
        assert("TC"@ =~= seq!['T', 'C']);
        assert("Tg"@ =~= seq!['T', 'g']);
        assert("TG"@ =~= seq!['T', 'G']);
    } else {
        reveal_strlit("Te");
        reveal_strlit("Tf");
        reveal_strlit("Tp");
        reveal_strlit("TC");
        reveal_strlit("Tg");
        reveal_strlit("TG");
    }
}

/// Classifies an SMC temperature key by its prefix.
pub fn smc_temp_zone(key: &str, has_te: bool) -> (z: TempZone)
    ensures
        z == smc_zone_spec(key@, has_te),
{
    if starts_with(key, "Te") {
        TempZone::Efficiency
    } else if starts_with(key, "Tf") {
        TempZone::Performance
    } else if starts_with(key, "Tp") {
        if has_te { TempZone::Performance } else { TempZone::Cpu }
    } else if starts_with(key, "TC") {
        TempZone::Cpu
    } else if starts_with(key, "Tg") || starts_with(key, "TG") {
        TempZone::Gpu
    } else {
        TempZone::Other
    }
}

/// Whether any SMC key starts with `Te`.
pub fn smc_has_te(keys: &[&str]) -> (r: bool)
    ensures
        r == exists|i: int| 0 <= i < keys@.len() && has_prefix(keys@[i]@, "Te"@),
{
    let n = keys.len();
    let mut i: usize = 0;
    while i < n
        invariant
            n == keys@.len(),
            i <= n,
            forall|j: int| 0 <= j < i ==> !has_prefix(keys@[j]@, "Te"@),
        decreases n - i,
    {
        if starts_with(keys[i], "Te") {
            return true;
        }
        i = i + 1;
    }
    false
}

/// The character with ASCII letters folded to upper case.
pub open spec fn ascii_upper(c: char) -> char {
    if 'a' <= c && c <= 'z' {
        ((c as u32 - 32) as u8) as char
    } else {
        c
    }
}

/// Cluster of an IORegistry `cluster-type` letter. `P` is the super cluster
/// when an `M` letter exists, or when a super perf level exists but no `S`
/// letter does.
pub open spec fn letter_kind_spec(letter: char, letters: Seq<char>, has_super_level: bool) -> Option<ClusterKind> {
    let u = ascii_upper(letter);
    if u == 'E' {
        Some(ClusterKind::Efficiency)
    } else if u == 'S' {
        Some(ClusterKind::Super)
    } else if u == 'P' && (letters.contains('M') || (has_super_level && !letters.contains('S'))) {
        Some(ClusterKind::Super)
    } else if u == 'M' || u == 'P' {
        Some(ClusterKind::Performance)
    } else {
        None
    }
}

/// Maps a `cluster-type` letter to a cluster kind.
pub fn cluster_letter_kind(letter: char, letters: &str, has_super_level: bool) -> (k: Option<ClusterKind>)
    ensures
        k == letter_kind_spec(letter, letters@, has_super_level),
{
    let u = if 'a' <= letter && letter <= 'z' {
        ((letter as u32 - 32) as u8) as char
    } else {
        letter
    };
    if u == 'E' {
        Some(ClusterKind::Efficiency)
    } else if u == 'S' {
        Some(ClusterKind::Super)
    } else if u == 'P' && (contains_char(letters, 'M') || (has_super_level && !contains_char(letters, 'S'))) {
        Some(ClusterKind::Super)
    } else if u == 'M' || u == 'P' {
        Some(ClusterKind::Performance)
    } else {
        None
    }
}

/// Cluster named by a perf level name (`Super`, `Efficiency`, `Performance`).
pub open spec fn level_kind_spec(name: Seq<char>) -> Option<ClusterKind> {
    let n = ascii_lower_seq(name);
    if has_infix(n, "super"@) {
        Some(ClusterKind::Super)
    } else if has_infix(n, "efficien"@) {
        Some(ClusterKind::Efficiency)
    } else if has_infix(n, "perform"@) {
        Some(ClusterKind::Performance)
    } else {
        None
    }
}

/// Maps a perf level name to a cluster kind.
pub fn kind_from_level_name(name: &str) -> (k: Option<ClusterKind>)
    ensures
        k == level_kind_spec(name@),
{
    if lower_contains(name, "super") {
        Some(ClusterKind::Super)
    } else if lower_contains(name, "efficien") {
        Some(ClusterKind::Efficiency)
    } else if lower_contains(name, "perform") {
        Some(ClusterKind::Performance)
    } else {
        None
    }
}

/// `a + b` capped at 255.
pub open spec fn sat_add_u8(a: u8, b: u8) -> u8 {
    if a + b > 255 { 255 } else { (a + b) as u8 }
}

/// Saturating per-kind sums of the first `n` perf levels.
pub open spec fn level_counts(levels: Seq<(ClusterKind, u8)>, n: int) -> (u8, u8, u8)
    decreases n,
{
    if n <= 0 {
        (0, 0, 0)
    } else {
        let (e, p, s) = level_counts(levels, n - 1);
        let (kind, c) = levels[n - 1];
        match kind {
            ClusterKind::Efficiency => (sat_add_u8(e, c), p, s),
            ClusterKind::Performance => (e, sat_add_u8(p, c), s),
            ClusterKind::Super => (e, p, sat_add_u8(s, c)),
        }
    }
}

/// Adds up per-level core counts into (efficiency, performance, super),
/// saturating at 255.
pub fn counts_from_levels(levels: &[(ClusterKind, u8)]) -> (r: (u8, u8, u8))
    ensures
        r == level_counts(levels@, levels@.len() as int),
{
    let mut e: u8 = 0;
    let mut p: u8 = 0;
    let mut s: u8 = 0;
    let n = levels.len();
    let mut i: usize = 0;
    while i < n
        invariant
            n == levels@.len(),
            i <= n,
            (e, p, s) == level_counts(levels@, i as int),
        decreases n - i,
    {
        let (kind, c) = levels[i];
        match kind {
            ClusterKind::Efficiency => e = e.saturating_add(c),
            ClusterKind::Performance => p = p.saturating_add(c),
            ClusterKind::Super => s = s.saturating_add(c),
        }
        i = i + 1;
    }
    (e, p, s)
}

/// Display name of an unclassified sensor: `nand`, `ambient`, `temp` for an
/// empty name, otherwise its first 12 characters.
pub open spec fn extra_name_spec(name: Seq<char>) -> Seq<char> {
    let p = ascii_lower_seq(name);
    if has_infix(p, "nand"@) || has_prefix(name, "TH"@) {
        "nand"@
    } else if has_infix(p, "ambient"@) || has_prefix(name, "TA"@) || has_prefix(name, "Ta"@) {
        "ambient"@
    } else if name.len() == 0 {
        "temp"@
    } else {
        name.subrange(0, if name.len() < 12 { name.len() as int } else { 12 })
    }
}

/// Short label for a sensor outside the known zones.
pub fn extra_name(name: &str) -> (r: String)
    ensures
        r@ == extra_name_spec(name@),
{
    if lower_contains(name, "nand") || starts_with(name, "TH") {
        String::from_str("nand")
    } else if lower_contains(name, "ambient") || starts_with(name, "TA") || starts_with(name, "Ta") {
        String::from_str("ambient")
    } else if name.unicode_len() == 0 {
        String::from_str("temp")
    } else {
        crate::text::take_chars(name, 12)
    }
}

} // verus!
