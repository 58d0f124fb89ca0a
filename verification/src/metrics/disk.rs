use vstd::prelude::*;
use crate::snapshot::DiskVolume;
use crate::text::{ascii_lower_seq, eq_ignore_ascii_case, has_prefix, seg_end, seg_start, starts_with, str_eq, find_seg_end, find_seg_start};

verus! {

/// APFS or HFS, ignoring ASCII case.
pub open spec fn apfs_or_hfs_spec(fstype: Seq<char>) -> bool {
    ascii_lower_seq(fstype) == "apfs"@ || ascii_lower_seq(fstype) == "hfs"@
}

/// Whether the file system type is APFS or HFS (ASCII case ignored).
pub fn is_apfs_or_hfs(fstype: &str) -> (r: bool)
    ensures
        r == apfs_or_hfs_spec(fstype@),
{
    proof {
        reveal_strlit("apfs");
        reveal_strlit("hfs");
        assert(ascii_lower_seq("apfs"@) =~= "apfs"@);
        assert(ascii_lower_seq("hfs"@) =~= "hfs"@);
    }
    eq_ignore_ascii_case(fstype, "apfs") || eq_ignore_ascii_case(fstype, "hfs")
}

/// Virtual file systems that are never shown: devfs, autofs, fdesc.
pub open spec fn skipped_fstype_spec(fstype: Seq<char>) -> bool {
    let l = ascii_lower_seq(fstype);
    l == "devfs"@ || l == "autofs"@ || l == "fdesc"@
}

/// Whether the file system type is one of the hidden virtual ones.
pub fn skipped_fstype(fstype: &str) -> (r: bool)
    ensures
        r == skipped_fstype_spec(fstype@),
{
    proof {
        reveal_strlit("devfs");
        reveal_strlit("autofs");
        reveal_strlit("fdesc");
        assert(ascii_lower_seq("devfs"@) =~= "devfs"@);
        assert(ascii_lower_seq("autofs"@) =~= "autofs"@);
        assert(ascii_lower_seq("fdesc"@) =~= "fdesc"@);
    }
    eq_ignore_ascii_case(fstype, "devfs") || eq_ignore_ascii_case(fstype, "autofs")
        || eq_ignore_ascii_case(fstype, "fdesc")
}

/// `mount` is `prefix` itself or lies below it.
pub open spec fn under(mount: Seq<char>, prefix: Seq<char>) -> bool {
    has_prefix(mount, prefix) && (mount.len() == prefix.len() || mount[prefix.len() as int] == '/')
}

/// Whether `mount` is `prefix` or a path below it.
pub fn is_under(mount: &str, prefix: &str) -> (r: bool)
    ensures
        r == under(mount@, prefix@),
{
    if !starts_with(mount, prefix) {
        return false;
    }
    let n = mount.unicode_len();
    let m = prefix.unicode_len();
    n == m || mount.get_char(m) == '/'
}

/// System mounts that are never shown.
pub open spec fn skipped_mount_spec(mount: Seq<char>) -> bool {
    under(mount, "/dev"@) || under(mount, "/System/Volumes/VM"@)
        || under(mount, "/System/Volumes/Preboot"@) || under(mount, "/System/Volumes/Update"@)
        || under(mount, "/System/Volumes/xarts"@) || under(mount, "/System/Volumes/iSCPreboot"@)
        || under(mount, "/System/Volumes/Hardware"@)
}

/// Whether `mount` is one of the hidden system mounts or below one.
pub fn skipped_mount(mount: &str) -> (r: bool)
    ensures
        r == skipped_mount_spec(mount@),
{
    is_under(mount, "/dev") || is_under(mount, "/System/Volumes/VM")
        || is_under(mount, "/System/Volumes/Preboot") || is_under(mount, "/System/Volumes/Update")
        || is_under(mount, "/System/Volumes/xarts") || is_under(mount, "/System/Volumes/iSCPreboot")
        || is_under(mount, "/System/Volumes/Hardware")
}

/// A user volume: `/Volumes/<something>`.
pub open spec fn user_volume_spec(mount: Seq<char>) -> bool {
    has_prefix(mount, "/Volumes/"@) && mount.len() > "/Volumes/"@.len()
}

/// Whether `mount` is a named volume under `/Volumes/`.
pub fn is_user_volume(mount: &str) -> (r: bool)
    ensures
        r == user_volume_spec(mount@),
{
    starts_with(mount, "/Volumes/") && mount.unicode_len() > "/Volumes/".unicode_len()
}

/// Which mounts the disk panel lists.
pub open spec fn keep_volume_spec(fstype: Seq<char>, mount: Seq<char>) -> bool {
    if skipped_fstype_spec(fstype) || skipped_mount_spec(mount) || mount.len() == 0 {
        false
    } else {
        mount == "/"@ || user_volume_spec(mount) || apfs_or_hfs_spec(fstype)
    }
}

/// Keeps the root, user volumes and APFS/HFS mounts; drops virtual file
/// systems, hidden system mounts and empty mount points.
pub fn keep_volume(fstype: &str, mount: &str) -> (r: bool)
    ensures
        r == keep_volume_spec(fstype@, mount@),
{
    if skipped_fstype(fstype) || skipped_mount(mount) || mount.unicode_len() == 0 {
        return false;
    }
    str_eq(mount, "/") || is_user_volume(mount) || is_apfs_or_hfs(fstype)
}

/// Name shown for a mount: `Macintosh HD` for `/`, else its last non-empty
/// path component, else the mount text itself.
pub open spec fn volume_name_spec(mount: Seq<char>) -> Seq<char> {
    let end = seg_end(mount, mount.len() as int);
    if mount == "/"@ {
        "Macintosh HD"@
    } else if end == 0 {
        mount
    } else {
        mount.subrange(seg_start(mount, end), end)
    }
}

/// Display name of a volume from its mount point.
pub fn volume_name(mount: &str) -> (r: String)
    ensures
        r@ == volume_name_spec(mount@),
{
    if str_eq(mount, "/") {
        return String::from_str("Macintosh HD");
    }
    let n = mount.unicode_len();
    let end = find_seg_end(mount, n);
    if end == 0 {
        return mount.to_owned();
    }
    let start = find_seg_start(mount, end);
    mount.substring_char(start, end).to_owned()
}

/// The volume list without the `/System/Volumes/Data` firmlink when the root
/// itself is listed.
pub open spec fn prefer_root_spec(vols: Seq<DiskVolume>) -> Seq<DiskVolume> {
    if exists|i: int| 0 <= i < vols.len() && vols[i].mount@ == "/"@ {
        vols.filter(|v: DiskVolume| v.mount@ != "/System/Volumes/Data"@)
    } else {
        vols
    }
}

/// Drops the data firmlink when the root volume is present.
pub fn prefer_root_over_data(volumes: Vec<DiskVolume>) -> (r: Vec<DiskVolume>)
    ensures
        r@ == prefer_root_spec(volumes@),
{
    let n = volumes.len();
    let mut has_root = false;
    let mut i: usize = 0;
    while i < n
        invariant
            n == volumes@.len(),
            i <= n,
            has_root == exists|j: int| 0 <= j < i && volumes@[j].mount@ == "/"@,
        decreases n - i,
    {
        if str_eq(volumes[i].mount.as_str(), "/") {
            has_root = true;
        }
        i = i + 1;
    }
    if !has_root {
        return volumes;
    }
    let ghost keep = |v: DiskVolume| v.mount@ != "/System/Volumes/Data"@;
    let mut out: Vec<DiskVolume> = Vec::new();
    let mut k: usize = 0;
    while k < n
        invariant
            n == volumes@.len(),
            k <= n,
            keep == (|v: DiskVolume| v.mount@ != "/System/Volumes/Data"@),
            out@ == volumes@.subrange(0, k as int).filter(keep),
        decreases n - k,
    {
        proof {
            reveal_with_fuel(Seq::<_>::filter, 1);
            assert(volumes@.subrange(0, k as int + 1).drop_last() =~= volumes@.subrange(0, k as int));
            assert(volumes@.subrange(0, k as int + 1).last() == volumes@[k as int]);
        }
        if !str_eq(volumes[k].mount.as_str(), "/System/Volumes/Data") {
            out.push(volumes[k].duplicate());
        }
        k = k + 1;
    }
    assert(volumes@.subrange(0, n as int) =~= volumes@);
    out
}

} // verus!
