use vstd::prelude::*;
use crate::error::Error;
use crate::text::{decimal, find_seg_start, push_decimal, push_str, seg_start};

verus! {

/// Signals the process table can send.
#[derive(Debug, Clone, Copy, PartialEq, Eq, Structural)]
pub enum Signal {
    Term,
    Kill,
    Int,
}

impl Signal {
    /// The signal's name without the `SIG` prefix, as prompts show it.
    pub fn label(self) -> (s: &'static str)
        ensures
            self == Signal::Term ==> s@ == "TERM"@,
            self == Signal::Kill ==> s@ == "KILL"@,
            self == Signal::Int ==> s@ == "INT"@,
    {
        match self {
            Signal::Term => "TERM",
            Signal::Kill => "KILL",
            Signal::Int => "INT",
        }
    }
}

/// POSIX signal number of a signal (SIGTERM 15, SIGKILL 9, SIGINT 2).
pub fn libc_signal(signal: Signal) -> (n: i32)
    ensures
        signal == Signal::Term ==> n == 15,
        signal == Signal::Kill ==> n == 9,
        signal == Signal::Int ==> n == 2,
{
    match signal {
        Signal::Term => 15,
        Signal::Kill => 9,
        Signal::Int => 2,
    }
}

/// The part of a path after its last `/`, or the whole path when that part is
/// empty.
pub open spec fn basename_spec(path: Seq<char>) -> Seq<char> {
    let start = seg_start(path, path.len() as int);
    if start < path.len() {
        path.subrange(start, path.len() as int)
    } else {
        path
    }
}

/// Last path component of `path`.
pub fn basename(path: &str) -> (r: &str)
    ensures
        r@ == basename_spec(path@),
{
    let n = path.unicode_len();
    let start = find_seg_start(path, n);
    if start < n {
        path.substring_char(start, n)
    } else {
        path
    }
}

/// Display name priority: argv[0] basename, executable path basename, the
/// kernel's short command name, then `pid N`.
pub open spec fn preferred_name_spec(pid: u32, argv0: Option<Seq<char>>, path: Option<Seq<char>>, comm: Seq<char>) -> Seq<char> {
    if argv0 is Some && basename_spec(argv0->0).len() > 0 {
        basename_spec(argv0->0)
    } else if path is Some && basename_spec(path->0).len() > 0 {
        basename_spec(path->0)
    } else if comm.len() > 0 {
        comm
    } else {
        "pid "@ + decimal(pid as nat)
    }
}

/// Picks the name shown for a process.
pub fn preferred_name(pid: u32, argv0: Option<&str>, path: Option<&str>, comm: &str) -> (r: String)
    ensures
        r@ == preferred_name_spec(
            pid,
            match argv0 { Some(a) => Some(a@), None => None },
            match path { Some(p) => Some(p@), None => None },
            comm@,
        ),
{
    if let Some(a) = argv0 {
        let base = basename(a);
        if base.unicode_len() > 0 {
            return base.to_owned();
        }
    }
    if let Some(p) = path {
        let base = basename(p);
        if base.unicode_len() > 0 {
            return base.to_owned();
        }
    }
    if comm.unicode_len() > 0 {
        return comm.to_owned();
    }
    let mut s = String::new();
    push_str(&mut s, "pid ");
    push_decimal(&mut s, pid as u128);
    s
}

/// Checks that `pid` can be signalled: it must be at least 1 and fit the
/// kernel's signed pid type. Gives the pid as the kernel takes it.
pub fn kill_target(pid: u32) -> (r: Result<i32, Error>)
    ensures
        1 <= pid <= i32::MAX ==> r == Ok::<i32, Error>(pid as i32),
        !(1 <= pid <= i32::MAX) ==> (r matches Err(Error::Process { pid: p, message: m })
            && p == pid && m@ == "invalid pid"@),
{
    if pid < 1 || pid > i32::MAX as u32 {
        return Err(Error::process(pid, "invalid pid"));
    }
    Ok(pid as i32)
}

/// Outcome of a `kill(2)` call on `pid`: success when it returned 0,
/// otherwise a process error carrying the OS error text.
pub fn kill_outcome(pid: u32, rc: i32, os_error: &str) -> (r: Result<(), Error>)
    ensures
        rc == 0 ==> r is Ok,
        rc != 0 ==> (r matches Err(Error::Process { pid: p, message: m }) && p == pid
            && m@ == os_error@),
{
    if rc == 0 {
        Ok(())
    } else {
        Err(Error::process(pid, os_error))
    }
}

/// Bytes of one `kinfo_proc` record in the kernel's process table.
pub const KINFO_PROC_LEN: usize = 648;
/// Offset of the start time (seconds) in a record.
pub const OFF_START_SEC: usize = 0;
/// Offset of the pid in a record.
pub const OFF_PID: usize = 40;
/// Offset of the short command name in a record.
pub const OFF_COMM: usize = 243;
/// Bytes reserved for the short command name.
pub const COMM_LEN: usize = 17;
/// Offset of the parent pid in a record.
pub const OFF_PPID: usize = 560;

/// What `String::from_utf8_lossy` makes of `bytes`: the text, with each
/// invalid sequence replaced by U+FFFD.
pub uninterp spec fn utf8_lossy(bytes: Seq<u8>) -> Seq<char>;

/// `String::from_utf8_lossy` from std, as an owned string.
#[verifier::external_body]
fn lossy_string(bytes: &[u8]) -> (s: String)
    ensures
        s@ == utf8_lossy(bytes@),
{
    String::from_utf8_lossy(bytes).into_owned()
}

/// The unsigned value of the four bytes at `off`, least significant first
/// (the byte order of the machines the table comes from).
pub open spec fn le_u32(b: Seq<u8>, off: int) -> int {
    b[off] + 256 * b[off + 1] + 65536 * b[off + 2] + 16777216 * b[off + 3]
}

/// The signed 32-bit value at `off`.
pub open spec fn le_i32(b: Seq<u8>, off: int) -> int {
    if le_u32(b, off) >= 0x8000_0000 { le_u32(b, off) - 0x1_0000_0000 } else { le_u32(b, off) }
}

/// The unsigned value of the eight bytes at `off`, least significant first.
pub open spec fn le_u64(b: Seq<u8>, off: int) -> int {
    le_u32(b, off) + 0x1_0000_0000 * le_u32(b, off + 4)
}

/// The signed 64-bit value at `off`.
pub open spec fn le_i64(b: Seq<u8>, off: int) -> int {
    if le_u64(b, off) >= 0x8000_0000_0000_0000 { le_u64(b, off) - 0x1_0000_0000_0000_0000 } else { le_u64(b, off) }
}

fn u32_at(b: &[u8], off: usize) -> (v: u32)
    requires
        off + 4 <= b@.len(),
    ensures
        v == le_u32(b@, off as int),
{
    b[off] as u32 + b[off + 1] as u32 * 256 + b[off + 2] as u32 * 65536 + b[off + 3] as u32 * 16777216
}

/// The signed 32-bit value at `off`.
pub fn i32_at(b: &[u8], off: usize) -> (v: i32)
    requires
        off + 4 <= b@.len(),
    ensures
        v == le_i32(b@, off as int),
{
    let u = u32_at(b, off);
    if u >= 0x8000_0000 {
        (u as i64 - 0x1_0000_0000) as i32
    } else {
        u as i32
    }
}

/// The signed 64-bit value at `off`.
pub fn i64_at(b: &[u8], off: usize) -> (v: i64)
    requires
        off + 8 <= b@.len(),
    ensures
        v == le_i64(b@, off as int),
{
    let _n = b.len();
    let lo = u32_at(b, off) as u128;
    let hi = u32_at(b, off + 4) as u128;
    let u: u128 = lo + hi * 0x1_0000_0000;
    if u >= 0x8000_0000_0000_0000 {
        (u as i128 - 0x1_0000_0000_0000_0000) as i64
    } else {
        u as i64
    }
}

/// The first position at or after `i` whose byte is a NUL (`nul`) or is
/// not one (`!nul`), or the end.
pub open spec fn scan(b: Seq<u8>, i: int, nul: bool) -> int
    decreases b.len() - i,
{
    if i < 0 || i >= b.len() || (b[i] == 0) == nul {
        i
    } else {
        scan(b, i + 1, nul)
    }
}

proof fn lemma_scan(b: Seq<u8>, i: int, nul: bool)
    requires
        0 <= i <= b.len(),
    ensures
        i <= scan(b, i, nul) <= b.len(),
        forall|k: int| i <= k < scan(b, i, nul) ==> (#[trigger] b[k] == 0) != nul,
        scan(b, i, nul) < b.len() ==> (b[scan(b, i, nul)] == 0) == nul,
    decreases b.len() - i,
{
    if i < b.len() && (b[i] == 0) != nul {
        lemma_scan(b, i + 1, nul);
    }
}

fn scan_exec(b: &[u8], i: usize, nul: bool) -> (r: usize)
    requires
        i <= b@.len(),
    ensures
        r == scan(b@, i as int, nul),
{
    proof {
        lemma_scan(b@, i as int, nul);
    }
    let n = b.len();
    let mut k = i;
    while k < n && (b[k] == 0) != nul
        invariant
            n == b@.len(),
            i <= k <= n,
            scan(b@, k as int, nul) == scan(b@, i as int, nul),
        decreases n - k,
    {
        k = k + 1;
    }
    k
}

/// The bytes of argv[0] in a `KERN_PROCARGS2` buffer, laid out as
/// `[argc: i32][exec path][NULs][argv0][NUL]...`: none for a buffer under
/// eight bytes, an argc below one, or an empty argv[0].
pub open spec fn argv0_bytes(b: Seq<u8>) -> Option<Seq<u8>> {
    if b.len() < 8 || le_i32(b, 0) < 1 {
        None
    } else {
        let path_end = scan(b, 4, true);
        let start = scan(b, path_end, false);
        let end = scan(b, start, true);
        if start == end { None } else { Some(b.subrange(start, end)) }
    }
}

fn copy_range(b: &[u8], start: usize, end: usize) -> (v: Vec<u8>)
    requires
        start <= end <= b@.len(),
    ensures
        v@ == b@.subrange(start as int, end as int),
{
    let mut v: Vec<u8> = Vec::new();
    let mut k = start;
    while k < end
        invariant
            start <= k <= end <= b@.len(),
            v@ == b@.subrange(start as int, k as int),
        decreases end - k,
    {
        v.push(b[k]);
        assert(v@ =~= b@.subrange(start as int, k + 1));
        k = k + 1;
    }
    v
}

/// How a process was invoked: argv[0] from its `KERN_PROCARGS2` buffer, as
/// text.
pub fn argv0_from_procargs(b: &[u8]) -> (r: Option<String>)
    ensures
        argv0_bytes(b@) is None ==> r is None,
        argv0_bytes(b@) matches Some(bytes) ==> r matches Some(s) && s@ == utf8_lossy(bytes),
{
    if b.len() < 8 {
        return None;
    }
    if i32_at(b, 0) < 1 {
        return None;
    }
    let path_end = scan_exec(b, 4, true);
    proof {
        lemma_scan(b@, 4, true);
    }
    let start = scan_exec(b, path_end, false);
    proof {
        lemma_scan(b@, path_end as int, false);
    }
    let end = scan_exec(b, start, true);
    proof {
        lemma_scan(b@, start as int, true);
    }
    if start == end {
        return None;
    }
    let bytes = copy_range(b, start, end);
    Some(lossy_string(bytes.as_slice()))
}

/// One process of the kernel's table.
#[derive(Debug, Clone, PartialEq, Eq)]
pub struct KinfoEntry {
    pub pid: u32,
    pub ppid: u32,
    pub start_sec: i64,
    pub comm: String,
}

/// The short command name of the record at `base`: its bytes up to the
/// first NUL.
pub open spec fn comm_bytes(b: Seq<u8>, base: int) -> Seq<u8> {
    let name = b.subrange(base + OFF_COMM, base + OFF_COMM + COMM_LEN);
    name.subrange(0, scan(name, 0, true))
}

/// `e` is what the record at `base` describes: it lists a pid of at least
/// one; a negative parent pid reads as 0.
pub open spec fn kinfo_matches(b: Seq<u8>, base: int, e: KinfoEntry) -> bool {
    &&& e.pid as int == le_i32(b, base + OFF_PID)
    &&& e.ppid as int == (if le_i32(b, base + OFF_PPID) < 0 { 0 } else { le_i32(b, base + OFF_PPID) })
    &&& e.start_sec as int == le_i64(b, base + OFF_START_SEC)
    &&& e.comm@ == utf8_lossy(comm_bytes(b, base))
}

/// Reads the record at `base`; none when its pid is below one.
pub fn parse_one_kinfo(b: &[u8], base: usize) -> (r: Option<KinfoEntry>)
    requires
        base + KINFO_PROC_LEN <= b@.len(),
    ensures
        r is Some <==> le_i32(b@, base + OFF_PID) >= 1,
        r matches Some(e) ==> kinfo_matches(b@, base as int, e),
{
    let _n = b.len();
    let pid = i32_at(b, base + OFF_PID);
    if pid < 1 {
        return None;
    }
    let parent = i32_at(b, base + OFF_PPID);
    let ppid: u32 = if parent < 0 { 0 } else { parent as u32 };
    let start_sec = i64_at(b, base + OFF_START_SEC);
    let name = copy_range(b, base + OFF_COMM, base + OFF_COMM + COMM_LEN);
    let end = scan_exec(name.as_slice(), 0, true);
    proof {
        lemma_scan(name@, 0, true);
    }
    let bytes = copy_range(name.as_slice(), 0, end);
    let comm = lossy_string(bytes.as_slice());
    Some(KinfoEntry { pid: pid as u32, ppid, start_sec, comm })
}

/// The positions of the whole records among the first `k` that list a
/// process.
pub open spec fn live_records(b: Seq<u8>, k: int) -> Seq<int>
    decreases k,
{
    if k <= 0 {
        seq![]
    } else if le_i32(b, (k - 1) * KINFO_PROC_LEN + OFF_PID) >= 1 {
        live_records(b, k - 1).push(k - 1)
    } else {
        live_records(b, k - 1)
    }
}

/// Reads every whole record of a `KERN_PROC_ALL` buffer, skipping those
/// without a process; a trailing partial record is ignored.
pub fn parse_kinfo(b: &[u8]) -> (r: Vec<KinfoEntry>)
    ensures
        r@.len() == live_records(b@, (b@.len() / (KINFO_PROC_LEN as nat)) as int).len(),
        forall|j: int|
            0 <= j < r@.len() ==> kinfo_matches(
                b@,
                live_records(b@, (b@.len() / (KINFO_PROC_LEN as nat)) as int)[j] * KINFO_PROC_LEN,
                #[trigger] r@[j],
            ),
{
    let count = b.len() / KINFO_PROC_LEN;
    let mut r: Vec<KinfoEntry> = Vec::new();
    let mut k: usize = 0;
    while k < count
        invariant
            count == b@.len() / (KINFO_PROC_LEN as nat),
            b@.len() <= usize::MAX,
            k <= count,
            r@.len() == live_records(b@, k as int).len(),
            forall|j: int|
                0 <= j < r@.len() ==> kinfo_matches(
                    b@,
                    live_records(b@, k as int)[j] * KINFO_PROC_LEN,
                    #[trigger] r@[j],
                ),
        decreases count - k,
    {
        assert(k * KINFO_PROC_LEN + KINFO_PROC_LEN <= b@.len()) by (nonlinear_arith)
            requires
                k < count,
                count == b@.len() / 648,
        {
        }
        let base = k * KINFO_PROC_LEN;
        let ghost prev = live_records(b@, k as int);
        match parse_one_kinfo(b, base) {
            Some(e) => {
                r.push(e);
                assert(live_records(b@, k + 1) == prev.push(k as int));
            },
            None => {
                assert(live_records(b@, k + 1) == prev);
            },
        }
        k = k + 1;
    }
    r
}

} // verus!
