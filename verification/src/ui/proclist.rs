//! Which processes the table lists, and in what order: the filter, the
//! three sort orders, and the tree that nests children under their parent.
use vstd::prelude::*;
use std::collections::HashMap;
use crate::config::ProcSort;
use crate::text::{all_digits, ascii_lower_seq, decimal, has_infix, lower_char, push_char};
use crate::ui::bands::opt_view;
use crate::ui::processes::{filter_passes, matches_filter, pid_matches};

verus! {

/// What the table needs of one process. `cpu_rank` orders processes by
/// their cpu share: a busier process has a larger rank, equal shares have
/// equal ranks.
#[derive(Debug, Clone, PartialEq, Eq)]
pub struct ProcEntry {
    pub pid: u32,
    pub ppid: u32,
    pub name: String,
    pub command: Option<String>,
    pub cpu_rank: u32,
    pub mem_bytes: u64,
}

/// The string with ASCII letters lowered.
pub fn lowered(s: &str) -> (r: String)
    ensures
        r@ == ascii_lower_seq(s@),
{
    let n = s.unicode_len();
    let mut r = String::new();
    let mut i: usize = 0;
    while i < n
        invariant
            n == s@.len(),
            i <= n,
            r@ =~= ascii_lower_seq(s@.subrange(0, i as int)),
        decreases n - i,
    {
        let c = lower_char(s.get_char(i));
        push_char(&mut r, c);
        assert(ascii_lower_seq(s@.subrange(0, i + 1)) =~= ascii_lower_seq(s@.subrange(0, i as int)).push(c));
        i = i + 1;
    }
    assert(s@.subrange(0, n as int) =~= s@);
    r
}

/// Whether entry `e` passes the lowered filter `needle`.
pub open spec fn entry_passes(e: ProcEntry, needle: Seq<char>) -> bool {
    filter_passes(e.name@, e.pid, opt_view(e.command), needle)
}

/// The sort key of entry `e`: busiest first, largest first, or lowest pid
/// first.
pub open spec fn sort_key(e: ProcEntry, sort: ProcSort) -> int {
    match sort {
        ProcSort::Cpu => -(e.cpu_rank as int),
        ProcSort::Mem => -(e.mem_bytes as int),
        ProcSort::Pid => e.pid as int,
    }
}

/// Row `i` comes before row `j`: a smaller key, or an equal key and an
/// earlier place in the snapshot.
pub open spec fn row_lt(es: Seq<ProcEntry>, sort: ProcSort, i: int, j: int) -> bool {
    sort_key(es[i], sort) < sort_key(es[j], sort) || (sort_key(es[i], sort) == sort_key(es[j], sort) && i < j)
}

/// `rows` lists positions of `es` strictly in table order.
pub open spec fn in_table_order(es: Seq<ProcEntry>, sort: ProcSort, rows: Seq<usize>) -> bool {
    &&& forall|k: int| 0 <= k < rows.len() ==> #[trigger] rows[k] < es.len()
    &&& forall|a: int, b: int|
        #![trigger rows[a], rows[b]]
        0 <= a < b < rows.len() ==> row_lt(es, sort, rows[a] as int, rows[b] as int)
}

/// The rows of the flat table: exactly the positions of the entries that
/// pass `filter` (lowered), in table order.
pub open spec fn flat_rows_are(es: Seq<ProcEntry>, filter: Seq<char>, sort: ProcSort, rows: Seq<usize>) -> bool {
    &&& in_table_order(es, sort, rows)
    &&& forall|i: int|
        0 <= i < es.len() ==> (entry_passes(es[i], ascii_lower_seq(filter)) <==> rows.contains(i as usize))
}

/// Whether row `i` comes before row `j`.
fn goes_before(es: &Vec<ProcEntry>, sort: ProcSort, i: usize, j: usize) -> (r: bool)
    requires
        i < es@.len(),
        j < es@.len(),
    ensures
        r == row_lt(es@, sort, i as int, j as int),
{
    let a = &es[i];
    let b = &es[j];
    match sort {
        ProcSort::Cpu => a.cpu_rank > b.cpu_rank || (a.cpu_rank == b.cpu_rank && i < j),
        ProcSort::Mem => a.mem_bytes > b.mem_bytes || (a.mem_bytes == b.mem_bytes && i < j),
        ProcSort::Pid => a.pid < b.pid || (a.pid == b.pid && i < j),
    }
}

/// Inserts position `x` into `rows`, keeping table order.
fn insert_row(es: &Vec<ProcEntry>, sort: ProcSort, rows: &mut Vec<usize>, x: usize)
    requires
        x < es@.len(),
        in_table_order(es@, sort, old(rows)@),
        !old(rows)@.contains(x),
    ensures
        in_table_order(es@, sort, final(rows)@),
        forall|y: usize| final(rows)@.contains(y) <==> (old(rows)@.contains(y) || y == x),
{
    let ghost old_rows = rows@;
    let n = rows.len();
    let mut p: usize = 0;
    while p < n && goes_before(es, sort, rows[p], x)
        invariant
            n == rows@.len(),
            rows@ == old_rows,
            in_table_order(es@, sort, rows@),
            x < es@.len(),
            p <= n,
            forall|k: int| 0 <= k < p ==> row_lt(es@, sort, #[trigger] rows@[k] as int, x as int),
        decreases n - p,
    {
        p = p + 1;
    }
    proof {
        if p < n {
            assert(rows@[p as int] != x);
            assert(row_lt(es@, sort, x as int, rows@[p as int] as int));
            assert forall|k: int| p <= k < n implies row_lt(es@, sort, x as int, #[trigger] rows@[k] as int) by {
                if k > p {
                    assert(row_lt(es@, sort, rows@[p as int] as int, rows@[k] as int));
                }
            }
        }
    }
    rows.insert(p, x);
    proof {
        let s = rows@;
        assert(s == old_rows.insert(p as int, x));
        assert forall|a: int, b: int| 0 <= a < b < s.len() implies row_lt(es@, sort, #[trigger] s[a] as int,
            #[trigger] s[b] as int) by {
            if b < p {
            } else if b == p {
            } else if a < p {
                assert(s[b] == old_rows[b - 1]);
                assert(row_lt(es@, sort, s[a] as int, x as int));
            } else if a == p {
                assert(s[b] == old_rows[b - 1]);
            } else {
                assert(s[a] == old_rows[a - 1]);
                assert(s[b] == old_rows[b - 1]);
            }
        }
        assert forall|y: usize| s.contains(y) <==> (old_rows.contains(y) || y == x) by {
            if s.contains(y) {
                let k = choose|k: int| 0 <= k < s.len() && s[k] == y;
                if k < p {
                    assert(old_rows[k] == y);
                } else if k > p {
                    assert(old_rows[k - 1] == y);
                }
            }
            if old_rows.contains(y) {
                let k = choose|k: int| 0 <= k < old_rows.len() && old_rows[k] == y;
                if k < p {
                    assert(s[k] == y);
                } else {
                    assert(s[k + 1] == y);
                }
            }
            if y == x {
                assert(s[p as int] == x);
            }
        }
    }
}

/// The rows of the flat process table: the positions of the entries that
/// pass `filter` (compared without ASCII case), busiest, largest or lowest
/// pid first, ties in snapshot order.
pub fn filter_sort_by(es: &Vec<ProcEntry>, filter: &str, sort: ProcSort) -> (rows: Vec<usize>)
    ensures
        flat_rows_are(es@, filter@, sort, rows@),
{
    let needle = lowered(filter);
    let n = es.len();
    let mut rows: Vec<usize> = Vec::new();
    let mut i: usize = 0;
    while i < n
        invariant
            n == es@.len(),
            i <= n,
            needle@ == ascii_lower_seq(filter@),
            in_table_order(es@, sort, rows@),
            forall|j: int| 0 <= j < n ==> (#[trigger] rows@.contains(j as usize) <==> (j < i && entry_passes(
                es@[j],
                needle@,
            ))),
        decreases n - i,
    {
        let e = &es[i];
        let command = match &e.command {
            Some(c) => Some(c.as_str()),
            None => None,
        };
        if matches_filter(e.name.as_str(), e.pid, command, needle.as_str()) {
            assert(!rows@.contains(i)) by {
                let j = i as int;
                assert(rows@.contains(j as usize) <==> (j < i && entry_passes(es@[j], needle@)));
            }
            insert_row(es, sort, &mut rows, i);
        }
        proof {
            assert forall|j: int| 0 <= j < n implies (#[trigger] rows@.contains(j as usize) <==> (j < i + 1
                && entry_passes(es@[j], needle@))) by {
                if j == i {
                } else {
                }
            }
        }
        i = i + 1;
    }
    rows
}

/// No two entries share a pid, as in the kernel's process table.
/// The last entry with pid `pid` among the first `m` entries.
pub open spec fn last_upto(es: Seq<ProcEntry>, pid: u32, m: int) -> Option<int>
    decreases m,
{
    if m <= 0 {
        None
    } else if es[m - 1].pid == pid {
        Some(m - 1)
    } else {
        last_upto(es, pid, m - 1)
    }
}

/// The last entry with pid `pid`: the one a table keyed by pid keeps.
pub open spec fn last_of(es: Seq<ProcEntry>, pid: u32) -> Option<int> {
    last_upto(es, pid, es.len() as int)
}

/// The last entry that shares entry `i`'s pid.
pub open spec fn last_twin(es: Seq<ProcEntry>, i: int) -> int {
    match last_of(es, es[i].pid) {
        Some(j) => j,
        None => i,
    }
}

proof fn lemma_last_upto(es: Seq<ProcEntry>, pid: u32, m: int)
    requires
        0 <= m <= es.len(),
    ensures
        last_upto(es, pid, m) matches Some(j) ==> 0 <= j < m && es[j].pid == pid && forall|q: int|
            j < q < m ==> #[trigger] es[q].pid != pid,
        last_upto(es, pid, m) is None ==> forall|q: int| 0 <= q < m ==> #[trigger] es[q].pid != pid,
    decreases m,
{
    if m > 0 {
        lemma_last_upto(es, pid, m - 1);
    }
}

/// Every entry has a last twin: an entry with the same pid, no earlier,
/// that is its own last twin.
proof fn lemma_last_twin(es: Seq<ProcEntry>, i: int)
    requires
        0 <= i < es.len(),
    ensures
        last_of(es, es[i].pid) == Some(last_twin(es, i)),
        i <= last_twin(es, i) < es.len(),
        es[last_twin(es, i)].pid == es[i].pid,
        last_twin(es, last_twin(es, i)) == last_twin(es, i),
{
    lemma_last_upto(es, es[i].pid, es.len() as int);
}

/// The entries in the order the tree sorts them: each entry stands for
/// its pid, and a pid is sorted by the fields of its last entry.
pub open spec fn tview(es: Seq<ProcEntry>) -> Seq<ProcEntry> {
    Seq::new(es.len(), |i: int| es[last_twin(es, i)])
}

/// The entry the parent of entry `i` is shown as: the last entry with its
/// parent pid; none for pid 0 as parent, a process that is its own parent,
/// or a parent pid with no entry.
pub open spec fn parent_pos(es: Seq<ProcEntry>, i: int) -> Option<int> {
    let e = es[i];
    if e.ppid == 0 || e.ppid == e.pid {
        None
    } else {
        last_of(es, e.ppid)
    }
}

/// `s` lists, in tree order, exactly the entries whose parent is `parent`
/// (the root entries for `None`).
pub open spec fn lists_children(es: Seq<ProcEntry>, sort: ProcSort, s: Seq<usize>, parent: Option<int>) -> bool {
    &&& in_table_order(tview(es), sort, s)
    &&& forall|i: int| 0 <= i < es.len() ==> (s.contains(i as usize) <==> parent_pos(es, i) == parent)
}

/// The entries under `parent` (the roots for `None`) in tree order.
pub open spec fn children(es: Seq<ProcEntry>, sort: ProcSort, parent: Option<int>) -> Seq<usize> {
    choose|s: Seq<usize>| lists_children(es, sort, s, parent)
}

/// The ancestor `k` generations above entry `m`, if the chain goes that far.
pub open spec fn up(es: Seq<ProcEntry>, m: int, k: nat) -> Option<int>
    decreases k,
{
    if k == 0 {
        Some(m)
    } else {
        match up(es, m, (k - 1) as nat) {
            Some(q) => parent_pos(es, q),
            None => None,
        }
    }
}

/// With a filter, the tree keeps the pids of the entries that pass it and
/// all their ancestors (fewer generations up than there are entries, as a
/// longer chain repeats a pid); without one, it keeps everything.
pub open spec fn kept(es: Seq<ProcEntry>, needle: Seq<char>, i: int) -> bool {
    needle.len() == 0 || exists|m: int, k: nat|
        #![trigger up(es, last_twin(es, m), k)]
        0 <= m < es.len() && k < es.len() && entry_passes(es[m], needle) && up(es, last_twin(es, m), k) == Some(i)
}

/// One more level of nesting, stopping at 255.
pub open spec fn deeper(d: u8) -> u8 {
    if d == 255 { 255 } else { (d + 1) as u8 }
}

/// The rows of the subtree under the pid whose last entry is `node`, at
/// `depth`: that entry first, then the subtrees of the pids of the entries
/// under it, in tree order; `fuel` bounds the levels.
pub open spec fn subtree(
    es: Seq<ProcEntry>,
    sort: ProcSort,
    needle: Seq<char>,
    node: int,
    depth: u8,
    fuel: nat,
) -> Seq<(usize, u8)>
    decreases fuel, 0nat,
{
    if fuel == 0 || !kept(es, needle, node) {
        seq![]
    } else {
        let kids = children(es, sort, Some(node));
        seq![(node as usize, depth)] + forest(es, sort, needle, kids, kids.len(), deeper(depth), (fuel - 1) as nat)
    }
}

/// The rows of the subtrees of the pids of the first `j` entries of
/// `list`, in order.
pub open spec fn forest(
    es: Seq<ProcEntry>,
    sort: ProcSort,
    needle: Seq<char>,
    list: Seq<usize>,
    j: nat,
    depth: u8,
    fuel: nat,
) -> Seq<(usize, u8)>
    decreases fuel, j + 1,
{
    if j == 0 {
        seq![]
    } else {
        forest(es, sort, needle, list, (j - 1) as nat, depth, fuel) + subtree(
            es,
            sort,
            needle,
            last_twin(es, list[j - 1] as int),
            depth,
            fuel,
        )
    }
}

/// The rows of the process tree: the subtree of each root entry's pid in
/// tree order, each row the last entry of a pid and its nesting depth. A
/// pid shows once under each entry that hangs it somewhere. A walk that
/// meets a pid again below itself would never end; it is cut after as
/// many levels as there are entries, which is all of every other tree.
pub open spec fn tree_spec(es: Seq<ProcEntry>, needle: Seq<char>, sort: ProcSort) -> Seq<(usize, u8)> {
    let roots = children(es, sort, None);
    forest(es, sort, needle, roots, roots.len(), 0, es.len())
}

/// Two lists in strict table order with the same members are the same list.
pub proof fn lemma_table_order_unique(es: Seq<ProcEntry>, sort: ProcSort, a: Seq<usize>, b: Seq<usize>)
    requires
        in_table_order(es, sort, a),
        in_table_order(es, sort, b),
        forall|x: usize| a.contains(x) <==> b.contains(x),
    ensures
        a == b,
    decreases a.len(),
{
    if a.len() == 0 {
        if b.len() > 0 {
            assert(b.contains(b[0]));
        }
        assert(a =~= b);
    } else {
        assert(a.contains(a[0]));
        let k = choose|k: int| 0 <= k < b.len() && b[k] == a[0];
        assert(b.contains(b[0]));
        let m = choose|m: int| 0 <= m < a.len() && a[m] == b[0];
        if k > 0 {
            assert(row_lt(es, sort, b[0] as int, b[k] as int));
            if m > 0 {
                assert(row_lt(es, sort, a[0] as int, a[m] as int));
            }
        }
        assert(a[0] == b[0]);
        let a1 = a.drop_first();
        let b1 = b.drop_first();
        assert forall|x: usize| a1.contains(x) <==> b1.contains(x) by {
            if a1.contains(x) {
                let i = choose|i: int| 0 <= i < a1.len() && a1[i] == x;
                assert(a[i + 1] == x);
                assert(row_lt(es, sort, a[0] as int, a[i + 1] as int));
                assert(a.contains(x));
                let j = choose|j: int| 0 <= j < b.len() && b[j] == x;
                assert(j != 0);
                assert(b1[j - 1] == x);
            }
            if b1.contains(x) {
                let i = choose|i: int| 0 <= i < b1.len() && b1[i] == x;
                assert(b[i + 1] == x);
                assert(row_lt(es, sort, b[0] as int, b[i + 1] as int));
                assert(b.contains(x));
                let j = choose|j: int| 0 <= j < a.len() && a[j] == x;
                assert(j != 0);
                assert(a1[j - 1] == x);
            }
        }
        lemma_table_order_unique(es, sort, a1, b1);
        assert(a =~= seq![a[0]] + a1);
        assert(b =~= seq![b[0]] + b1);
    }
}

/// A list that holds exactly the entries under `parent` in tree order is
/// `children(.., parent)`.
proof fn lemma_children_unique(es: Seq<ProcEntry>, sort: ProcSort, s: Seq<usize>, parent: Option<int>)
    requires
        lists_children(es, sort, s, parent),
    ensures
        children(es, sort, parent) == s,
{
    let c = children(es, sort, parent);
    let tv = tview(es);
    assert(tv.len() == es.len());
    assert(lists_children(es, sort, c, parent));
    assert forall|x: usize| s.contains(x) <==> c.contains(x) by {
        if s.contains(x) {
            let k = choose|k: int| 0 <= k < s.len() && s[k] == x;
            assert(s[k] < tv.len());
            let i = x as int;
            assert(s.contains(i as usize));
            assert(parent_pos(es, i) == parent);
            assert(c.contains(i as usize));
        }
        if c.contains(x) {
            let k = choose|k: int| 0 <= k < c.len() && c[k] == x;
            assert(c[k] < tv.len());
            let i = x as int;
            assert(c.contains(i as usize));
            assert(parent_pos(es, i) == parent);
            assert(s.contains(i as usize));
        }
    }
    lemma_table_order_unique(tv, sort, s, c);
}

/// The spec form of a parent position.
pub open spec fn opt_int(o: Option<usize>) -> Option<int> {
    match o {
        Some(j) => Some(j as int),
        None => None,
    }
}

/// Each pid's last entry.
fn last_entries_by_pid(es: &Vec<ProcEntry>) -> (m: HashMap<u32, usize>)
    ensures
        forall|pid: u32| #[trigger] m@.contains_key(pid) <==> last_of(es@, pid) is Some,
        forall|pid: u32| #[trigger] m@.contains_key(pid) ==> last_of(es@, pid) == Some(m@[pid] as int),
{
    broadcast use vstd::std_specs::hash::group_hash_axioms;
    let n = es.len();
    let mut m: HashMap<u32, usize> = HashMap::new();
    let mut i: usize = 0;
    while i < n
        invariant
            n == es@.len(),
            i <= n,
            forall|pid: u32| #[trigger] m@.contains_key(pid) <==> last_upto(es@, pid, i as int) is Some,
            forall|pid: u32| #[trigger] m@.contains_key(pid) ==> last_upto(es@, pid, i as int) == Some(m@[pid] as int),
        decreases n - i,
    {
        let pid = es[i].pid;
        m.insert(pid, i);
        proof {
            assert forall|p: u32| #[trigger] m@.contains_key(p) <==> last_upto(es@, p, i + 1) is Some by {
                if p != pid {
                    assert(last_upto(es@, p, i + 1) == last_upto(es@, p, i as int));
                }
            }
            assert forall|p: u32| #[trigger] m@.contains_key(p) implies last_upto(es@, p, i + 1) == Some(m@[p] as int) by {
                if p != pid {
                    assert(last_upto(es@, p, i + 1) == last_upto(es@, p, i as int));
                }
            }
        }
        i = i + 1;
    }
    m
}

/// The position of each entry's parent, and of each entry's last twin.
fn parents_and_twins(es: &Vec<ProcEntry>) -> (r: (Vec<Option<usize>>, Vec<usize>))
    ensures
        r.0@.len() == es@.len(),
        r.1@.len() == es@.len(),
        forall|i: int| 0 <= i < es@.len() ==> opt_int(#[trigger] r.0@[i]) == parent_pos(es@, i),
        forall|i: int| 0 <= i < es@.len() ==> #[trigger] r.1@[i] as int == last_twin(es@, i),
{
    broadcast use vstd::std_specs::hash::group_hash_axioms;
    let map = last_entries_by_pid(es);
    let n = es.len();
    let mut parent: Vec<Option<usize>> = Vec::new();
    let mut twin: Vec<usize> = Vec::new();
    let mut i: usize = 0;
    while i < n
        invariant
            n == es@.len(),
            i <= n,
            forall|pid: u32| #[trigger] map@.contains_key(pid) <==> last_of(es@, pid) is Some,
            forall|pid: u32| #[trigger] map@.contains_key(pid) ==> last_of(es@, pid) == Some(map@[pid] as int),
            parent@.len() == i,
            twin@.len() == i,
            forall|k: int| 0 <= k < i ==> opt_int(#[trigger] parent@[k]) == parent_pos(es@, k),
            forall|k: int| 0 <= k < i ==> #[trigger] twin@[k] as int == last_twin(es@, k),
        decreases n - i,
    {
        let pid = es[i].pid;
        let ppid = es[i].ppid;
        let p: Option<usize> = if ppid == 0 || ppid == pid {
            None
        } else {
            match map.get(&ppid) {
                Some(j) => Some(*j),
                None => None,
            }
        };
        proof {
            lemma_last_twin(es@, i as int);
        }
        let t: usize = match map.get(&pid) {
            Some(j) => *j,
            None => i,
        };
        parent.push(p);
        twin.push(t);
        i = i + 1;
    }
    (parent, twin)
}

/// Whether entry `i` comes before entry `j` in tree order.
fn tree_before(es: &Vec<ProcEntry>, twin: &Vec<usize>, sort: ProcSort, i: usize, j: usize) -> (r: bool)
    requires
        i < es@.len(),
        j < es@.len(),
        twin@.len() == es@.len(),
        forall|k: int| 0 <= k < es@.len() ==> #[trigger] twin@[k] as int == last_twin(es@, k),
    ensures
        r == row_lt(tview(es@), sort, i as int, j as int),
{
    proof {
        lemma_last_twin(es@, i as int);
        lemma_last_twin(es@, j as int);
    }
    let a = &es[twin[i]];
    let b = &es[twin[j]];
    match sort {
        ProcSort::Cpu => a.cpu_rank > b.cpu_rank || (a.cpu_rank == b.cpu_rank && i < j),
        ProcSort::Mem => a.mem_bytes > b.mem_bytes || (a.mem_bytes == b.mem_bytes && i < j),
        ProcSort::Pid => a.pid < b.pid || (a.pid == b.pid && i < j),
    }
}

/// Inserts entry `x` into `rows`, keeping tree order.
fn insert_tree_row(es: &Vec<ProcEntry>, twin: &Vec<usize>, sort: ProcSort, rows: &mut Vec<usize>, x: usize)
    requires
        x < es@.len(),
        twin@.len() == es@.len(),
        forall|k: int| 0 <= k < es@.len() ==> #[trigger] twin@[k] as int == last_twin(es@, k),
        in_table_order(tview(es@), sort, old(rows)@),
        !old(rows)@.contains(x),
    ensures
        in_table_order(tview(es@), sort, final(rows)@),
        forall|y: usize| final(rows)@.contains(y) <==> (old(rows)@.contains(y) || y == x),
{
    let ghost tv = tview(es@);
    let ghost old_rows = rows@;
    let n = rows.len();
    let mut p: usize = 0;
    while p < n && tree_before(es, twin, sort, rows[p], x)
        invariant
            n == rows@.len(),
            rows@ == old_rows,
            tv == tview(es@),
            tv.len() == es@.len(),
            twin@.len() == es@.len(),
            forall|k: int| 0 <= k < es@.len() ==> #[trigger] twin@[k] as int == last_twin(es@, k),
            in_table_order(tv, sort, rows@),
            x < es@.len(),
            p <= n,
            forall|k: int| 0 <= k < p ==> row_lt(tv, sort, #[trigger] rows@[k] as int, x as int),
        decreases n - p,
    {
        p = p + 1;
    }
    proof {
        if p < n {
            assert(rows@[p as int] != x);
            assert(row_lt(tv, sort, x as int, rows@[p as int] as int));
            assert forall|k: int| p <= k < n implies row_lt(tv, sort, x as int, #[trigger] rows@[k] as int) by {
                if k > p {
                    assert(row_lt(tv, sort, rows@[p as int] as int, rows@[k] as int));
                }
            }
        }
    }
    rows.insert(p, x);
    proof {
        let s = rows@;
        assert(s == old_rows.insert(p as int, x));
        assert forall|a: int, b: int| 0 <= a < b < s.len() implies row_lt(tv, sort, #[trigger] s[a] as int,
            #[trigger] s[b] as int) by {
            if b < p {
            } else if b == p {
            } else if a < p {
                assert(s[b] == old_rows[b - 1]);
                assert(row_lt(tv, sort, s[a] as int, x as int));
            } else if a == p {
                assert(s[b] == old_rows[b - 1]);
            } else {
                assert(s[a] == old_rows[a - 1]);
                assert(s[b] == old_rows[b - 1]);
            }
        }
        assert forall|y: usize| s.contains(y) <==> (old_rows.contains(y) || y == x) by {
            if s.contains(y) {
                let k = choose|k: int| 0 <= k < s.len() && s[k] == y;
                if k < p {
                    assert(old_rows[k] == y);
                } else if k > p {
                    assert(old_rows[k - 1] == y);
                }
            }
            if old_rows.contains(y) {
                let k = choose|k: int| 0 <= k < old_rows.len() && old_rows[k] == y;
                if k < p {
                    assert(s[k] == y);
                } else {
                    assert(s[k + 1] == y);
                }
            }
            if y == x {
                assert(s[p as int] == x);
            }
        }
    }
}

/// The entries whose parent is `target` (the roots for `None`), in tree
/// order.
fn child_list(
    es: &Vec<ProcEntry>,
    sort: ProcSort,
    parent: &Vec<Option<usize>>,
    twin: &Vec<usize>,
    target: Option<usize>,
) -> (r: Vec<usize>)
    requires
        parent@.len() == es@.len(),
        forall|i: int| 0 <= i < es@.len() ==> opt_int(#[trigger] parent@[i]) == parent_pos(es@, i),
        twin@.len() == es@.len(),
        forall|k: int| 0 <= k < es@.len() ==> #[trigger] twin@[k] as int == last_twin(es@, k),
    ensures
        r@ == children(es@, sort, opt_int(target)),
        forall|k: int| 0 <= k < r@.len() ==> #[trigger] r@[k] < es@.len(),
{
    let n = es.len();
    let mut r: Vec<usize> = Vec::new();
    let mut i: usize = 0;
    while i < n
        invariant
            n == es@.len(),
            i <= n,
            parent@.len() == n,
            forall|k: int| 0 <= k < n ==> opt_int(#[trigger] parent@[k]) == parent_pos(es@, k),
            twin@.len() == n,
            forall|k: int| 0 <= k < n ==> #[trigger] twin@[k] as int == last_twin(es@, k),
            in_table_order(tview(es@), sort, r@),
            forall|j: int| 0 <= j < n ==> (#[trigger] r@.contains(j as usize) <==> (j < i && parent_pos(es@, j)
                == opt_int(target))),
        decreases n - i,
    {
        let same = match (parent[i], target) {
            (Some(a), Some(b)) => a == b,
            (None, None) => true,
            _ => false,
        };
        assert(same == (opt_int(parent@[i as int]) == opt_int(target)));
        if same {
            assert(!r@.contains(i)) by {
                let j = i as int;
                assert(r@.contains(j as usize) <==> (j < i && parent_pos(es@, j) == opt_int(target)));
            }
            insert_tree_row(es, twin, sort, &mut r, i);
        }
        proof {
            assert forall|j: int| 0 <= j < n implies (#[trigger] r@.contains(j as usize) <==> (j < i + 1
                && parent_pos(es@, j) == opt_int(target))) by {
                if j == i {
                } else {
                }
            }
        }
        i = i + 1;
    }
    proof {
        lemma_children_unique(es@, sort, r@, opt_int(target));
        assert(tview(es@).len() == es@.len());
    }
    r
}

/// Once the chain of ancestors ends it stays ended.
proof fn lemma_up_ends(es: Seq<ProcEntry>, m: int, k: nat, k2: nat)
    requires
        up(es, m, k) is None,
        k <= k2,
    ensures
        up(es, m, k2) is None,
    decreases k2 - k,
{
    if k < k2 {
        lemma_up_ends(es, m, k, (k2 - 1) as nat);
    }
}

/// Ancestor positions are positions.
proof fn lemma_up_in_range(es: Seq<ProcEntry>, m: int, k: nat)
    requires
        0 <= m < es.len(),
    ensures
        up(es, m, k) matches Some(q) ==> 0 <= q < es.len(),
    decreases k,
{
    if k > 0 {
        lemma_up_in_range(es, m, (k - 1) as nat);
        if let Some(q) = up(es, m, (k - 1) as nat) {
            let e = es[q];
            if !(e.ppid == 0 || e.ppid == e.pid) {
                lemma_last_upto(es, e.ppid, es.len() as int);
            }
        }
    }
}

/// For each entry, whether the tree keeps it under the lowered filter
/// `needle`.
fn kept_rows(es: &Vec<ProcEntry>, parent: &Vec<Option<usize>>, twin: &Vec<usize>, needle: &str) -> (keep: Vec<bool>)
    requires
        parent@.len() == es@.len(),
        forall|i: int| 0 <= i < es@.len() ==> opt_int(#[trigger] parent@[i]) == parent_pos(es@, i),
        twin@.len() == es@.len(),
        forall|k: int| 0 <= k < es@.len() ==> #[trigger] twin@[k] as int == last_twin(es@, k),
    ensures
        keep@.len() == es@.len(),
        forall|i: int| 0 <= i < es@.len() ==> #[trigger] keep@[i] == kept(es@, needle@, i),
{
    let n = es.len();
    let empty = needle.unicode_len() == 0;
    let mut keep: Vec<bool> = Vec::new();
    let mut i: usize = 0;
    while i < n
        invariant
            n == es@.len(),
            i <= n,
            keep@.len() == i,
            forall|k: int| 0 <= k < i ==> keep@[k] == empty,
        decreases n - i,
    {
        keep.push(empty);
        i = i + 1;
    }
    if empty {
        return keep;
    }
    let mut m: usize = 0;
    while m < n
        invariant
            n == es@.len(),
            m <= n,
            needle@.len() > 0,
            parent@.len() == n,
            forall|k: int| 0 <= k < n ==> opt_int(#[trigger] parent@[k]) == parent_pos(es@, k),
            twin@.len() == n,
            forall|k: int| 0 <= k < n ==> #[trigger] twin@[k] as int == last_twin(es@, k),
            keep@.len() == n,
            forall|q: int|
                0 <= q < n ==> (#[trigger] keep@[q] <==> exists|m2: int, k: nat|
                    #![trigger up(es@, last_twin(es@, m2), k)]
                    0 <= m2 < m && k < n && entry_passes(es@[m2], needle@) && up(es@, last_twin(es@, m2), k) == Some(q)),
        decreases n - m,
    {
        let e = &es[m];
        let command = match &e.command {
            Some(c) => Some(c.as_str()),
            None => None,
        };
        let ghost start = last_twin(es@, m as int);
        proof {
            lemma_last_twin(es@, m as int);
        }
        if matches_filter(e.name.as_str(), e.pid, command, needle) {
            let mut cur: Option<usize> = Some(twin[m]);
            let mut k: usize = 0;
            while k < n && cur.is_some()
                invariant
                    n == es@.len(),
                    m < n,
                    k <= n,
                    needle@.len() > 0,
                    entry_passes(es@[m as int], needle@),
                    start == last_twin(es@, m as int),
                    0 <= start < n,
                    parent@.len() == n,
                    forall|q: int| 0 <= q < n ==> opt_int(#[trigger] parent@[q]) == parent_pos(es@, q),
                    keep@.len() == n,
                    opt_int(cur) == up(es@, start, k as nat),
                    forall|q: int|
                        0 <= q < n ==> (#[trigger] keep@[q] <==> (exists|m2: int, k2: nat|
                            #![trigger up(es@, last_twin(es@, m2), k2)]
                            0 <= m2 < m && k2 < n && entry_passes(es@[m2], needle@) && up(es@, last_twin(es@, m2), k2)
                                == Some(q)) || (exists|k2: nat| #![trigger up(es@, start, k2)] k2 < k && up(es@, start, k2)
                            == Some(q))),
                decreases n - k,
            {
                let c = match cur {
                    Some(c) => c,
                    None => 0,
                };
                proof {
                    lemma_up_in_range(es@, start, k as nat);
                }
                keep.set(c, true);
                proof {
                    assert forall|q: int|
                        0 <= q < n implies (#[trigger] keep@[q] <==> (exists|m2: int, k2: nat|
                            #![trigger up(es@, last_twin(es@, m2), k2)]
                            0 <= m2 < m && k2 < n && entry_passes(es@[m2], needle@) && up(es@, last_twin(es@, m2), k2)
                                == Some(q)) || (exists|k2: nat| #![trigger up(es@, start, k2)] k2 < k + 1 && up(
                            es@,
                            start,
                            k2,
                        ) == Some(q))) by {
                        if q == c as int {
                            assert(up(es@, start, k as nat) == Some(q));
                        }
                    }
                }
                cur = parent[c];
                assert(up(es@, start, (k + 1) as nat) == parent_pos(es@, c as int));
                k = k + 1;
            }
            proof {
                if k < n {
                    assert forall|k2: nat| k <= k2 implies #[trigger] up(es@, start, k2) is None by {
                        lemma_up_ends(es@, start, k as nat, k2);
                    }
                }
            }
        }
        proof {
            assert forall|q: int|
                0 <= q < n implies (#[trigger] keep@[q] <==> exists|m2: int, k: nat|
                    #![trigger up(es@, last_twin(es@, m2), k)]
                    0 <= m2 < m + 1 && k < n && entry_passes(es@[m2], needle@) && up(es@, last_twin(es@, m2), k) == Some(q)) by {
                if keep@[q] {
                    if !(exists|m2: int, k: nat|
                        #![trigger up(es@, last_twin(es@, m2), k)]
                        0 <= m2 < m && k < n && entry_passes(es@[m2], needle@) && up(es@, last_twin(es@, m2), k) == Some(q)) {
                        let k2 = choose|k2: nat| #![trigger up(es@, start, k2)] k2 < n && up(es@, start, k2) == Some(q);
                        assert(up(es@, last_twin(es@, m as int), k2) == Some(q));
                    }
                } else {
                    if exists|m2: int, k: nat|
                        #![trigger up(es@, last_twin(es@, m2), k)]
                        0 <= m2 < m + 1 && k < n && entry_passes(es@[m2], needle@) && up(es@, last_twin(es@, m2), k) == Some(q) {
                        let (m2, k) = choose|m2: int, k: nat|
                            #![trigger up(es@, last_twin(es@, m2), k)]
                            0 <= m2 < m + 1 && k < n && entry_passes(es@[m2], needle@) && up(es@, last_twin(es@, m2), k) == Some(q);
                        assert(m2 == m);
                        assert(up(es@, start, k) == Some(q));
                    }
                }
            }
        }
        m = m + 1;
    }
    keep
}

/// Appends the rows of the subtree under the pid whose last entry is
/// `node`.
fn walk(
    es: &Vec<ProcEntry>,
    sort: ProcSort,
    parent: &Vec<Option<usize>>,
    twin: &Vec<usize>,
    keep: &Vec<bool>,
    Ghost(needle): Ghost<Seq<char>>,
    node: usize,
    depth: u8,
    fuel: usize,
    out: &mut Vec<(usize, u8)>,
)
    requires
        node < es@.len(),
        parent@.len() == es@.len(),
        forall|i: int| 0 <= i < es@.len() ==> opt_int(#[trigger] parent@[i]) == parent_pos(es@, i),
        twin@.len() == es@.len(),
        forall|k: int| 0 <= k < es@.len() ==> #[trigger] twin@[k] as int == last_twin(es@, k),
        keep@.len() == es@.len(),
        forall|i: int| 0 <= i < es@.len() ==> #[trigger] keep@[i] == kept(es@, needle, i),
    ensures
        final(out)@ == old(out)@ + subtree(es@, sort, needle, node as int, depth, fuel as nat),
    decreases fuel,
{
    if fuel == 0 || !keep[node] {
        assert(subtree(es@, sort, needle, node as int, depth, fuel as nat) =~= seq![]);
        assert(final(out)@ =~= old(out)@ + seq![]);
        return;
    }
    out.push((node, depth));
    let kids = child_list(es, sort, parent, twin, Some(node));
    let next: u8 = if depth == 255 { 255 } else { depth + 1 };
    let ghost base = out@;
    let mut j: usize = 0;
    while j < kids.len()
        invariant
            j <= kids@.len(),
            kids@ == children(es@, sort, Some(node as int)),
            forall|k: int| 0 <= k < kids@.len() ==> #[trigger] kids@[k] < es@.len(),
            parent@.len() == es@.len(),
            forall|i: int| 0 <= i < es@.len() ==> opt_int(#[trigger] parent@[i]) == parent_pos(es@, i),
            twin@.len() == es@.len(),
            forall|k: int| 0 <= k < es@.len() ==> #[trigger] twin@[k] as int == last_twin(es@, k),
            keep@.len() == es@.len(),
            forall|i: int| 0 <= i < es@.len() ==> #[trigger] keep@[i] == kept(es@, needle, i),
            fuel > 0,
            next == deeper(depth),
            out@ == base + forest(es@, sort, needle, kids@, j as nat, next, (fuel - 1) as nat),
        decreases kids@.len() - j,
    {
        let child = twin[kids[j]];
        proof {
            lemma_last_twin(es@, kids@[j as int] as int);
        }
        walk(es, sort, parent, twin, keep, Ghost(needle), child, next, fuel - 1, out);
        assert(out@ =~= base + forest(es@, sort, needle, kids@, (j + 1) as nat, next, (fuel - 1) as nat));
        j = j + 1;
    }
    assert(final(out)@ =~= old(out)@ + subtree(es@, sort, needle, node as int, depth, fuel as nat));
}

/// The rows of the process tree for the entries `es`: the last entry of
/// each pid with its nesting depth, each root's subtree in tree order,
/// keeping only what passes `filter` (lowered) and its ancestors.
pub fn tree_rows(es: &Vec<ProcEntry>, filter: &str, sort: ProcSort) -> (rows: Vec<(usize, u8)>)
    ensures
        rows@ == tree_spec(es@, ascii_lower_seq(filter@), sort),
{
    let needle = lowered(filter);
    let (parent, twin) = parents_and_twins(es);
    let keep = kept_rows(es, &parent, &twin, needle.as_str());
    let roots = child_list(es, sort, &parent, &twin, None);
    let n = es.len();
    let mut out: Vec<(usize, u8)> = Vec::new();
    let mut j: usize = 0;
    while j < roots.len()
        invariant
            j <= roots@.len(),
            n == es@.len(),
            roots@ == children(es@, sort, None),
            forall|k: int| 0 <= k < roots@.len() ==> #[trigger] roots@[k] < es@.len(),
            parent@.len() == es@.len(),
            forall|i: int| 0 <= i < es@.len() ==> opt_int(#[trigger] parent@[i]) == parent_pos(es@, i),
            twin@.len() == es@.len(),
            forall|k: int| 0 <= k < es@.len() ==> #[trigger] twin@[k] as int == last_twin(es@, k),
            keep@.len() == es@.len(),
            forall|i: int| 0 <= i < es@.len() ==> #[trigger] keep@[i] == kept(es@, needle@, i),
            out@ == forest(es@, sort, needle@, roots@, j as nat, 0, n as nat),
        decreases roots@.len() - j,
    {
        let root = twin[roots[j]];
        proof {
            lemma_last_twin(es@, roots@[j as int] as int);
        }
        walk(es, sort, &parent, &twin, &keep, Ghost(needle@), root, 0, n, &mut out);
        assert(out@ =~= forest(es@, sort, needle@, roots@, (j + 1) as nat, 0, n as nat));
        j = j + 1;
    }
    out
}

/// The table's rows as positions and depths: the tree when it is asked
/// for, else the flat list at depth zero.
pub open spec fn listed_ok(es: Seq<ProcEntry>, filter: Seq<char>, sort: ProcSort, tree: bool, rows: Seq<(usize, u8)>) -> bool {
    if tree {
        rows == tree_spec(es, ascii_lower_seq(filter), sort)
    } else {
        &&& flat_rows_are(es, filter, sort, rows.map_values(|r: (usize, u8)| r.0))
        &&& forall|k: int| 0 <= k < rows.len() ==> #[trigger] rows[k].1 == 0
    }
}

/// The rows the process table lists.
pub fn listed(es: &Vec<ProcEntry>, filter: &str, sort: ProcSort, tree: bool) -> (rows: Vec<(usize, u8)>)
    ensures
        listed_ok(es@, filter@, sort, tree, rows@),
{
    if tree {
        return tree_rows(es, filter, sort);
    }
    let flat = filter_sort_by(es, filter, sort);
    let mut rows: Vec<(usize, u8)> = Vec::new();
    let mut k: usize = 0;
    while k < flat.len()
        invariant
            k <= flat@.len(),
            rows@.len() == k,
            forall|q: int| 0 <= q < k ==> #[trigger] rows@[q] == (flat@[q], 0u8),
        decreases flat@.len() - k,
    {
        rows.push((flat[k], 0));
        k = k + 1;
    }
    assert(rows@.map_values(|r: (usize, u8)| r.0) =~= flat@);
    rows
}

/// The first place at or after `k` in `s` whose row does not come before
/// row `x`.
pub open spec fn insert_at(es: Seq<ProcEntry>, sort: ProcSort, s: Seq<usize>, x: usize, k: int) -> int
    decreases s.len() - k,
{
    if k < 0 || k >= s.len() || !row_lt(es, sort, s[k] as int, x as int) {
        k
    } else {
        insert_at(es, sort, s, x, k + 1)
    }
}

proof fn lemma_insert_at(es: Seq<ProcEntry>, sort: ProcSort, s: Seq<usize>, x: usize, k: int)
    requires
        0 <= k <= s.len(),
        forall|q: int| 0 <= q < k ==> row_lt(es, sort, #[trigger] s[q] as int, x as int),
    ensures
        k <= insert_at(es, sort, s, x, k) <= s.len(),
        forall|q: int|
            0 <= q < insert_at(es, sort, s, x, k) ==> row_lt(es, sort, #[trigger] s[q] as int, x as int),
        insert_at(es, sort, s, x, k) < s.len() ==> !row_lt(
            es,
            sort,
            s[insert_at(es, sort, s, x, k)] as int,
            x as int,
        ),
    decreases s.len() - k,
{
    if k < s.len() && row_lt(es, sort, s[k] as int, x as int) {
        lemma_insert_at(es, sort, s, x, k + 1);
    }
}

/// Inserting a new position at its place keeps a list in table order.
proof fn lemma_insert_keeps_order(es: Seq<ProcEntry>, sort: ProcSort, s: Seq<usize>, x: usize)
    requires
        x < es.len(),
        in_table_order(es, sort, s),
        !s.contains(x),
    ensures
        in_table_order(es, sort, s.insert(insert_at(es, sort, s, x, 0), x)),
        forall|y: usize| s.insert(insert_at(es, sort, s, x, 0), x).contains(y) <==> (s.contains(y) || y == x),
{
    lemma_insert_at(es, sort, s, x, 0);
    let p = insert_at(es, sort, s, x, 0);
    let t = s.insert(p, x);
    if p < s.len() {
        assert(s[p] != x);
        assert(row_lt(es, sort, x as int, s[p] as int));
        assert forall|k: int| p <= k < s.len() implies row_lt(es, sort, x as int, #[trigger] s[k] as int) by {
            if k > p {
                assert(row_lt(es, sort, s[p] as int, s[k] as int));
            }
        }
    }
    assert forall|a: int, b: int| 0 <= a < b < t.len() implies row_lt(es, sort, #[trigger] t[a] as int,
        #[trigger] t[b] as int) by {
        if b < p {
        } else if b == p {
        } else if a < p {
            assert(t[b] == s[b - 1]);
            assert(row_lt(es, sort, t[a] as int, x as int));
        } else if a == p {
            assert(t[b] == s[b - 1]);
        } else {
            assert(t[a] == s[a - 1]);
            assert(t[b] == s[b - 1]);
        }
    }
    assert forall|y: usize| t.contains(y) <==> (s.contains(y) || y == x) by {
        if t.contains(y) {
            let k = choose|k: int| 0 <= k < t.len() && t[k] == y;
            if k < p {
                assert(s[k] == y);
            } else if k > p {
                assert(s[k - 1] == y);
            }
        }
        if s.contains(y) {
            let k = choose|k: int| 0 <= k < s.len() && s[k] == y;
            if k < p {
                assert(t[k] == y);
            } else {
                assert(t[k + 1] == y);
            }
        }
        if y == x {
            assert(t[p] == x);
        }
    }
}


/// The entries under `parent` among the first `m` entries, in tree order.
pub open spec fn children_upto(es: Seq<ProcEntry>, sort: ProcSort, parent: Option<int>, m: int) -> Seq<usize>
    decreases m,
{
    if m <= 0 {
        seq![]
    } else {
        let s = children_upto(es, sort, parent, m - 1);
        if parent_pos(es, m - 1) == parent {
            s.insert(insert_at(tview(es), sort, s, (m - 1) as usize, 0), (m - 1) as usize)
        } else {
            s
        }
    }
}

proof fn lemma_children_upto(es: Seq<ProcEntry>, sort: ProcSort, parent: Option<int>, m: int)
    requires
        0 <= m <= es.len(),
        es.len() <= usize::MAX,
    ensures
        in_table_order(tview(es), sort, children_upto(es, sort, parent, m)),
        forall|i: int|
            0 <= i < es.len() ==> (children_upto(es, sort, parent, m).contains(i as usize) <==> (i < m && parent_pos(
                es,
                i,
            ) == parent)),
    decreases m,
{
    if m > 0 {
        lemma_children_upto(es, sort, parent, m - 1);
        let s = children_upto(es, sort, parent, m - 1);
        if parent_pos(es, m - 1) == parent {
            let x = (m - 1) as usize;
            assert(!s.contains(x)) by {
                let i = m - 1;
                assert(s.contains(i as usize) <==> (i < m - 1 && parent_pos(es, i) == parent));
            }
            lemma_insert_keeps_order(tview(es), sort, s, x);
            let t = children_upto(es, sort, parent, m);
            assert(t == s.insert(insert_at(tview(es), sort, s, x, 0), x));
            assert forall|i: int| 0 <= i < es.len() implies (t.contains(i as usize) <==> (i < m && parent_pos(es, i)
                == parent)) by {
                assert(s.contains(i as usize) <==> (i < m - 1 && parent_pos(es, i) == parent));
                assert(t.contains(i as usize) <==> (s.contains(i as usize) || i as usize == x));
            }
        } else {
            let t = children_upto(es, sort, parent, m);
            assert forall|i: int| 0 <= i < es.len() implies (t.contains(i as usize) <==> (i < m && parent_pos(es, i)
                == parent)) by {
                assert(s.contains(i as usize) <==> (i < m - 1 && parent_pos(es, i) == parent));
            }
        }
    }
}

/// `children` really lists the entries under `parent`: some list does.
pub proof fn lemma_children_listed(es: Seq<ProcEntry>, sort: ProcSort, parent: Option<int>)
    requires
        es.len() <= usize::MAX,
    ensures
        lists_children(es, sort, children(es, sort, parent), parent),
{
    lemma_children_upto(es, sort, parent, es.len() as int);
    assert(lists_children(es, sort, children_upto(es, sort, parent, es.len() as int), parent));
}

/// Entry `j`'s pid has an entry whose parent is `parent` (a root entry for
/// `None`).
pub open spec fn hangs_from(es: Seq<ProcEntry>, j: int, parent: Option<int>) -> bool {
    exists|i: int| 0 <= i < es.len() && es[i].pid == es[j].pid && #[trigger] parent_pos(es, i) == parent
}

#[verifier::rlimit(40)]
proof fn lemma_subtree_shape(es: Seq<ProcEntry>, sort: ProcSort, needle: Seq<char>, node: int, depth: u8, fuel: nat)
    requires
        0 <= node < es.len(),
        es.len() <= usize::MAX,
    ensures
        ({
            let rows = subtree(es, sort, needle, node, depth, fuel);
            &&& rows.len() > 0 ==> rows[0] == (node as usize, depth)
            &&& forall|k: int|
                #![trigger rows[k]]
                0 < k < rows.len() ==> rows[k].0 < es.len() && exists|j: int|
                    #![trigger rows[j]]
                    0 <= j < k && hangs_from(es, rows[k].0 as int, Some(rows[j].0 as int)) && rows[k].1 == deeper(
                        rows[j].1,
                    )
        }),
    decreases fuel, 0nat,
{
    if fuel > 0 && kept(es, needle, node) {
        let kids = children(es, sort, Some(node));
        lemma_children_listed(es, sort, Some(node));
        assert forall|i: int| 0 <= i < kids.len() implies #[trigger] kids[i] < es.len() && parent_pos(
            es,
            kids[i] as int,
        ) == Some(node) by {
            assert(kids[i] < tview(es).len());
            assert(kids.contains(kids[i]));
        }
        lemma_forest_shape(es, sort, needle, kids, kids.len(), deeper(depth), (fuel - 1) as nat, Some(node));
        let f = forest(es, sort, needle, kids, kids.len(), deeper(depth), (fuel - 1) as nat);
        let rows = subtree(es, sort, needle, node, depth, fuel);
        assert(rows == seq![(node as usize, depth)] + f);
        assert forall|k: int| #![trigger rows[k]] 0 < k < rows.len() implies rows[k].0 < es.len() && exists|j: int|
            #![trigger rows[j]]
            0 <= j < k && hangs_from(es, rows[k].0 as int, Some(rows[j].0 as int)) && rows[k].1 == deeper(
                rows[j].1,
            ) by {
            assert(rows[k] == f[k - 1]);
            assert(f[k - 1].0 < es.len());
            if hangs_from(es, f[k - 1].0 as int, Some(node)) && f[k - 1].1 == deeper(depth) {
                assert(rows[0] == (node as usize, depth));
                assert(0 <= 0 < k && hangs_from(es, rows[k].0 as int, Some(rows[0].0 as int)) && rows[k].1 == deeper(
                    rows[0].1,
                ));
            } else {
                let j = choose|j: int|
                    #![trigger f[j]]
                    0 <= j < k - 1 && hangs_from(es, f[k - 1].0 as int, Some(f[j].0 as int)) && f[k - 1].1 == deeper(
                        f[j].1,
                    );
                assert(rows[j + 1] == f[j]);
            }
        }
    }
}

proof fn lemma_forest_shape(
    es: Seq<ProcEntry>,
    sort: ProcSort,
    needle: Seq<char>,
    list: Seq<usize>,
    j: nat,
    depth: u8,
    fuel: nat,
    parent: Option<int>,
)
    requires
        j <= list.len(),
        es.len() <= usize::MAX,
        forall|i: int| 0 <= i < list.len() ==> #[trigger] list[i] < es.len() && parent_pos(es, list[i] as int) == parent,
    ensures
        ({
            let rows = forest(es, sort, needle, list, j, depth, fuel);
            forall|k: int|
                #![trigger rows[k]]
                0 <= k < rows.len() ==> {
                    &&& rows[k].0 < es.len()
                    &&& ((hangs_from(es, rows[k].0 as int, parent) && rows[k].1 == depth) || exists|q: int|
                        #![trigger rows[q]]
                        0 <= q < k && hangs_from(es, rows[k].0 as int, Some(rows[q].0 as int)) && rows[k].1
                            == deeper(rows[q].1))
                }
        }),
    decreases fuel, j + 1,
{
    if j > 0 {
        let i0 = list[j - 1] as int;
        let node = last_twin(es, i0);
        lemma_last_twin(es, i0);
        lemma_forest_shape(es, sort, needle, list, (j - 1) as nat, depth, fuel, parent);
        lemma_subtree_shape(es, sort, needle, node, depth, fuel);
        let a = forest(es, sort, needle, list, (j - 1) as nat, depth, fuel);
        let b = subtree(es, sort, needle, node, depth, fuel);
        let rows = forest(es, sort, needle, list, j, depth, fuel);
        assert(rows == a + b);
        assert(parent_pos(es, i0) == parent);
        assert(hangs_from(es, node, parent));
        assert forall|k: int| #![trigger rows[k]] 0 <= k < rows.len() implies {
            &&& rows[k].0 < es.len()
            &&& ((hangs_from(es, rows[k].0 as int, parent) && rows[k].1 == depth) || exists|q: int|
                #![trigger rows[q]]
                0 <= q < k && hangs_from(es, rows[k].0 as int, Some(rows[q].0 as int)) && rows[k].1 == deeper(
                    rows[q].1,
                ))
        } by {
            if k < a.len() {
                assert(rows[k] == a[k]);
                if !(hangs_from(es, a[k].0 as int, parent) && a[k].1 == depth) {
                    let q = choose|q: int|
                        #![trigger a[q]]
                        0 <= q < k && hangs_from(es, a[k].0 as int, Some(a[q].0 as int)) && a[k].1 == deeper(a[q].1);
                    assert(rows[q] == a[q]);
                }
            } else {
                let t = k - a.len();
                assert(rows[k] == b[t]);
                if t > 0 {
                    let q = choose|q: int|
                        #![trigger b[q]]
                        0 <= q < t && hangs_from(es, b[t].0 as int, Some(b[q].0 as int)) && b[t].1 == deeper(b[q].1);
                    assert(rows[q + a.len()] == b[q]);
                }
            }
        }
    }
}

/// In the process tree every row is the last entry of a pid that has a
/// root entry, at depth zero, or sits one level below an earlier row whose
/// pid is the parent of one of its entries: children come after their
/// parent.
pub proof fn law_children_follow_their_parent(es: Seq<ProcEntry>, filter: Seq<char>, sort: ProcSort)
    requires
        es.len() <= usize::MAX,
    ensures
        ({
            let rows = tree_spec(es, ascii_lower_seq(filter), sort);
            forall|k: int|
                #![trigger rows[k]]
                0 <= k < rows.len() ==> {
                    &&& rows[k].0 < es.len()
                    &&& ((hangs_from(es, rows[k].0 as int, None) && rows[k].1 == 0) || exists|q: int|
                        #![trigger rows[q]]
                        0 <= q < k && hangs_from(es, rows[k].0 as int, Some(rows[q].0 as int)) && rows[k].1
                            == deeper(rows[q].1))
                }
        }),
{
    let roots = children(es, sort, None);
    lemma_children_listed(es, sort, None);
    assert forall|i: int| 0 <= i < roots.len() implies #[trigger] roots[i] < es.len() && parent_pos(
        es,
        roots[i] as int,
    ) == None::<int> by {
        assert(roots[i] < tview(es).len());
        assert(roots.contains(roots[i]));
    }
    lemma_forest_shape(es, sort, ascii_lower_seq(filter), roots, roots.len(), 0, es.len(), None);
}

/// A process passes a (lowered) filter exactly when the filter is empty, or
/// occurs anywhere in its name or its command line with their ASCII
/// letters lowered, or is a run of digits inside its pid's decimal form: a
/// match need not start the name.
pub proof fn law_filter_matches_anywhere(
    name: Seq<char>,
    pid: u32,
    command: Option<Seq<char>>,
    needle: Seq<char>,
    at: int,
)
    ensures
        needle.len() == 0 ==> filter_passes(name, pid, command, needle),
        0 <= at && at + needle.len() <= name.len() && ascii_lower_seq(name).subrange(at, at + needle.len())
            == needle ==> filter_passes(name, pid, command, needle),
        has_infix(ascii_lower_seq(name), needle) ==> filter_passes(name, pid, command, needle),
        (command matches Some(c) && has_infix(ascii_lower_seq(c), needle)) ==> filter_passes(
            name,
            pid,
            command,
            needle,
        ),
        needle.len() > 0 && all_digits(needle) && has_infix(decimal(pid as nat), needle) ==> filter_passes(
            name,
            pid,
            command,
            needle,
        ),
        filter_passes(name, pid, command, needle) ==> needle.len() == 0 || has_infix(ascii_lower_seq(name), needle)
            || pid_matches(pid, needle) || (command matches Some(c) && has_infix(ascii_lower_seq(c), needle)),
{
    if 0 <= at && at + needle.len() <= name.len() && ascii_lower_seq(name).subrange(at, at + needle.len()) == needle {
        assert(has_infix(ascii_lower_seq(name), needle));
    }
}

/// Every process whose name contains the filter, ignoring ASCII case, is a
/// row of the flat table (and of the listed rows when not nested), wherever
/// in the name the match sits.
pub proof fn law_name_matches_are_listed(
    es: Seq<ProcEntry>,
    filter: Seq<char>,
    sort: ProcSort,
    rows: Seq<(usize, u8)>,
    i: int,
)
    requires
        listed_ok(es, filter, sort, false, rows),
        es.len() <= usize::MAX,
        0 <= i < es.len(),
        has_infix(ascii_lower_seq(es[i].name@), ascii_lower_seq(filter)),
    ensures
        exists|k: int| 0 <= k < rows.len() && #[trigger] rows[k].0 == i,
{
    law_filter_matches_anywhere(es[i].name@, es[i].pid, opt_view(es[i].command), ascii_lower_seq(filter), 0);
    let flat = rows.map_values(|r: (usize, u8)| r.0);
    assert(flat.contains(i as usize));
    let k = choose|k: int| 0 <= k < flat.len() && flat[k] == i as usize;
    assert(flat[k] == rows[k].0);
    assert(rows[k].0 == i);
}

} // verus!
