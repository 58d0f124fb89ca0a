use plottypus::config::ProcSort;
use plottypus::ui::processes::{selected_index, tree_name};
use plottypus::ui::proclist::{filter_sort_by, listed, lowered, tree_rows, ProcEntry};

/// Orders cpu shares the way `f32::total_cmp` does.
fn rank(cpu: f32) -> u32 {
    let bits = cpu.to_bits();
    if bits >> 31 == 1 {
        !bits
    } else {
        bits | 0x8000_0000
    }
}

fn process(pid: u32, name: &str, cpu: f32) -> ProcEntry {
    ProcEntry {
        pid,
        ppid: 1,
        name: name.to_owned(),
        command: None,
        cpu_rank: rank(cpu),
        mem_bytes: 0,
    }
}

fn names<'a>(es: &'a [ProcEntry], rows: &[usize]) -> Vec<&'a str> {
    rows.iter().map(|&i| es[i].name.as_str()).collect()
}

#[test]
fn empty_filter_returns_all_sorted_by_cpu_desc() {
    let es = vec![
        process(1, "WindowServer", 5.2),
        process(2, "Xcode", 48.1),
        process(3, "plottypus", 0.6),
    ];
    let rows = filter_sort_by(&es, "", ProcSort::Cpu);
    assert_eq!(names(&es, &rows), ["Xcode", "WindowServer", "plottypus"]);
}

#[test]
fn filter_is_case_insensitive_on_name() {
    let es = vec![
        process(1, "WindowServer", 5.2),
        process(2, "Xcode", 48.1),
        process(3, "xcodebuild", 12.0),
    ];
    let rows = filter_sort_by(&es, "xCoDe", ProcSort::Cpu);
    assert_eq!(names(&es, &rows), ["Xcode", "xcodebuild"]);
}

#[test]
fn follows_pid_not_index() {
    let es = vec![process(1, "a", 1.0), process(2, "b", 9.0)];
    let rows = filter_sort_by(&es, "", ProcSort::Cpu);
    let pids: Vec<u32> = rows.iter().map(|&i| es[i].pid).collect();
    assert_eq!(selected_index(&pids, Some(1), 0), 1);
}

#[test]
fn unknown_filter_is_empty() {
    let es = vec![process(1, "Finder", 1.0)];
    assert!(filter_sort_by(&es, "zzz", ProcSort::Cpu).is_empty());
}

#[test]
fn numeric_filter_matches_pids_too() {
    let es = vec![process(904, "Xcode", 1.0), process(1234, "Finder", 2.0)];
    let rows = filter_sort_by(&es, "904", ProcSort::Cpu);
    assert_eq!(names(&es, &rows), ["Xcode"]);
}

#[test]
fn tree_nests_children_under_parent() {
    let mut es = vec![
        process(10, "parent", 1.0),
        process(11, "child", 9.0),
        process(12, "other", 5.0),
    ];
    es[1].ppid = 10;
    let rows = listed(&es, "", ProcSort::Cpu, true);
    let named: Vec<(u8, &str)> = rows
        .iter()
        .map(|&(i, depth)| (depth, es[i].name.as_str()))
        .collect();
    assert!(
        named.contains(&(0, "parent")) && named.contains(&(1, "child")),
        "{named:?}"
    );
    let parent_at = named.iter().position(|r| r.1 == "parent").unwrap();
    let child_at = named.iter().position(|r| r.1 == "child").unwrap();
    assert!(child_at > parent_at, "{named:?}");
    assert_eq!(tree_name("child", 1), "  ╰ child");
}

#[test]
fn tree_filter_keeps_ancestors() {
    let mut es = vec![process(10, "parent", 1.0), process(11, "child", 2.0)];
    es[1].ppid = 10;
    let rows = listed(&es, "child", ProcSort::Cpu, true);
    let named: Vec<&str> = rows.iter().map(|&(i, _)| es[i].name.as_str()).collect();
    assert_eq!(named, ["parent", "child"]);
}

#[test]
fn mem_and_pid_orders_break_ties_by_snapshot_order() {
    let mut es = vec![
        process(30, "c", 0.0),
        process(10, "a", 0.0),
        process(20, "b", 0.0),
    ];
    es[0].mem_bytes = 5;
    es[1].mem_bytes = 9;
    es[2].mem_bytes = 5;
    assert_eq!(filter_sort_by(&es, "", ProcSort::Mem), [1, 0, 2]);
    assert_eq!(filter_sort_by(&es, "", ProcSort::Pid), [1, 2, 0]);
    assert_eq!(filter_sort_by(&es, "", ProcSort::Cpu), [0, 1, 2]);
}

#[test]
fn command_line_matches_the_filter() {
    let mut es = vec![process(5, "sh", 0.0), process(6, "zsh", 0.0)];
    es[0].command = Some(String::from("/Applications/Xcode.app/run.sh"));
    assert_eq!(filter_sort_by(&es, "XCODE", ProcSort::Pid), [0]);
    assert_eq!(lowered("XCode-1"), "xcode-1");
}

#[test]
fn tree_sorts_siblings_and_nests_deeper() {
    let mut es = vec![
        process(1, "launchd", 0.1),
        process(50, "low", 1.0),
        process(60, "high", 7.0),
        process(70, "grandchild", 3.0),
        process(80, "orphan", 2.0),
    ];
    es[0].ppid = 0;
    es[3].ppid = 60;
    es[4].ppid = 999;
    let rows = tree_rows(&es, "", ProcSort::Cpu);
    assert_eq!(rows, [(4, 0), (0, 0), (2, 1), (3, 2), (1, 1)]);
    let filtered = tree_rows(&es, "grand", ProcSort::Cpu);
    assert_eq!(filtered, [(0, 0), (2, 1), (3, 2)]);
}

#[test]
fn repeated_pids_show_their_last_entry() {
    let mut es = vec![process(7, "a", 1.0), process(7, "b", 2.0)];
    es[1].ppid = 7;
    // both entries are roots (no pid 1; own parent), each shows pid 7's last entry
    assert_eq!(listed(&es, "", ProcSort::Cpu, true), [(1, 0), (1, 0)]);
}

#[test]
fn a_pid_listed_under_two_parents_shows_under_both() {
    let mut es = vec![
        process(1, "init", 0.0),
        process(2, "a", 5.0),
        process(3, "b", 1.0),
        process(5, "x-old", 0.0),
        process(5, "x-new", 0.0),
    ];
    es[0].ppid = 0;
    es[3].ppid = 2;
    es[4].ppid = 3;
    assert_eq!(tree_rows(&es, "", ProcSort::Cpu), [(0, 0), (1, 1), (4, 2), (2, 1), (4, 2)]);
    assert_eq!(tree_rows(&es, "b", ProcSort::Cpu), [(0, 0), (2, 1)]);
}
