use plottypus::ui::layout::Rect;
use plottypus::ui::processes::{
    contains_ignore_ascii, detail_actions, detail_rect, elide_middle, find_lower, matched_parts, matches_filter,
    selected_index, sort_header, started_ago, tree_name, u32_contains, wrap_pieces, DetailAction, Placed,
};

#[test]
fn started_ago_steps() {
    assert_eq!(started_ago(100, 140), "40s");
    assert_eq!(started_ago(0, 180), "3m");
    assert_eq!(started_ago(0, 7_200), "2h0m");
}

#[test]
fn started_ago_in_days_and_future() {
    assert_eq!(started_ago(0, 3 * 86_400 + 5), "3d");
    assert_eq!(started_ago(500, 100), "0s");
    assert_eq!(started_ago(0, 3_725), "1h2m");
}

#[test]
fn sort_header_marks_the_active_column() {
    assert_eq!(sort_header("cpu%", true), "cpu%↓");
    assert_eq!(sort_header("cpu%", false), "cpu%");
}

#[test]
fn elide_keeps_head_and_tail() {
    let path = "/Applications/Xcode.app/Contents/MacOS/Xcode";
    let short = elide_middle(path, 16);
    assert!(short.contains('…'), "{short}");
    assert!(short.starts_with("/App"), "{short}");
    assert!(short.ends_with("code"), "{short}");
    assert_eq!(elide_middle("short", 16), "short");
}

#[test]
fn elided_path_fits_the_width() {
    let short = elide_middle("abcdefghij", 5);
    assert_eq!(short, "ab…ij");
    assert_eq!(short.chars().count(), 5);
}

#[test]
fn dossier_fills_most_of_the_pane() {
    let rect = detail_rect(Rect::new(0, 0, 80, 24));
    assert!(rect.height >= 16, "height {}", rect.height);
    assert!(rect.width >= 70, "width {}", rect.width);
    assert_eq!(rect.x, 1);
    assert_eq!(rect.y, 1);
}

#[test]
fn action_chips_line_up_on_the_footer() {
    let chips = detail_actions(Rect::new(0, 0, 80, 24));
    let rect = detail_rect(Rect::new(0, 0, 80, 24));
    let actions: Vec<DetailAction> = chips.iter().map(|(_, a)| *a).collect();
    assert_eq!(
        actions,
        vec![
            DetailAction::Term,
            DetailAction::Kill,
            DetailAction::Interrupt,
            DetailAction::Close
        ]
    );
    assert_eq!(chips[0].0, Rect::new(2, rect.y + rect.height - 2, 9, 1));
    assert_eq!(chips[2].0.x, 2 + 9 + 9);
    let narrow = detail_actions(Rect::new(0, 0, 24, 24));
    assert!(narrow.len() < 4);
    for (r, _) in &narrow {
        assert!(r.x + r.width <= 1 + 22);
    }
}

#[test]
fn tree_names_hang_from_a_corner() {
    assert_eq!(tree_name("child", 1), "  ╰ child");
    assert_eq!(tree_name("root", 0), "root");
    assert_eq!(tree_name("leaf", 2), "    ╰ leaf");
}

#[test]
fn selection_index_prefers_the_pid() {
    let rows = vec![2, 1];
    assert_eq!(selected_index(&rows, Some(1), 0), 1);
    assert_eq!(selected_index(&rows, Some(7), 5), 1);
    assert_eq!(selected_index(&Vec::new(), None, 3), 0);
}

#[test]
fn digit_filters_look_inside_pids() {
    assert!(u32_contains(904, "904"));
    assert!(u32_contains(1904, "90"));
    assert!(!u32_contains(1234, "904"));
    assert!(!u32_contains(904, "9a"));
    assert!(matches_filter("Xcode", 904, None, "904"));
    assert!(!matches_filter("Finder", 1234, None, "904"));
}

#[test]
fn name_and_command_match_without_case() {
    assert!(contains_ignore_ascii("Xcode", "xcode"));
    assert!(matches_filter("xcodebuild", 3, None, "xcode"));
    assert!(!matches_filter("WindowServer", 1, None, "xcode"));
    assert!(matches_filter("sh", 5, Some("/Applications/Xcode.app/sh"), "xcode"));
    assert!(matches_filter("anything", 5, None, ""));
}

#[test]
fn matches_are_highlighted() {
    let parts = matched_parts("WindowServer", "win");
    assert_eq!(parts.len(), 3);
    assert_eq!(parts[1].0, "Win");
    assert!(parts[1].1);
    assert!(!parts[0].1);
    assert_eq!(parts[0].0, "");
    assert_eq!(parts[2].0, "dowServer");
    let plain = matched_parts("Finder", "zzz");
    assert_eq!(plain.len(), 1);
}

#[test]
fn highlight_finds_the_first_match_after_multibyte_text() {
    let parts = matched_parts("ä-Xcode-xcode", "xcode");
    assert_eq!(parts[0].0, "ä-");
    assert_eq!(parts[1].0, "Xcode");
    assert_eq!(parts[2].0, "-xcode");
    assert_eq!(matched_parts("abc", ""), [(String::from("abc"), false)]);
    assert_eq!(find_lower("aXb", "xb"), Some(1));
    assert_eq!(find_lower("ab", "abc"), None);
}

fn texts(items: &[&str]) -> Vec<String> {
    items.iter().map(|s| s.to_string()).collect()
}

fn placed(from: usize, text: &str) -> Placed {
    Placed { from, text: text.to_string() }
}

#[test]
fn wrapping_starts_a_line_and_drops_the_leading_space() {
    let lines = wrap_pieces(&texts(&["name", " @user", "  state", " run"]), 12);
    assert_eq!(
        lines,
        vec![vec![placed(0, "name"), placed(1, " @user")], vec![placed(2, "state"), placed(3, " run")]]
    );
}

#[test]
fn wrapping_skips_a_blank_piece_and_keeps_a_long_first_one() {
    assert_eq!(wrap_pieces(&texts(&["abcdef", "   "]), 7), vec![vec![placed(0, "abcdef")], vec![]]);
    assert_eq!(wrap_pieces(&texts(&["abcdefghij"]), 4), vec![vec![placed(0, "abcdefghij")]]);
    assert_eq!(wrap_pieces(&texts(&[]), 4), vec![Vec::<Placed>::new()]);
    assert_eq!(
        wrap_pieces(&texts(&["ab", "cd", "ef"]), 4),
        vec![vec![placed(0, "ab")], vec![placed(1, "cd")], vec![placed(2, "ef")]]
    );
}
