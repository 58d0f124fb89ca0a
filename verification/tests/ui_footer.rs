use plottypus::surface::Surface;
use plottypus::ui::footer::{confirm_who, footer_chips, footer_hit, footer_line, FooterFacts, FooterHit, Ink};
use plottypus::ui::layout::Rect;
use plottypus::ui::widgets::Focus;

/// The footer of a fresh work screen whose process table has the focus.
fn fixture() -> FooterFacts {
    FooterFacts {
        confirm_kill: false,
        confirm_signal: String::from("TERM"),
        confirm_pid: None,
        confirm_name: None,
        status: None,
        detail_open: false,
        expanded: false,
        surface: Surface::Work,
        searching: false,
        focus: Focus::Processes,
        frozen: false,
    }
}

fn text(f: &FooterFacts) -> String {
    footer_line(f).iter().map(|(s, _)| s.as_str()).collect()
}

#[test]
fn work_footer_is_quiet_without_a_selection_context() {
    let mut fx = fixture();
    fx.focus = Focus::Cpu;
    let t = text(&fx);
    assert!(t.contains('?') && t.contains("help"), "{t}");
    assert!(t.contains('q'), "{t}");
    assert!(!t.contains("search"), "{t}");
    assert!(!t.contains("kill"), "{t}");
    assert!(!t.contains("expand"), "{t}");
    assert!(!t.contains("resize"), "{t}");
}

#[test]
fn kill_chip_only_over_the_process_table() {
    let mut fx = fixture();
    fx.focus = Focus::Processes;
    let t = text(&fx);
    assert!(t.contains("search") && t.contains("kill"), "{t}");
    fx.focus = Focus::Mem;
    assert!(!text(&fx).contains("kill"));
}

#[test]
fn expanded_shows_home() {
    let mut fx = fixture();
    fx.expanded = true;
    let t = text(&fx);
    assert!(t.contains("home"), "{t}");
    assert!(!t.contains("kill"), "{t}");
}

#[test]
fn paused_chip_when_frozen() {
    let mut fx = fixture();
    fx.frozen = true;
    assert!(text(&fx).contains("paused"));
}

#[test]
fn confirm_shows_pid() {
    let mut fx = fixture();
    fx.confirm_kill = true;
    fx.confirm_pid = Some(904);
    fx.confirm_signal = String::from("KILL");
    fx.confirm_name = Some(String::from("Xcode"));
    let t = text(&fx);
    assert!(t.contains("904"), "{t}");
    assert!(t.contains("KILL"), "{t}");
    assert!(t.contains("Xcode"), "{t}");
    assert!(!t.contains("TERM pid 1"), "{t}");
    assert!(t.contains("yes"));
}

#[test]
fn footer_hit_only_paints_visible_chips() {
    let mut fx = fixture();
    fx.focus = Focus::Cpu;
    let area = Rect::new(0, 20, 80, 1);
    assert_eq!(footer_hit(&fx, area, 2, 20), Some(FooterHit::Help));
    assert_eq!(footer_hit(&fx, area, 30, 20), None);
    fx.focus = Focus::Processes;
    assert_eq!(footer_hit(&fx, area, 14, 20), Some(FooterHit::Search));
    fx.detail_open = true;
    assert_eq!(footer_hit(&fx, area, 2, 20), Some(FooterHit::DetailTerm));
}

#[test]
fn detail_footer_lists_signals() {
    let mut fx = fixture();
    fx.detail_open = true;
    let t = text(&fx);
    assert!(t.contains("term"), "{t}");
    assert!(t.contains("kill"), "{t}");
    assert!(t.contains("interrupt"), "{t}");
    assert!(t.contains("close"), "{t}");
}

#[test]
fn prompt_falls_back_to_term_and_pid() {
    let mut fx = fixture();
    fx.confirm_signal = String::new();
    assert_eq!(confirm_who(&fx), " TERM?  ");
    fx.confirm_pid = Some(77);
    assert_eq!(confirm_who(&fx), " TERM pid 77?  ");
    fx.confirm_name = Some(String::new());
    assert_eq!(confirm_who(&fx), " TERM pid 77?  ");
    fx.confirm_name = Some(String::from("zedit"));
    assert_eq!(confirm_who(&fx), " TERM zedit (77)?  ");
}

#[test]
fn prompt_answers_sit_after_the_question() {
    let mut fx = fixture();
    fx.confirm_kill = true;
    fx.confirm_pid = Some(5);
    let area = Rect::new(3, 9, 60, 1);
    let w = confirm_who(&fx).chars().count() as u16;
    assert_eq!(footer_hit(&fx, area, 3 + w, 9), Some(FooterHit::ConfirmYes));
    assert_eq!(footer_hit(&fx, area, 3 + w + 7, 9), Some(FooterHit::ConfirmNo));
    assert_eq!(footer_hit(&fx, area, 3 + w + 1, 9), None);
    assert_eq!(footer_hit(&fx, area, 3 + w, 8), None);
}

#[test]
fn status_message_replaces_the_keys() {
    let mut fx = fixture();
    fx.status = Some(String::from("no process selected"));
    let line = footer_line(&fx);
    assert_eq!(line.len(), 1);
    assert_eq!(line[0].0, " no process selected ");
    assert_eq!(line[0].1, Ink::Warn);
}

#[test]
fn glance_offers_work_but_no_process_chips() {
    let mut fx = fixture();
    fx.surface = Surface::Glance;
    assert_eq!(text(&fx), "  ? help  w work  q quit");
    let chips: Vec<&str> = footer_chips(&fx).iter().map(|c| c.1).collect();
    assert_eq!(chips, ["help", "quit"]);
}
