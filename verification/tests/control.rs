use plottypus::config::Config;
use plottypus::control::{Action, Hardware, UiState};
use plottypus::event::Event;
use plottypus::metrics::process::Signal;
use plottypus::surface::Surface;
use plottypus::ui::layout::{plan, LayoutPlan, Panel, Rect};
use plottypus::ui::widgets::Focus;

fn hw() -> Hardware {
    Hardware {
        has_gpu: true,
        has_fans: true,
        has_disk: true,
    }
}

fn state() -> UiState {
    UiState::new(Config::default())
}

fn step(s: UiState, e: Event, rows: &Vec<u32>) -> UiState {
    s.handle(e, rows, hw()).0
}

#[test]
fn selection_follows_pid_after_resort() {
    let mut app = state();
    app.proc.selected_pid = Some(1);
    let by_cpu = vec![2, 1];
    let app = app.sync_selection(&by_cpu);
    assert_eq!(app.proc.selected, 1);
    let resorted = vec![1, 2];
    let app = app.sync_selection(&resorted);
    assert_eq!(app.proc.selected_pid, Some(1));
    assert_eq!(app.proc.selected, 0);
}

#[test]
fn click_box_focuses_without_expand() {
    let mut app = state();
    app.last_area = Rect::new(0, 0, 120, 30);
    let rows = Vec::new();
    let planned = plan(app.last_area, Surface::Work, app.layout_flags(hw()));
    let app = app.drawn(planned);
    let cpu = planned.cpu.unwrap_or_default();
    let app = step(app, Event::Click { col: cpu.x + 2, row: cpu.y + 1 }, &rows);
    assert_eq!(app.focus, Focus::Cpu);
    assert!(app.expanded.is_none());
    let corner = LayoutPlan::corner_hit(cpu).unwrap_or_default();
    let app = step(app, Event::Click { col: corner.x, row: corner.y }, &rows);
    assert_eq!(app.expanded, Some(Panel::Cpu));
}

#[test]
fn click_selected_process_opens_detail() {
    let mut app = state();
    app.focus = Focus::Processes;
    app.last_area = Rect::new(0, 0, 120, 30);
    let rows = vec![7];
    let planned = plan(app.last_area, Surface::Work, app.layout_flags(hw()));
    let app = app.drawn(planned);
    let proc = planned.processes.unwrap_or_default();
    let app = step(app, Event::Click { col: proc.x + 2, row: proc.y + 3 }, &rows);
    assert_eq!(app.proc.selected_pid, Some(7));
    assert_eq!(app.detail_pid, Some(7));
    let app = step(app, Event::FilterCancel, &rows);
    assert!(app.detail_pid.is_none());
}

#[test]
fn search_question_is_not_a_letter() {
    let rows = Vec::new();
    let app = step(state(), Event::Search, &rows);
    assert!(app.searching);
    let app = step(app, Event::Help, &rows);
    assert!(app.help);
}

#[test]
fn expand_collapse_and_next_panel() {
    let rows = Vec::new();
    let mut app = state();
    app.focus = Focus::Cpu;
    assert!(app.expanded.is_none());

    let app = step(app, Event::Expand, &rows);
    assert_eq!(app.expanded, Some(Panel::Cpu));
    let app = step(app, Event::FilterCancel, &rows);
    assert!(app.expanded.is_none());
    let app = step(app, Event::Expand, &rows);
    assert_eq!(app.expanded, Some(Panel::Cpu));
    let app = step(app, Event::FilterCancel, &rows);
    assert!(app.expanded.is_none());

    let panels = app.layout_flags(hw()).visible_panels();
    let idx = panels.iter().position(|&p| p == app.focus.panel()).unwrap();
    let expected = Focus::from_panel(panels[(idx + 1) % panels.len()]);
    let app = step(app, Event::NextPanel, &rows);
    assert_eq!(app.focus, expected);
    assert!(app.expanded.is_none());

    let focused = app.focus.panel();
    let mut app = step(app, Event::Expand, &rows);
    assert_eq!(app.expanded, Some(focused));
    app.focus = Focus::Processes;
    let app = step(app, Event::Move(1), &rows);
    let app = step(app, Event::Move(-1), &rows);
    assert_eq!(
        app.expanded,
        Some(focused),
        "wheel must not switch the expanded panel"
    );
}

#[test]
fn kill_from_detail_targets_the_detailed_pid() {
    let rows = vec![22, 11];
    let mut app = state();
    app.detail_pid = Some(11);
    let (app, action) = app.handle(Event::DetailKill, &rows, hw());
    assert_eq!(action, Action::Nothing);
    assert!(app.confirm_kill);
    assert_eq!(app.confirm_pid, Some(11), "kill must target the detailed pid");
    let app = step(app, Event::ConfirmNo, &rows);
    assert!(!app.confirm_kill);
}

#[test]
fn open_detail_pins_selection() {
    let rows = vec![22, 11];
    let mut app = state();
    app.proc.selected_pid = Some(11);
    let app = step(app, Event::Expand, &rows);
    assert_eq!(app.detail_pid, Some(11));
    assert_eq!(app.proc.selected_pid, Some(11));
    let app = step(app, Event::Move(1), &rows);
    assert_eq!(app.detail_pid, app.proc.selected_pid);
}

#[test]
fn confirmed_kill_sends_the_armed_signal() {
    let rows = vec![5];
    let app = state();
    let (app, action) = app.handle(Event::Kill, &rows, hw());
    assert_eq!(action, Action::Nothing);
    assert_eq!(app.confirm_pid, Some(5));
    let (app, action) = app.handle(Event::ConfirmYes, &rows, hw());
    assert_eq!(action, Action::Signal { pid: 5, signal: Signal::Term });
    assert!(!app.confirm_kill);
}

#[test]
fn kill_with_nothing_listed_reports_it() {
    let rows = Vec::new();
    let (app, action) = state().handle(Event::Kill, &rows, hw());
    assert_eq!(action, Action::NoSelection);
    assert!(!app.confirm_kill);
}

#[test]
fn typing_filters_and_asks_for_the_list() {
    let rows = Vec::new();
    let (app, action) = state().handle(Event::FilterChar('x'), &rows, hw());
    assert_eq!(action, Action::Resync);
    assert_eq!(app.proc.filter, "x");
    assert_eq!(app.focus, Focus::Search);
    let (app, _) = app.handle(Event::FilterBackspace, &rows, hw());
    assert_eq!(app.proc.filter, "");
    let (app, action) = app.handle(Event::FilterCancel, &rows, hw());
    assert_eq!(action, Action::Resync);
    assert!(!app.searching);
}

#[test]
fn settings_keys_change_preferences() {
    let rows = Vec::new();
    let app = step(state(), Event::Settings, &rows);
    assert!(app.settings);
    let (app, action) = app.handle(Event::CycleInterval, &rows, hw());
    assert_eq!(action, Action::Interval(2000));
    assert!(app.dirty_prefs);
    let app = step(app, Event::ToggleGpu, &rows);
    assert!(!app.config.show_gpu);
    let app = step(app, Event::Settings, &rows);
    assert!(!app.settings);
}

#[test]
fn freeze_pauses_the_sampler() {
    let rows = Vec::new();
    let (app, action) = state().handle(Event::Freeze, &rows, hw());
    assert_eq!(action, Action::Paused(true));
    let (_, action) = app.handle(Event::Freeze, &rows, hw());
    assert_eq!(action, Action::Paused(false));
}

#[test]
fn dragging_the_split_sets_the_ratio() {
    let mut app = state();
    app.last_area = Rect::new(0, 0, 100, 30);
    app.dragging_split = true;
    let rows = Vec::new();
    let app = step(app, Event::Drag { col: 49, row: 3 }, &rows);
    assert_eq!(app.proc_ratio, 50);
    let app = step(app, Event::Drag { col: 0, row: 3 }, &rows);
    assert_eq!(app.proc_ratio, 72);
    let app = step(app, Event::MouseUp, &rows);
    assert!(!app.dragging_split);
}

#[test]
fn glance_key_locks_the_surface() {
    let rows = Vec::new();
    let app = step(state(), Event::Glance, &rows);
    assert_eq!(app.config.surface, Some(Surface::Glance));
    assert_eq!(app.effective_surface(), Surface::Glance);
    assert!(app.dirty_prefs);
    let app = app.on_resize(Rect::new(0, 0, 200, 60));
    assert_eq!(app.effective_surface(), Surface::Glance);
}

#[test]
fn vanished_detail_process_closes_the_popup() {
    let mut app = state();
    app.detail_pid = Some(9);
    let rows = vec![1, 2];
    let app = app.on_snapshot(&rows, &rows);
    assert!(app.detail_pid.is_none());
}

#[test]
fn tree_key_toggles_the_tree_and_marks_settings() {
    let rows = vec![1, 2];
    let s = state();
    assert!(!s.show_tree);
    let (s, a) = s.handle(Event::ToggleTree, &rows, hw());
    assert!(s.show_tree);
    assert!(s.dirty_prefs);
    assert_eq!(a, Action::Nothing);
    let (s, _) = s.handle(Event::ToggleTree, &rows, hw());
    assert!(!s.show_tree);
}

#[test]
fn moves_are_accepted_in_range_and_clicks_always() {
    let rows = vec![5, 6, 7];
    let s = state();
    assert!(s.accepts(Event::Move(1), &rows, hw()));
    assert!(s.accepts(Event::Move(i32::MIN), &rows, hw()));
    assert!(s.accepts(Event::Click { col: 3, row: 4 }, &rows, hw()));
    assert!(s.accepts(Event::Help, &rows, hw()));
    let wide = s.on_resize(Rect::new(0, 0, 2000, 50));
    assert!(wide.accepts(Event::Click { col: 3, row: 4 }, &rows, hw()));
    let moved = step(wide, Event::Move(1), &rows);
    assert_eq!(moved.proc.selected, 1);
    assert!(!moved.accepts(Event::Move(i32::MAX), &rows, hw()));
    assert!(moved.accepts(Event::Move(i32::MAX - 1), &rows, hw()));
}

#[test]
fn signal_names_drop_the_prefix() {
    assert_eq!(Signal::Term.label(), "TERM");
    assert_eq!(Signal::Kill.label(), "KILL");
    assert_eq!(Signal::Int.label(), "INT");
}

#[test]
fn freezing_twice_restores_the_interface() {
    let rows = vec![3, 4];
    let start = state();
    let (frozen, first) = start.clone().handle(Event::Freeze, &rows, hw());
    assert!(frozen.frozen);
    assert_eq!(first, Action::Paused(true));
    let (thawed, second) = frozen.handle(Event::Freeze, &rows, hw());
    assert_eq!(second, Action::Paused(false));
    assert_eq!(thawed, start);
}

#[test]
fn clicks_land_on_the_frame_last_drawn() {
    let rows = Vec::new();
    let app = state();
    // Before any frame is drawn a click lands nowhere.
    let (app, a) = app.handle(Event::Click { col: 5, row: 5 }, &rows, hw());
    assert_eq!(a, Action::Nothing);
    assert_eq!(app.focus, Focus::Processes);
    // After a frame, the click hits the box drawn there, whatever size the
    // screen has become since.
    let drawn = plan(Rect::new(0, 0, 120, 30), Surface::Work, app.layout_flags(hw()));
    let app = app.drawn(drawn).on_resize(Rect::new(0, 0, 40, 10));
    let mem = drawn.mem.unwrap_or_default();
    let app = step(app, Event::Click { col: mem.x + 2, row: mem.y + 1 }, &rows);
    assert_eq!(app.focus, Focus::Mem);
}
