//! The application's decisions: how each input changes what is shown,
//! selected and armed, and what the surrounding program must do in turn
//! (re-time the sampler, pause it, send a signal, report that nothing is
//! selected, or list the processes again after the filter changed).
use vstd::prelude::*;
use crate::config::{Config, PROC_RATIO_MAX, PROC_RATIO_MIN};
use crate::event::Event;
use crate::metrics::process::Signal;
use crate::surface::{auto_surface, Surface};
use crate::text::{pop_char, push_char};
use crate::ui::layout::{
    all_panels, contains, hit_plan_spec, hit_test_plan, rect_contains, sat_add16, sat_sub16, visible_spec, Hit,
    LayoutFlags, LayoutPlan, Panel, Rect,
};
use crate::ui::processes::{detail_actions, detail_actions_spec, detail_rect, detail_rect_spec, first_pos, DetailAction};
use crate::ui::widgets::{focus_panel, panel_focus, Focus, ProcView};

verus! {

/// What the machine has, as far as the layout cares.
#[derive(Debug, Clone, Copy, PartialEq, Eq, Structural)]
pub struct Hardware {
    pub has_gpu: bool,
    pub has_fans: bool,
    pub has_disk: bool,
}

/// What the surrounding program does after an input.
#[derive(Debug, Clone, Copy, PartialEq, Eq, Structural)]
pub enum Action {
    Nothing,
    /// Take a sample if one is due.
    Tick,
    /// Sample at this interval (milliseconds) from now on.
    Interval(u64),
    /// Pause or resume sampling.
    Paused(bool),
    /// Send `signal` to `pid` and report the outcome.
    Signal { pid: u32, signal: Signal },
    /// Report that no process is selected.
    NoSelection,
    /// The filter changed: list the processes again and resynchronise the
    /// selection.
    Resync,
}

/// A request to the sampling thread.
#[derive(Debug, Clone, Copy, PartialEq, Eq, Structural)]
pub enum Cmd {
    /// Sample every this many milliseconds.
    Interval(u64),
    /// Pause (or resume) sampling.
    Paused(bool),
    /// Stop the thread.
    Quit,
}

/// The request an action makes of the sampling thread, if any.
pub open spec fn action_cmd(a: Action) -> Option<Cmd> {
    match a {
        Action::Interval(ms) => Some(Cmd::Interval(ms)),
        Action::Paused(p) => Some(Cmd::Paused(p)),
        _ => None,
    }
}

/// The request an action makes of the sampling thread, if any.
pub fn worker_cmd(a: Action) -> (c: Option<Cmd>)
    ensures
        c == action_cmd(a),
{
    match a {
        Action::Interval(ms) => Some(Cmd::Interval(ms)),
        Action::Paused(p) => Some(Cmd::Paused(p)),
        _ => None,
    }
}

/// The interactive state of the application.
#[derive(Debug, Clone, PartialEq, Eq)]
pub struct UiState {
    pub config: Config,
    pub surface: Surface,
    pub focus: Focus,
    pub expanded: Option<Panel>,
    pub proc: ProcView,
    pub help: bool,
    pub settings: bool,
    pub confirm_kill: bool,
    pub confirm_pid: Option<u32>,
    pub detail_pid: Option<u32>,
    pub searching: bool,
    pub frozen: bool,
    pub show_tree: bool,
    pub dirty_prefs: bool,
    pub pending_signal: Signal,
    pub last_area: Rect,
    pub last_plan: Option<LayoutPlan>,
    pub proc_ratio: u16,
    pub dragging_split: bool,
}

/// The interactive state as a value: the filter as characters.
pub struct UiModel {
    pub config: Config,
    pub surface: Surface,
    pub focus: Focus,
    pub expanded: Option<Panel>,
    pub selected: usize,
    pub selected_pid: Option<u32>,
    pub filter: Seq<char>,
    pub help: bool,
    pub settings: bool,
    pub confirm_kill: bool,
    pub confirm_pid: Option<u32>,
    pub detail_pid: Option<u32>,
    pub searching: bool,
    pub frozen: bool,
    pub show_tree: bool,
    pub dirty_prefs: bool,
    pub pending_signal: Signal,
    pub last_area: Rect,
    pub last_plan: Option<LayoutPlan>,
    pub proc_ratio: u16,
    pub dragging_split: bool,
}

impl View for UiState {
    type V = UiModel;

    open spec fn view(&self) -> UiModel {
        UiModel {
            config: self.config,
            surface: self.surface,
            focus: self.focus,
            expanded: self.expanded,
            selected: self.proc.selected,
            selected_pid: self.proc.selected_pid,
            filter: self.proc.filter@,
            help: self.help,
            settings: self.settings,
            confirm_kill: self.confirm_kill,
            confirm_pid: self.confirm_pid,
            detail_pid: self.detail_pid,
            searching: self.searching,
            frozen: self.frozen,
            show_tree: self.show_tree,
            dirty_prefs: self.dirty_prefs,
            pending_signal: self.pending_signal,
            last_area: self.last_area,
            last_plan: self.last_plan,
            proc_ratio: self.proc_ratio,
            dragging_split: self.dragging_split,
        }
    }
}

/// The surface in use: the one locked in the settings, else the automatic
/// one.
pub open spec fn surface_of(m: UiModel) -> Surface {
    match m.config.surface {
        Some(s) => s,
        None => m.surface,
    }
}

/// The layout flags for the current settings and hardware.
pub open spec fn flags_of(m: UiModel, hw: Hardware) -> LayoutFlags {
    LayoutFlags {
        show_gpu: m.config.show_gpu,
        show_net: m.config.show_net,
        show_disk: m.config.show_disk,
        show_fans: m.config.show_fans,
        has_gpu: hw.has_gpu,
        has_fans: hw.has_fans,
        has_disk: hw.has_disk,
        expanded: m.expanded,
        proc_ratio: m.proc_ratio,
    }
}

/// The last row of a list of `n` rows (0 when empty).
pub open spec fn last_row(n: nat) -> int {
    if n > 0 { n - 1 } else { 0 }
}

/// The selected pid: the remembered one, else the pid on the selected row.
pub open spec fn selected_pid_spec(m: UiModel, rows: Seq<u32>) -> Option<u32> {
    match m.selected_pid {
        Some(p) => Some(p),
        None => if m.selected < rows.len() { Some(rows[m.selected as int]) } else { None },
    }
}

/// The selection after the list changed: an empty list selects row 0; a
/// listed selected pid keeps its row; otherwise the row is clamped to the
/// list and the pid on it becomes the selected pid.
pub open spec fn sync_spec(m: UiModel, rows: Seq<u32>) -> UiModel {
    if rows.len() == 0 {
        UiModel { selected: 0, ..m }
    } else {
        match m.selected_pid {
            Some(p) if first_pos(rows, p, 0) is Some => UiModel { selected: first_pos(rows, p, 0)->0 as usize, ..m },
            _ => {
                let i: int = if m.selected < last_row(rows.len()) { m.selected as int } else { last_row(rows.len()) };
                UiModel { selected: i as usize, selected_pid: Some(rows[i]), ..m }
            },
        }
    }
}

/// The row a move starts from: the selected pid's row, else the selected
/// row clamped to the list.
pub open spec fn move_start(m: UiModel, rows: Seq<u32>) -> int {
    match m.selected_pid {
        Some(p) if first_pos(rows, p, 0) is Some => first_pos(rows, p, 0)->0,
        _ => if m.selected < last_row(rows.len()) { m.selected as int } else { last_row(rows.len()) },
    }
}

/// The start row as the signed number a move adds to (0 if it does not
/// fit).
pub open spec fn move_base(m: UiModel, rows: Seq<u32>) -> int {
    if move_start(m, rows) <= i32::MAX { move_start(m, rows) } else { 0 }
}

/// A move by `delta` stays within signed 32-bit arithmetic.
pub open spec fn move_fits(m: UiModel, rows: Seq<u32>, delta: i32) -> bool {
    rows.len() <= 0x8000_0000 && i32::MIN <= move_base(m, rows) + delta <= i32::MAX
}

/// The selection moved by `delta` rows, clamped to the list; an open detail
/// popup follows it.
pub open spec fn move_spec(m: UiModel, rows: Seq<u32>, delta: i32) -> UiModel {
    if rows.len() == 0 {
        UiModel { selected: 0, selected_pid: None, ..m }
    } else {
        let t = move_base(m, rows) + delta;
        let next: int = if t < 0 { 0 } else if t > rows.len() - 1 { rows.len() - 1 } else { t };
        let pid = Some(rows[next]);
        UiModel {
            selected: next as usize,
            selected_pid: pid,
            detail_pid: if m.detail_pid is Some { pid } else { None },
            ..m
        }
    }
}

/// Position of the first `p` at or after `i` in `ring`.
pub open spec fn panel_pos(ring: Seq<Panel>, p: Panel, i: int) -> Option<int>
    decreases ring.len() - i,
{
    if i < 0 || i >= ring.len() {
        None
    } else if ring[i] == p {
        Some(i)
    } else {
        panel_pos(ring, p, i + 1)
    }
}

/// The panels that focus cycles through.
pub open spec fn focus_ring(m: UiModel, hw: Hardware) -> Seq<Panel> {
    all_panels().filter(|p: Panel| visible_spec(flags_of(m, hw), p))
}

/// Focus moved one visible box forward (or back when `dir < 0`), wrapping
/// around; a focus outside the ring goes to its first (or last) box.
pub open spec fn cycle_spec(m: UiModel, hw: Hardware, dir: i32) -> UiModel {
    let ring = focus_ring(m, hw);
    if ring.len() == 0 {
        m
    } else {
        let cur = focus_panel(m.focus);
        let next: int = if panel_pos(ring, cur, 0) is Some {
            let i = panel_pos(ring, cur, 0)->0;
            if dir < 0 {
                if i == 0 { ring.len() - 1 } else { i - 1 }
            } else {
                (i + 1) % (ring.len() as int)
            }
        } else if dir < 0 {
            ring.len() - 1
        } else {
            0
        };
        UiModel { focus: panel_focus(ring[next]), ..m }
    }
}

/// Killing is allowed unless a box other than the process table is
/// expanded.
pub open spec fn can_kill_spec(m: UiModel) -> bool {
    m.expanded is None || m.expanded == Some(Panel::Processes)
}

/// Arms the kill prompt for the detailed process, else the selected one;
/// with neither, nothing is armed and the user is told.
pub open spec fn arm_spec(m: UiModel, rows: Seq<u32>) -> (UiModel, Action) {
    let target = if m.detail_pid is Some { m.detail_pid } else { selected_pid_spec(m, rows) };
    (
        UiModel { confirm_pid: target, confirm_kill: target is Some, ..m },
        if target is Some { Action::Nothing } else { Action::NoSelection },
    )
}

/// Esc closes the innermost thing open: help, settings, the kill prompt,
/// the detail popup, the expanded box, and finally the search (clearing the
/// filter, which asks for the list again).
pub open spec fn cancel_spec(m: UiModel) -> (UiModel, Action) {
    if m.help {
        (UiModel { help: false, ..m }, Action::Nothing)
    } else if m.settings {
        (UiModel { settings: false, ..m }, Action::Nothing)
    } else if m.confirm_kill {
        (UiModel { confirm_pid: None, confirm_kill: false, ..m }, Action::Nothing)
    } else if m.detail_pid is Some {
        (UiModel { detail_pid: None, ..m }, Action::Nothing)
    } else if m.expanded is Some {
        (UiModel { expanded: None, ..m }, Action::Nothing)
    } else if m.searching || m.filter.len() > 0 {
        (UiModel { searching: false, filter: Seq::empty(), focus: Focus::Processes, ..m }, Action::Resync)
    } else {
        (m, Action::Nothing)
    }
}

/// The settings after a settings key: a pane or column toggled, the sort
/// order or the sampling interval cycled; none for other inputs.
pub open spec fn toggled_config(c: Config, e: Event) -> Option<Config> {
    match e {
        Event::CycleInterval => Some(Config { interval: crate::config::next_interval(c.interval), ..c }),
        Event::ToggleGpu => Some(Config { show_gpu: !c.show_gpu, ..c }),
        Event::ToggleNet => Some(Config { show_net: !c.show_net, ..c }),
        Event::ToggleCores => Some(Config { show_cores: !c.show_cores, ..c }),
        Event::ToggleDisk => Some(Config { show_disk: !c.show_disk, ..c }),
        Event::ToggleFans => Some(Config { show_fans: !c.show_fans, ..c }),
        Event::ToggleThreads => Some(Config { show_threads: !c.show_threads, ..c }),
        Event::CycleSort => Some(Config { proc_sort: crate::config::next_sort(c.proc_sort), ..c }),
        _ => None,
    }
}

/// A settings key applied: the settings change and are marked for saving;
/// a new interval is passed on to the sampler.
pub open spec fn setting_spec(m: UiModel, e: Event) -> Option<(UiModel, Action)> {
    if e == Event::ToggleTree {
        Some((UiModel { show_tree: !m.show_tree, dirty_prefs: true, ..m }, Action::Nothing))
    } else {
        match toggled_config(m.config, e) {
            Some(c) => Some((
                UiModel { config: c, dirty_prefs: true, ..m },
                if e == Event::CycleInterval { Action::Interval(c.interval) } else { Action::Nothing },
            )),
            None => None,
        }
    }
}

/// Keys while the settings overlay is open: `s` closes it; the setting
/// keys change settings; nothing else happens.
pub open spec fn settings_event_spec(m: UiModel, e: Event) -> (UiModel, Action) {
    if e == Event::Settings {
        (UiModel { settings: false, ..m }, Action::Nothing)
    } else {
        match setting_spec(m, e) {
            Some(r) => r,
            None => (m, Action::Nothing),
        }
    }
}

/// Keys while a kill waits for confirmation: yes sends the signal to the
/// armed pid, no (or the kill key again) disarms; nothing else happens.
pub open spec fn confirm_spec(m: UiModel, e: Event) -> (UiModel, Action) {
    match e {
        Event::ConfirmYes => (
            UiModel { confirm_pid: None, confirm_kill: false, ..m },
            match m.confirm_pid {
                Some(pid) => Action::Signal { pid, signal: m.pending_signal },
                None => Action::Nothing,
            },
        ),
        Event::ConfirmNo | Event::Kill => (UiModel { confirm_pid: None, confirm_kill: false, ..m }, Action::Nothing),
        _ => (m, Action::Nothing),
    }
}

/// Locks the surface in the settings (marking them changed if it differs).
pub open spec fn lock_spec(m: UiModel, s: Surface) -> UiModel {
    UiModel {
        dirty_prefs: m.dirty_prefs || m.config.surface != Some(s),
        config: Config { surface: Some(s), ..m.config },
        surface: s,
        ..m
    }
}

/// Expands `panel`; expanding another box than the process table ends the
/// search.
pub open spec fn expand_spec(m: UiModel, panel: Panel) -> UiModel {
    UiModel { expanded: Some(panel), searching: if panel != Panel::Processes { false } else { m.searching }, ..m }
}

/// The process-table width, in percent, for a split dragged to column
/// `col` of a screen `width` wide.
pub open spec fn drag_ratio(width: u16, col: u16) -> u16 {
    let proc_w = sat_sub16(width, sat_add16(col, 1));
    let r = ((proc_w as int) * 100 / (width as int)) as u16;
    if r < PROC_RATIO_MIN { PROC_RATIO_MIN } else if r > PROC_RATIO_MAX { PROC_RATIO_MAX } else { r }
}

/// Dragging the split to column `col` (only while dragging, on screens at
/// least 40 wide).
pub open spec fn drag_spec(m: UiModel, col: u16) -> UiModel {
    if !m.dragging_split || m.last_area.width < 40 {
        m
    } else {
        UiModel { proc_ratio: drag_ratio(m.last_area.width, col), dirty_prefs: true, ..m }
    }
}

/// What a detail popup chip does when clicked.
pub open spec fn chip_event(a: DetailAction) -> Event {
    match a {
        DetailAction::Term => Event::DetailTerm,
        DetailAction::Kill => Event::DetailKill,
        DetailAction::Interrupt => Event::DetailInterrupt,
        DetailAction::Close => Event::FilterCancel,
    }
}

/// The first chip from the `i`-th on containing (`col`, `row`).
pub open spec fn chip_at(chips: Seq<(Rect, DetailAction)>, col: u16, row: u16, i: int) -> Option<DetailAction>
    decreases chips.len() - i,
{
    if i < 0 || i >= chips.len() {
        None
    } else if rect_contains(chips[i].0, col, row) {
        Some(chips[i].1)
    } else {
        chip_at(chips, col, row, i + 1)
    }
}

/// The detail popup's signal keys: they arm a kill of the detailed process
/// with their signal; without a popup they do nothing.
pub open spec fn detail_signal_spec(m: UiModel, rows: Seq<u32>, signal: Signal) -> (UiModel, Action) {
    if m.detail_pid is Some {
        arm_spec(UiModel { pending_signal: signal, ..m }, rows)
    } else {
        (m, Action::Nothing)
    }
}

/// What a click does once the detail popup (if any) has had its turn.
pub open spec fn hit_effect(m: UiModel, rows: Seq<u32>, hit: Option<Hit>) -> (UiModel, Action) {
    match hit {
        Some(Hit::Search) => (UiModel { searching: true, focus: Focus::Search, ..m }, Action::Nothing),
        Some(Hit::ProcRow(idx)) => {
            let n = UiModel { searching: false, focus: Focus::Processes, ..m };
            if idx < rows.len() {
                let pid = rows[idx as int];
                (UiModel { selected_pid: Some(pid), selected: idx, detail_pid: Some(pid), ..n }, Action::Nothing)
            } else {
                (n, Action::Nothing)
            }
        },
        Some(Hit::Panel(p)) => (UiModel { focus: panel_focus(p), ..m }, Action::Nothing),
        Some(Hit::Expand(p)) => (expand_spec(UiModel { focus: panel_focus(p), ..m }, p), Action::Nothing),
        Some(Hit::ExpandClose) => (UiModel { expanded: None, ..m }, Action::Nothing),
        Some(Hit::Split) => (UiModel { dragging_split: true, ..m }, Action::Nothing),
        Some(Hit::Help) => (UiModel { help: !m.help, ..m }, Action::Nothing),
        Some(Hit::Settings) => (UiModel { settings: !m.settings, ..m }, Action::Nothing),
        Some(Hit::Kill) => if can_kill_spec(m) { arm_spec(m, rows) } else { (m, Action::Nothing) },
        _ => (m, Action::Nothing),
    }
}

/// What a click at (`col`, `row`) hits on the frame last drawn; nothing
/// before the first frame.
pub open spec fn drawn_hit(m: UiModel, col: u16, row: u16) -> Option<Hit> {
    match m.last_plan {
        Some(p) => hit_plan_spec(p, col, row),
        None => None,
    }
}

/// A click at (`col`, `row`) on the frame last drawn: with the detail popup
/// open over the process table, a chip acts and a click inside the popup
/// stays there, while a click outside closes it and then acts on what it
/// lands on.
pub open spec fn click_spec(m: UiModel, rows: Seq<u32>, col: u16, row: u16) -> (UiModel, Action) {
    let area = match m.last_plan {
        Some(p) => p.processes,
        None => None,
    };
    if m.detail_pid is Some && area is Some {
        let proc_area = area->0;
        match chip_at(detail_actions_spec(proc_area), col, row, 0) {
            Some(DetailAction::Term) => detail_signal_spec(m, rows, Signal::Term),
            Some(DetailAction::Kill) => detail_signal_spec(m, rows, Signal::Kill),
            Some(DetailAction::Interrupt) => detail_signal_spec(m, rows, Signal::Int),
            Some(DetailAction::Close) => cancel_spec(m),
            None => if rect_contains(detail_rect_spec(proc_area), col, row) {
                (m, Action::Nothing)
            } else {
                hit_effect(UiModel { detail_pid: None, ..m }, rows, drawn_hit(m, col, row))
            },
        }
    } else {
        hit_effect(m, rows, drawn_hit(m, col, row))
    }
}

/// The wheel and arrow keys: ignored while a box other than the process
/// table is expanded; move the selection when the process table has the
/// focus or is expanded (ending the search); otherwise move the focus.
pub open spec fn move_event_spec(m: UiModel, rows: Seq<u32>, hw: Hardware, delta: i32) -> UiModel {
    if m.expanded is Some && m.expanded != Some(Panel::Processes) {
        m
    } else if focus_panel(m.focus) == Panel::Processes || m.expanded == Some(Panel::Processes) {
        move_spec(UiModel { searching: false, focus: Focus::Processes, ..m }, rows, delta)
    } else {
        cycle_spec(m, hw, if delta > 0 { 1i32 } else if delta < 0 { -1i32 } else { 0i32 })
    }
}

/// Inputs with no overlay open.
pub open spec fn normal_spec(m: UiModel, rows: Seq<u32>, hw: Hardware, e: Event) -> (UiModel, Action) {
    match e {
        Event::Settings => (UiModel { settings: true, ..m }, Action::Nothing),
        Event::Glance => (lock_spec(UiModel { expanded: None, ..m }, Surface::Glance), Action::Nothing),
        Event::Work => (lock_spec(m, Surface::Work), Action::Nothing),
        Event::Expand => if focus_panel(m.focus) == Panel::Processes && m.expanded != Some(Panel::Processes) {
            match selected_pid_spec(m, rows) {
                Some(pid) => (UiModel { detail_pid: Some(pid), selected_pid: Some(pid), ..m }, Action::Nothing),
                None => (m, Action::Nothing),
            }
        } else if m.expanded is Some {
            (m, Action::Nothing)
        } else {
            (expand_spec(m, focus_panel(m.focus)), Action::Nothing)
        },
        Event::NextPanel => (cycle_spec(m, hw, 1i32), Action::Nothing),
        Event::PrevPanel => (cycle_spec(m, hw, -1i32), Action::Nothing),
        Event::Search => (
            UiModel { searching: !m.searching, focus: if !m.searching { Focus::Search } else { Focus::Processes }, ..m },
            Action::Nothing,
        ),
        Event::FilterChar(c) => (UiModel { searching: true, focus: Focus::Search, filter: m.filter.push(c), ..m }, Action::Resync),
        Event::FilterBackspace => (
            UiModel { filter: if m.filter.len() > 0 { m.filter.drop_last() } else { m.filter }, ..m },
            Action::Resync,
        ),
        Event::Move(delta) => (move_event_spec(m, rows, hw, delta), Action::Nothing),
        Event::Kill => if can_kill_spec(m) { arm_spec(UiModel { pending_signal: Signal::Term, ..m }, rows) } else { (m, Action::Nothing) },
        Event::DetailTerm => detail_signal_spec(m, rows, Signal::Term),
        Event::DetailKill => detail_signal_spec(m, rows, Signal::Kill),
        Event::DetailInterrupt => detail_signal_spec(m, rows, Signal::Int),
        Event::Freeze => (UiModel { frozen: !m.frozen, ..m }, Action::Paused(!m.frozen)),
        Event::Click { col, row } => click_spec(m, rows, col, row),
        Event::Drag { col, row } => (drag_spec(m, col), Action::Nothing),
        Event::MouseUp => (UiModel { dragging_split: false, ..m }, Action::Nothing),
        _ => match setting_spec(m, e) {
            Some(r) => r,
            None => (m, Action::Nothing),
        },
    }
}

/// What an input does: a tick asks for a sample; help toggles (closing
/// settings); Esc cancels; while help is open nothing else acts; then the
/// kill prompt, the settings overlay, or the normal bindings take it.
pub open spec fn handle_spec(m: UiModel, rows: Seq<u32>, hw: Hardware, e: Event) -> (UiModel, Action) {
    match e {
        Event::Tick => (m, Action::Tick),
        Event::Resize | Event::Quit => (m, Action::Nothing),
        Event::Help => (UiModel { help: !m.help, settings: false, ..m }, Action::Nothing),
        Event::FilterCancel => cancel_spec(m),
        _ => if m.help {
            (m, Action::Nothing)
        } else if m.confirm_kill {
            confirm_spec(m, e)
        } else if m.settings {
            settings_event_spec(m, e)
        } else {
            normal_spec(m, rows, hw, e)
        },
    }
}

/// The inputs `handle` can take in a state: moves must stay within signed
/// 32-bit arithmetic.
pub open spec fn handle_ok(m: UiModel, rows: Seq<u32>, hw: Hardware, e: Event) -> bool {
    e matches Event::Move(d) ==> move_fits(UiModel { searching: false, focus: Focus::Processes, ..m }, rows, d)
}

impl UiState {
    /// The state a session starts in, with the loaded preferences.
    pub fn new(config: Config) -> (s: UiState)
        ensures
            s@.config == config,
            s@.surface == Surface::Work,
            s@.focus == Focus::Processes,
            s@.expanded is None,
            s@.selected == 0 && s@.selected_pid is None && s@.filter.len() == 0,
            !s@.help && !s@.settings && !s@.confirm_kill && s@.confirm_pid is None && s@.detail_pid is None,
            !s@.searching && !s@.frozen && !s@.show_tree && !s@.dirty_prefs && !s@.dragging_split,
            s@.pending_signal == Signal::Term,
            s@.last_area == (Rect { x: 0, y: 0, width: 80, height: 24 }),
            s@.last_plan is None,
            s@.proc_ratio == config.proc_ratio,
    {
        UiState {
            config,
            surface: Surface::Work,
            focus: Focus::Processes,
            expanded: None,
            proc: ProcView::default(),
            help: false,
            settings: false,
            confirm_kill: false,
            confirm_pid: None,
            detail_pid: None,
            searching: false,
            frozen: false,
            show_tree: false,
            dirty_prefs: false,
            pending_signal: Signal::Term,
            last_area: Rect { x: 0, y: 0, width: 80, height: 24 },
            last_plan: None,
            proc_ratio: config.proc_ratio,
            dragging_split: false,
        }
    }

    /// Whether `handle` can take `e` in this state: a move must stay within
    /// 32-bit row numbers.
    pub fn accepts(&self, e: Event, rows: &Vec<u32>, hw: Hardware) -> (r: bool)
        ensures
            r == handle_ok(self@, rows@, hw, e),
    {
        match e {
            Event::Move(d) => {
                if rows.len() > 0x8000_0000 {
                    return false;
                }
                let last: usize = if rows.len() > 0 { rows.len() - 1 } else { 0 };
                let fallback: usize = if self.proc.selected < last { self.proc.selected } else { last };
                let start: usize = match self.proc.selected_pid {
                    Some(p) => match find_pid(rows, p) {
                        Some(i) => i,
                        None => fallback,
                    },
                    None => fallback,
                };
                let base: i64 = if start <= 0x7fff_ffff { start as i64 } else { 0 };
                let t: i64 = base + d as i64;
                -0x8000_0000 <= t && t <= 0x7fff_ffff
            },
            _ => true,
        }
    }

    /// The surface in use.
    pub fn effective_surface(&self) -> (s: Surface)
        ensures
            s == surface_of(self@),
    {
        match self.config.surface {
            Some(s) => s,
            None => self.surface,
        }
    }

    /// The layout flags for the current settings and `hw`.
    pub fn layout_flags(&self, hw: Hardware) -> (f: LayoutFlags)
        ensures
            f == flags_of(self@, hw),
    {
        LayoutFlags {
            show_gpu: self.config.show_gpu,
            show_net: self.config.show_net,
            show_disk: self.config.show_disk,
            show_fans: self.config.show_fans,
            has_gpu: hw.has_gpu,
            has_fans: hw.has_fans,
            has_disk: hw.has_disk,
            expanded: self.expanded,
            proc_ratio: self.proc_ratio,
        }
    }

    /// The state after the screen became `area`: without a locked surface
    /// the automatic one follows the size.
    pub fn on_resize(self, area: Rect) -> (r: UiState)
        ensures
            r@ == (UiModel {
                last_area: area,
                surface: if self@.config.surface is None {
                    crate::surface::auto_surface_spec(area.width, area.height)
                } else {
                    self@.surface
                },
                ..self@
            }),
    {
        let mut s = self;
        let surface = if s.config.surface.is_none() { auto_surface(area.width, area.height) } else { s.surface };
        s.last_area = area;
        s.surface = surface;
        s
    }

    /// The state after a frame laid out as `planned` was drawn: clicks
    /// from now on land on it.
    pub fn drawn(self, planned: LayoutPlan) -> (r: UiState)
        ensures
            r@ == (UiModel { last_plan: Some(planned), ..self@ }),
    {
        let mut s = self;
        s.last_plan = Some(planned);
        s
    }

    /// The selected pid, given the listed pids in order.
    pub fn selected_pid(&self, rows: &Vec<u32>) -> (r: Option<u32>)
        ensures
            r == selected_pid_spec(self@, rows@),
    {
        match self.proc.selected_pid {
            Some(p) => Some(p),
            None => if self.proc.selected < rows.len() {
                Some(rows[self.proc.selected])
            } else {
                None
            },
        }
    }

    /// The state with the selection resynchronised to the listed pids.
    #[verifier::rlimit(40)]
    pub fn sync_selection(self, rows: &Vec<u32>) -> (r: UiState)
        ensures
            r@ == sync_spec(self@, rows@),
    {
        let mut s = self;
        if rows.len() == 0 {
            s.proc.selected = 0;
            return s;
        }
        if let Some(pid) = s.proc.selected_pid {
            if let Some(i) = find_pid(rows, pid) {
                s.proc.selected = i;
                return s;
            }
        }
        let last = rows.len() - 1;
        let i = if s.proc.selected < last { s.proc.selected } else { last };
        s.proc.selected = i;
        s.proc.selected_pid = Some(rows[i]);
        s
    }

    /// The state after a new sample: the selection is resynchronised, and
    /// the detail popup closes if its process is gone from `alive`.
    pub fn on_snapshot(self, rows: &Vec<u32>, alive: &Vec<u32>) -> (r: UiState)
        ensures
            r@ == ({
                let m = sync_spec(self@, rows@);
                match m.detail_pid {
                    Some(pid) => if first_pos(alive@, pid, 0) is Some { m } else { UiModel { detail_pid: None, ..m } },
                    None => m,
                }
            }),
    {
        let mut s = self.sync_selection(rows);
        let keep = match s.detail_pid {
            Some(pid) => find_pid(alive, pid).is_some(),
            None => true,
        };
        let detail = if keep { s.detail_pid } else { None };
        s.detail_pid = detail;
        s
    }

    fn move_sel(self, rows: &Vec<u32>, delta: i32) -> (r: UiState)
        requires
            move_fits(self@, rows@, delta),
        ensures
            r@ == move_spec(self@, rows@, delta),
    {
        let mut s = self;
        if rows.len() == 0 {
            s.proc.selected = 0;
            s.proc.selected_pid = None;
            return s;
        }
        let last = rows.len() - 1;
        let cur = match s.proc.selected_pid {
            Some(p) => match find_pid(rows, p) {
                Some(i) => i,
                None => if s.proc.selected < last { s.proc.selected } else { last },
            },
            None => if s.proc.selected < last { s.proc.selected } else { last },
        };
        let base: i32 = if cur <= 0x7fff_ffff { cur as i32 } else { 0 };
        let t = base + delta;
        let next: usize = if t < 0 { 0 } else if t as usize > last { last } else { t as usize };
        let pid = rows[next];
        let detail = if s.detail_pid.is_some() { Some(pid) } else { None };
        s.proc.selected = next;
        s.proc.selected_pid = Some(pid);
        s.detail_pid = detail;
        s
    }

    fn cycle_focus(self, hw: Hardware, dir: i32) -> (r: UiState)
        ensures
            r@ == cycle_spec(self@, hw, dir),
    {
        let mut s = self;
        let panels = s.layout_flags(hw).visible_panels();
        assert(panels@ == focus_ring(s@, hw));
        if panels.len() == 0 {
            return s;
        }
        let current = s.focus.panel();
        let mut i: usize = 0;
        while i < panels.len() && panels[i] != current
            invariant
                i <= panels@.len(),
                panel_pos(panels@, current, i as int) == panel_pos(panels@, current, 0),
            decreases panels@.len() - i,
        {
            i = i + 1;
        }
        let n = panels.len();
        let next: usize = if i < n {
            if dir < 0 {
                if i == 0 { n - 1 } else { i - 1 }
            } else {
                (i + 1) % n
            }
        } else if dir < 0 {
            n - 1
        } else {
            0
        };
        s.focus = Focus::from_panel(panels[next]);
        s
    }

    fn arm_kill(self, rows: &Vec<u32>) -> (r: (UiState, Action))
        ensures
            (r.0@, r.1) == arm_spec(self@, rows@),
    {
        let mut s = self;
        let target = if s.detail_pid.is_some() { s.detail_pid } else { s.selected_pid(rows) };
        s.confirm_pid = target;
        s.confirm_kill = target.is_some();
        let a = if s.confirm_kill { Action::Nothing } else { Action::NoSelection };
        (s, a)
    }

    fn cancel_overlay(self) -> (r: (UiState, Action))
        ensures
            (r.0@, r.1) == cancel_spec(self@),
    {
        let mut s = self;
        if s.help {
            s.help = false;
            (s, Action::Nothing)
        } else if s.settings {
            s.settings = false;
            (s, Action::Nothing)
        } else if s.confirm_kill {
            s.confirm_pid = None;
            s.confirm_kill = false;
            (s, Action::Nothing)
        } else if s.detail_pid.is_some() {
            s.detail_pid = None;
            (s, Action::Nothing)
        } else if s.expanded.is_some() {
            s.expanded = None;
            (s, Action::Nothing)
        } else if s.searching || s.proc.filter.unicode_len() > 0 {
            s.searching = false;
            s.proc.filter = String::new();
            s.focus = Focus::Processes;
            (s, Action::Resync)
        } else {
            (s, Action::Nothing)
        }
    }

    fn apply_setting(self, e: Event) -> (r: (UiState, Option<Action>))
        ensures
            match setting_spec(self@, e) {
                Some((m, a)) => r.0@ == m && r.1 == Some(a),
                None => r.0@ == self@ && r.1 is None,
            },
    {
        let mut s = self;
        if let Event::ToggleTree = e {
            s.show_tree = !s.show_tree;
            s.dirty_prefs = true;
            return (s, Some(Action::Nothing));
        }
        match toggled(s.config, e) {
            Some(c) => {
                s.config = c;
                s.dirty_prefs = true;
                let a = if let Event::CycleInterval = e { Action::Interval(c.interval) } else { Action::Nothing };
                (s, Some(a))
            },
            None => (s, None),
        }
    }

    fn lock_surface(self, surface: Surface) -> (r: UiState)
        ensures
            r@ == lock_spec(self@, surface),
    {
        let mut s = self;
        let same = same_surface(s.config.surface, surface);
        s.config.surface = Some(surface);
        s.surface = surface;
        s.dirty_prefs = s.dirty_prefs || !same;
        s
    }

    fn expand_panel(self, panel: Panel) -> (r: UiState)
        ensures
            r@ == expand_spec(self@, panel),
    {
        let mut s = self;
        let searching = if panel != Panel::Processes { false } else { s.searching };
        s.expanded = Some(panel);
        s.searching = searching;
        s
    }

    fn drag_split(self, col: u16) -> (r: UiState)
        ensures
            r@ == drag_spec(self@, col),
    {
        let mut s = self;
        if !s.dragging_split || s.last_area.width < 40 {
            return s;
        }
        let width = s.last_area.width;
        let proc_w = width.saturating_sub(col.saturating_add(1));
        let ratio = ((proc_w as u32) * 100 / (width as u32)) as u16;
        s.proc_ratio = if ratio < PROC_RATIO_MIN {
            PROC_RATIO_MIN
        } else if ratio > PROC_RATIO_MAX {
            PROC_RATIO_MAX
        } else {
            ratio
        };
        s.dirty_prefs = true;
        s
    }

    fn detail_signal(self, rows: &Vec<u32>, signal: Signal) -> (r: (UiState, Action))
        ensures
            (r.0@, r.1) == detail_signal_spec(self@, rows@, signal),
    {
        let mut s = self;
        if s.detail_pid.is_some() {
            s.pending_signal = signal;
            s.arm_kill(rows)
        } else {
            (s, Action::Nothing)
        }
    }

    #[verifier::rlimit(40)]
    fn hit_effect(self, rows: &Vec<u32>, hit: Option<Hit>) -> (r: (UiState, Action))
        ensures
            (r.0@, r.1) == hit_effect(self@, rows@, hit),
    {
        let mut s = self;
        match hit {
            Some(Hit::Search) => {
                s.searching = true;
                s.focus = Focus::Search;
                (s, Action::Nothing)
            },
            Some(Hit::ProcRow(idx)) => {
                s.searching = false;
                s.focus = Focus::Processes;
                if idx < rows.len() {
                    let pid = rows[idx];
                    s.proc.selected_pid = Some(pid);
                    s.proc.selected = idx;
                    s.detail_pid = Some(pid);
                    (s, Action::Nothing)
                } else {
                    (s, Action::Nothing)
                }
            },
            Some(Hit::Panel(p)) => {
                s.focus = Focus::from_panel(p);
                (s, Action::Nothing)
            },
            Some(Hit::Expand(p)) => {
                s.focus = Focus::from_panel(p);
                (s.expand_panel(p), Action::Nothing)
            },
            Some(Hit::ExpandClose) => {
                s.expanded = None;
                (s, Action::Nothing)
            },
            Some(Hit::Split) => {
                s.dragging_split = true;
                (s, Action::Nothing)
            },
            Some(Hit::Help) => {
                s.help = !s.help;
                (s, Action::Nothing)
            },
            Some(Hit::Settings) => {
                s.settings = !s.settings;
                (s, Action::Nothing)
            },
            Some(Hit::Kill) => {
                let can = match s.expanded {
                    None => true,
                    Some(Panel::Processes) => true,
                    Some(_) => false,
                };
                if can {
                    s.arm_kill(rows)
                } else {
                    (s, Action::Nothing)
                }
            },
            _ => (s, Action::Nothing),
        }
    }

    #[verifier::rlimit(60)]
    fn on_click(self, rows: &Vec<u32>, col: u16, row: u16) -> (r: (UiState, Action))
        ensures
            (r.0@, r.1) == click_spec(self@, rows@, col, row),
    {
        let mut s = self;
        let proc_area = match s.last_plan {
            Some(p) => p.processes,
            None => None,
        };
        if s.detail_pid.is_some() {
            if let Some(proc_area) = proc_area {
                let chips = detail_actions(proc_area);
                let mut i: usize = 0;
                while i < chips.len() && !contains(chips[i].0, col, row)
                    invariant
                        i <= chips@.len(),
                        chip_at(chips@, col, row, i as int) == chip_at(chips@, col, row, 0),
                    decreases chips@.len() - i,
                {
                    i = i + 1;
                }
                if i < chips.len() {
                    return match chips[i].1 {
                        DetailAction::Term => s.detail_signal(rows, Signal::Term),
                        DetailAction::Kill => s.detail_signal(rows, Signal::Kill),
                        DetailAction::Interrupt => s.detail_signal(rows, Signal::Int),
                        DetailAction::Close => s.cancel_overlay(),
                    };
                }
                if contains(detail_rect(proc_area), col, row) {
                    return (s, Action::Nothing);
                }
                s.detail_pid = None;
                let hit = s.hit_drawn(col, row);
                return s.hit_effect(rows, hit);
            }
        }
        let hit = s.hit_drawn(col, row);
        s.hit_effect(rows, hit)
    }

    fn hit_drawn(&self, col: u16, row: u16) -> (r: Option<Hit>)
        ensures
            r == drawn_hit(self@, col, row),
    {
        match &self.last_plan {
            Some(p) => hit_test_plan(p, col, row),
            None => None,
        }
    }

    fn handle_move(self, rows: &Vec<u32>, hw: Hardware, delta: i32) -> (r: UiState)
        requires
            move_fits(UiModel { searching: false, focus: Focus::Processes, ..self@ }, rows@, delta),
        ensures
            r@ == move_event_spec(self@, rows@, hw, delta),
    {
        let mut s = self;
        let other_expanded = match s.expanded {
            Some(Panel::Processes) => false,
            Some(_) => true,
            None => false,
        };
        if other_expanded {
            return s;
        }
        let proc_expanded = match s.expanded {
            Some(Panel::Processes) => true,
            _ => false,
        };
        if s.focus.panel() == Panel::Processes || proc_expanded {
            s.searching = false;
            s.focus = Focus::Processes;
            s.move_sel(rows, delta)
        } else {
            let dir: i32 = if delta > 0 { 1 } else if delta < 0 { -1 } else { 0 };
            s.cycle_focus(hw, dir)
        }
    }

    #[verifier::rlimit(100)]
    fn handle_normal(self, rows: &Vec<u32>, hw: Hardware, e: Event) -> (r: (UiState, Action))
        requires
            handle_ok(self@, rows@, hw, e),
        ensures
            (r.0@, r.1) == normal_spec(self@, rows@, hw, e),
    {
        let mut s = self;
        match e {
            Event::Settings => {
                s.settings = true;
                (s, Action::Nothing)
            },
            Event::Glance => {
                s.expanded = None;
                (s.lock_surface(Surface::Glance), Action::Nothing)
            },
            Event::Work => (s.lock_surface(Surface::Work), Action::Nothing),
            Event::Expand => {
                let proc_expanded = match s.expanded {
                    Some(Panel::Processes) => true,
                    _ => false,
                };
                if s.focus.panel() == Panel::Processes && !proc_expanded {
                    match s.selected_pid(rows) {
                        Some(pid) => {
                            s.detail_pid = Some(pid);
                            s.proc.selected_pid = Some(pid);
                            (s, Action::Nothing)
                        },
                        None => (s, Action::Nothing),
                    }
                } else if s.expanded.is_none() {
                    let p = s.focus.panel();
                    (s.expand_panel(p), Action::Nothing)
                } else {
                    (s, Action::Nothing)
                }
            },
            Event::NextPanel => (s.cycle_focus(hw, 1), Action::Nothing),
            Event::PrevPanel => (s.cycle_focus(hw, -1), Action::Nothing),
            Event::Search => {
                s.searching = !s.searching;
                s.focus = if s.searching { Focus::Search } else { Focus::Processes };
                (s, Action::Nothing)
            },
            Event::FilterChar(c) => {
                s.searching = true;
                s.focus = Focus::Search;
                push_char(&mut s.proc.filter, c);
                (s, Action::Resync)
            },
            Event::FilterBackspace => {
                let _ = pop_char(&mut s.proc.filter);
                (s, Action::Resync)
            },
            Event::Move(delta) => (s.handle_move(rows, hw, delta), Action::Nothing),
            Event::Kill => {
                let can = match s.expanded {
                    None => true,
                    Some(Panel::Processes) => true,
                    Some(_) => false,
                };
                if can {
                    s.pending_signal = Signal::Term;
                    s.arm_kill(rows)
                } else {
                    (s, Action::Nothing)
                }
            },
            Event::DetailTerm => s.detail_signal(rows, Signal::Term),
            Event::DetailKill => s.detail_signal(rows, Signal::Kill),
            Event::DetailInterrupt => s.detail_signal(rows, Signal::Int),
            Event::Freeze => {
                s.frozen = !s.frozen;
                let paused = s.frozen;
                (s, Action::Paused(paused))
            },
            Event::Click { col, row } => s.on_click(rows, col, row),
            Event::Drag { col, row } => (s.drag_split(col), Action::Nothing),
            Event::MouseUp => {
                s.dragging_split = false;
                (s, Action::Nothing)
            },
            _ => {
                let (s2, a) = s.apply_setting(e);
                match a {
                    Some(a) => (s2, a),
                    None => (s2, Action::Nothing),
                }
            },
        }
    }

    /// The next state after one input, given the listed pids in order and
    /// the hardware, and what the surrounding program must do next.
    pub fn handle(self, e: Event, rows: &Vec<u32>, hw: Hardware) -> (r: (UiState, Action))
        requires
            handle_ok(self@, rows@, hw, e),
        ensures
            (r.0@, r.1) == handle_spec(self@, rows@, hw, e),
    {
        let mut s = self;
        match e {
            Event::Tick => (s, Action::Tick),
            Event::Resize | Event::Quit => (s, Action::Nothing),
            Event::Help => {
                s.help = !s.help;
                s.settings = false;
                (s, Action::Nothing)
            },
            Event::FilterCancel => s.cancel_overlay(),
            _ => {
                if s.help {
                    (s, Action::Nothing)
                } else if s.confirm_kill {
                    match e {
                        Event::ConfirmYes => {
                            let target = s.confirm_pid;
                            s.confirm_pid = None;
                            s.confirm_kill = false;
                            let signal = s.pending_signal;
                            match target {
                                Some(pid) => (s, Action::Signal { pid, signal }),
                                None => (s, Action::Nothing),
                            }
                        },
                        Event::ConfirmNo | Event::Kill => {
                            s.confirm_pid = None;
                            s.confirm_kill = false;
                            (s, Action::Nothing)
                        },
                        _ => (s, Action::Nothing),
                    }
                } else if s.settings {
                    if let Event::Settings = e {
                        s.settings = false;
                        (s, Action::Nothing)
                    } else {
                        let (s2, a) = s.apply_setting(e);
                        match a {
                            Some(a) => (s2, a),
                            None => (s2, Action::Nothing),
                        }
                    }
                } else {
                    s.handle_normal(rows, hw, e)
                }
            },
        }
    }
}

/// The settings after a settings key, if `e` is one.
fn toggled(c: Config, e: Event) -> (r: Option<Config>)
    ensures
        r == toggled_config(c, e),
{
    match e {
        Event::CycleInterval => Some(c.with_interval(c.cycle_interval())),
        Event::ToggleGpu => Some(Config { show_gpu: !c.show_gpu, ..c }),
        Event::ToggleNet => Some(Config { show_net: !c.show_net, ..c }),
        Event::ToggleCores => Some(Config { show_cores: !c.show_cores, ..c }),
        Event::ToggleDisk => Some(Config { show_disk: !c.show_disk, ..c }),
        Event::ToggleFans => Some(Config { show_fans: !c.show_fans, ..c }),
        Event::ToggleThreads => Some(Config { show_threads: !c.show_threads, ..c }),
        Event::CycleSort => Some(Config { proc_sort: c.proc_sort.next(), ..c }),
        _ => None,
    }
}

/// Whether the locked surface is already `surface`.
fn same_surface(c: Option<Surface>, surface: Surface) -> (r: bool)
    ensures
        r == (c == Some(surface)),
{
    match c {
        Some(Surface::Work) => surface == Surface::Work,
        Some(Surface::Glance) => surface == Surface::Glance,
        None => false,
    }
}

/// Position of the first `pid` in `rows`.
fn find_pid(rows: &Vec<u32>, pid: u32) -> (r: Option<usize>)
    ensures
        match r {
            Some(i) => first_pos(rows@, pid, 0) == Some(i as int),
            None => first_pos(rows@, pid, 0) is None,
        },
{
    let mut i: usize = 0;
    while i < rows.len()
        invariant
            i <= rows@.len(),
            first_pos(rows@, pid, i as int) == first_pos(rows@, pid, 0),
        decreases rows@.len() - i,
    {
        if rows[i] == pid {
            return Some(i);
        }
        i = i + 1;
    }
    None
}

/// The wheel and the arrow keys never switch the expanded box: whatever
/// else a move does, what is expanded stays expanded.
pub proof fn law_moves_keep_the_expanded_box(m: UiModel, rows: Seq<u32>, hw: Hardware, delta: i32)
    ensures
        handle_spec(m, rows, hw, Event::Move(delta)).0.expanded == m.expanded,
{
}

/// A kill from the detail popup targets the detailed process (not the
/// selected row) with the chosen signal, and waits for confirmation.
pub proof fn law_detail_kill_targets_the_detailed_pid(m: UiModel, rows: Seq<u32>, hw: Hardware, pid: u32)
    requires
        !m.help,
        !m.confirm_kill,
        !m.settings,
        m.detail_pid == Some(pid),
    ensures
        handle_spec(m, rows, hw, Event::DetailKill).0.confirm_kill,
        handle_spec(m, rows, hw, Event::DetailKill).0.confirm_pid == Some(pid),
        handle_spec(m, rows, hw, Event::DetailKill).0.pending_signal == Signal::Kill,
        handle_spec(m, rows, hw, Event::DetailTerm).0.confirm_pid == Some(pid),
        handle_spec(m, rows, hw, Event::DetailInterrupt).0.confirm_pid == Some(pid),
{
}

/// Answering the kill prompt always disarms it; yes sends the armed
/// signal to the armed pid and nothing else does.
pub proof fn law_answers_disarm_the_prompt(m: UiModel, rows: Seq<u32>, hw: Hardware, e: Event)
    requires
        m.confirm_kill,
        !m.help,
        e == Event::ConfirmYes || e == Event::ConfirmNo,
    ensures
        !handle_spec(m, rows, hw, e).0.confirm_kill,
        handle_spec(m, rows, hw, e).0.confirm_pid is None,
        handle_spec(m, rows, hw, e).1 matches Action::Signal { pid, signal } ==> e == Event::ConfirmYes
            && m.confirm_pid == Some(pid) && signal == m.pending_signal,
        e == Event::ConfirmYes && m.confirm_pid is Some ==> handle_spec(m, rows, hw, e).1 == (Action::Signal {
            pid: m.confirm_pid->0,
            signal: m.pending_signal,
        }),
{
}

/// No signal is ever sent without the prompt having been armed: from a
/// state with no prompt, no input sends one.
#[verifier::rlimit(40)]
pub proof fn law_no_signal_without_confirmation(m: UiModel, rows: Seq<u32>, hw: Hardware, e: Event)
    requires
        !m.confirm_kill,
    ensures
        !(handle_spec(m, rows, hw, e).1 is Signal),
{
}

/// Freezing is undone by freezing again: outside help, the kill prompt
/// and the settings overlay, two presses leave the interface as it was,
/// pausing the sampler on the first and resuming it on the second when it
/// was running.
pub proof fn law_freeze_twice_restores(m: UiModel, rows: Seq<u32>, hw: Hardware)
    requires
        !m.help,
        !m.confirm_kill,
        !m.settings,
    ensures
        handle_spec(handle_spec(m, rows, hw, Event::Freeze).0, rows, hw, Event::Freeze).0 == m,
        handle_spec(m, rows, hw, Event::Freeze).0.frozen == !m.frozen,
        handle_spec(m, rows, hw, Event::Freeze).1 == Action::Paused(!m.frozen),
        handle_spec(handle_spec(m, rows, hw, Event::Freeze).0, rows, hw, Event::Freeze).1 == Action::Paused(
            m.frozen,
        ),
{
}

/// Esc closes one thing at a time, the innermost first: with help open it
/// only closes help.
pub proof fn law_escape_closes_help_first(m: UiModel, rows: Seq<u32>, hw: Hardware)
    requires
        m.help,
    ensures
        handle_spec(m, rows, hw, Event::FilterCancel) == (UiModel { help: false, ..m }, Action::Nothing),
{
}

/// After the list changes, a selected pid that is still listed keeps the
/// selection: its row becomes the selected row.
pub proof fn law_selection_follows_its_pid(m: UiModel, rows: Seq<u32>, pid: u32)
    requires
        m.selected_pid == Some(pid),
        first_pos(rows, pid, 0) is Some,
        rows.len() <= usize::MAX,
    ensures
        sync_spec(m, rows).selected_pid == Some(pid),
        rows[sync_spec(m, rows).selected as int] == pid,
{
    lemma_first_pos(rows, pid, 0);
}

proof fn lemma_first_pos(rows: Seq<u32>, pid: u32, i: int)
    requires
        0 <= i,
    ensures
        first_pos(rows, pid, i) matches Some(k) ==> i <= k < rows.len() && rows[k] == pid,
    decreases rows.len() - i,
{
    if i < rows.len() && rows[i] != pid {
        lemma_first_pos(rows, pid, i + 1);
    }
}

/// Dragging the split keeps the process column within its allowed width.
pub proof fn law_split_stays_in_range(m: UiModel, rows: Seq<u32>, hw: Hardware, col: u16, row: u16)
    requires
        !m.help,
        !m.confirm_kill,
        !m.settings,
        m.dragging_split,
        m.last_area.width >= 40,
    ensures
        PROC_RATIO_MIN <= handle_spec(m, rows, hw, Event::Drag { col, row }).0.proc_ratio <= PROC_RATIO_MAX,
{
}

/// Tab and shift-Tab only ever focus a box that is on screen.
pub proof fn law_tab_focuses_a_visible_box(m: UiModel, rows: Seq<u32>, hw: Hardware, e: Event)
    requires
        !m.help,
        !m.confirm_kill,
        !m.settings,
        e == Event::NextPanel || e == Event::PrevPanel,
        focus_ring(m, hw).len() > 0,
    ensures
        visible_spec(flags_of(m, hw), focus_panel(handle_spec(m, rows, hw, e).0.focus)),
{
    let ring = focus_ring(m, hw);
    let pred = |p: Panel| visible_spec(flags_of(m, hw), p);
    let cur = focus_panel(m.focus);
    lemma_panel_pos(ring, cur, 0);
    let dir: i32 = if e == Event::NextPanel { 1i32 } else { -1i32 };
    let next: int = if panel_pos(ring, cur, 0) is Some {
        let i = panel_pos(ring, cur, 0)->0;
        if dir < 0 {
            if i == 0 { ring.len() - 1 } else { i - 1 }
        } else {
            (i + 1) % (ring.len() as int)
        }
    } else if dir < 0 {
        ring.len() - 1
    } else {
        0
    };
    assert(0 <= next < ring.len());
    all_panels().lemma_filter_pred(pred, next);
}

proof fn lemma_panel_pos(ring: Seq<Panel>, p: Panel, i: int)
    requires
        0 <= i,
    ensures
        panel_pos(ring, p, i) matches Some(k) ==> i <= k < ring.len() && ring[k] == p,
    decreases ring.len() - i,
{
    if i < ring.len() && ring[i] != p {
        lemma_panel_pos(ring, p, i + 1);
    }
}

/// With the detail popup open, moving the selection moves the popup with
/// it: the detailed pid is the newly selected pid.
pub proof fn law_detail_follows_the_selection(m: UiModel, rows: Seq<u32>, hw: Hardware, delta: i32)
    requires
        !m.help,
        !m.confirm_kill,
        !m.settings,
        m.detail_pid is Some,
        m.expanded is None,
        focus_panel(m.focus) == Panel::Processes,
        rows.len() > 0,
    ensures
        handle_spec(m, rows, hw, Event::Move(delta)).0.detail_pid == handle_spec(
            m,
            rows,
            hw,
            Event::Move(delta),
        ).0.selected_pid,
{
}

/// With no help, prompt or settings overlay open, `w` and `g` lock the
/// surface they name: the saved setting becomes that surface, the screen
/// shows it, the other preferences stay as they were, the preferences are
/// marked for saving when the setting changed, and nothing else is asked of
/// the program; `g` also closes an expanded box. So `g` then `w` ends on
/// Work, and `w` then `g` on Glance.
pub proof fn law_surface_keys_lock_the_surface(m: UiModel, rows: Seq<u32>, hw: Hardware, s: Surface)
    requires
        !m.help,
        !m.confirm_kill,
        !m.settings,
    ensures
        ({
            let e = if s == Surface::Work { Event::Work } else { Event::Glance };
            let r = handle_spec(m, rows, hw, e);
            &&& r.0.config == (Config { surface: Some(s), ..m.config })
            &&& surface_of(r.0) == s
            &&& r.0.dirty_prefs == (m.dirty_prefs || m.config.surface != Some(s))
            &&& r.1 == Action::Nothing
            &&& s == Surface::Glance ==> r.0.expanded is None
        }),
        surface_of(handle_spec(handle_spec(m, rows, hw, Event::Glance).0, rows, hw, Event::Work).0) == Surface::Work,
        handle_spec(handle_spec(m, rows, hw, Event::Glance).0, rows, hw, Event::Work).0.config.surface == Some(
            Surface::Work,
        ),
        surface_of(handle_spec(handle_spec(m, rows, hw, Event::Work).0, rows, hw, Event::Glance).0) == Surface::Glance,
        handle_spec(handle_spec(m, rows, hw, Event::Work).0, rows, hw, Event::Glance).0.config.surface == Some(
            Surface::Glance,
        ),
{
}

} // verus!
