//! What a key press or a mouse action means in each input mode.
use vstd::prelude::*;

verus! {

/// An input the application acts on.
#[derive(Debug, Clone, Copy, PartialEq, Eq, Structural)]
pub enum Event {
    Quit,
    Tick,
    Resize,
    Help,
    Settings,
    Glance,
    Work,
    Search,
    FilterChar(char),
    FilterBackspace,
    FilterCancel,
    Move(i32),
    Kill,
    ConfirmYes,
    ConfirmNo,
    CycleInterval,
    Freeze,
    ToggleGpu,
    ToggleNet,
    ToggleCores,
    ToggleDisk,
    ToggleFans,
    ToggleThreads,
    ToggleTree,
    CycleSort,
    Expand,
    NextPanel,
    PrevPanel,
    DetailTerm,
    DetailKill,
    DetailInterrupt,
    Click { col: u16, row: u16 },
    Drag { col: u16, row: u16 },
    MouseUp,
}

/// Which overlays currently capture the keyboard.
#[derive(Debug, Clone, Copy, PartialEq, Eq, Structural)]
pub struct Modes {
    pub searching: bool,
    pub settings: bool,
    pub detail: bool,
    pub confirm: bool,
}

/// The keys the application distinguishes.
#[derive(Debug, Clone, Copy, PartialEq, Eq, Structural)]
pub enum KeyCode {
    Char(char),
    Esc,
    Enter,
    Tab,
    BackTab,
    Backspace,
    Delete,
    Up,
    Down,
    Other,
}

/// A key press, with whether Control was held.
#[derive(Debug, Clone, Copy, PartialEq, Eq, Structural)]
pub struct Key {
    pub code: KeyCode,
    pub ctrl: bool,
}

impl Key {
    /// The key `code` pressed without modifiers.
    pub fn plain(code: KeyCode) -> (k: Key)
        ensures
            k == (Key { code, ctrl: false }),
    {
        Key { code, ctrl: false }
    }
}

/// The mouse actions the application distinguishes.
#[derive(Debug, Clone, Copy, PartialEq, Eq, Structural)]
pub enum MouseKind {
    Down,
    Drag,
    Up,
    ScrollDown,
    ScrollUp,
    Other,
}

/// Unicode control characters (general category Cc): U+0000 to U+001F and
/// U+007F to U+009F.
pub open spec fn is_control_spec(c: char) -> bool {
    (c as u32) < 0x20 || (0x7f <= (c as u32) && (c as u32) <= 0x9f)
}

/// Whether `c` is a control character.
pub fn is_control(c: char) -> (r: bool)
    ensures
        r == is_control_spec(c),
{
    let n = c as u32;
    n < 0x20 || (0x7f <= n && n <= 0x9f)
}

/// Keys in the settings overlay.
pub open spec fn settings_key(code: KeyCode) -> Option<Event> {
    match code {
        KeyCode::Char(c) => if c == '1' || c == '[' || c == ']' {
            Some(Event::CycleInterval)
        } else if c == '2' {
            Some(Event::ToggleGpu)
        } else if c == '3' {
            Some(Event::ToggleNet)
        } else if c == '4' {
            Some(Event::ToggleCores)
        } else if c == '5' {
            Some(Event::ToggleDisk)
        } else if c == '6' {
            Some(Event::ToggleFans)
        } else if c == '7' {
            Some(Event::CycleSort)
        } else if c == '8' {
            Some(Event::ToggleThreads)
        } else if c == '9' {
            Some(Event::ToggleTree)
        } else if c == 's' {
            Some(Event::Settings)
        } else {
            None
        },
        _ => None,
    }
}

/// Keys while typing a search filter.
pub open spec fn search_key(code: KeyCode) -> Option<Event> {
    match code {
        KeyCode::Enter => Some(Event::Search),
        KeyCode::Backspace => Some(Event::FilterBackspace),
        KeyCode::Down => Some(Event::Move(1i32)),
        KeyCode::Up => Some(Event::Move(-1i32)),
        KeyCode::Char(c) => if !is_control_spec(c) { Some(Event::FilterChar(c)) } else { None },
        _ => None,
    }
}

/// Keys in the process detail popup.
pub open spec fn detail_key(code: KeyCode) -> Option<Event> {
    match code {
        KeyCode::Char(c) => if c == 't' {
            Some(Event::DetailTerm)
        } else if c == 'k' {
            Some(Event::DetailKill)
        } else if c == 'i' {
            Some(Event::DetailInterrupt)
        } else if c == 'q' {
            Some(Event::Quit)
        } else if c == 'j' {
            Some(Event::Move(1i32))
        } else {
            None
        },
        KeyCode::Down => Some(Event::Move(1i32)),
        KeyCode::Up => Some(Event::Move(-1i32)),
        KeyCode::Enter => Some(Event::FilterCancel),
        _ => None,
    }
}

/// Keys while a kill waits for confirmation.
pub open spec fn confirm_key(code: KeyCode) -> Option<Event> {
    match code {
        KeyCode::Char(c) => if c == 'y' {
            Some(Event::ConfirmYes)
        } else if c == 'n' || c == 'x' {
            Some(Event::ConfirmNo)
        } else if c == 'q' {
            Some(Event::Quit)
        } else {
            None
        },
        _ => None,
    }
}

/// Keys with no overlay open.
pub open spec fn normal_key(code: KeyCode) -> Option<Event> {
    match code {
        KeyCode::Char(c) => if c == 'q' {
            Some(Event::Quit)
        } else if c == 's' {
            Some(Event::Settings)
        } else if c == 'g' {
            Some(Event::Glance)
        } else if c == 'w' {
            Some(Event::Work)
        } else if c == '/' {
            Some(Event::Search)
        } else if c == 'j' {
            Some(Event::Move(1i32))
        } else if c == 'k' {
            Some(Event::Move(-1i32))
        } else if c == 'x' {
            Some(Event::Kill)
        } else if c == 'y' {
            Some(Event::ConfirmYes)
        } else if c == 'n' {
            Some(Event::ConfirmNo)
        } else if c == '[' || c == ']' {
            Some(Event::CycleInterval)
        } else if c == 'f' {
            Some(Event::Freeze)
        } else {
            None
        },
        KeyCode::Down => Some(Event::Move(1i32)),
        KeyCode::Up => Some(Event::Move(-1i32)),
        KeyCode::Delete => Some(Event::Kill),
        KeyCode::Tab => Some(Event::NextPanel),
        KeyCode::BackTab => Some(Event::PrevPanel),
        KeyCode::Enter => Some(Event::Expand),
        KeyCode::Backspace => Some(Event::FilterBackspace),
        _ => None,
    }
}

/// What a key press means: Control-C quits, Esc cancels and `?` opens help
/// whatever is open; otherwise the confirmation prompt, the settings
/// overlay, the search field and the detail popup, in that order, take the
/// key before the normal bindings.
pub open spec fn key_event(key: Key, modes: Modes) -> Option<Event> {
    if key.ctrl && key.code == KeyCode::Char('c') {
        Some(Event::Quit)
    } else if key.code == KeyCode::Esc {
        Some(Event::FilterCancel)
    } else if key.code == KeyCode::Char('?') {
        Some(Event::Help)
    } else if modes.confirm {
        confirm_key(key.code)
    } else if modes.settings {
        settings_key(key.code)
    } else if modes.searching {
        search_key(key.code)
    } else if modes.detail {
        detail_key(key.code)
    } else {
        normal_key(key.code)
    }
}

fn map_settings_key(code: KeyCode) -> (r: Option<Event>)
    ensures
        r == settings_key(code),
{
    match code {
        KeyCode::Char(c) => if c == '1' || c == '[' || c == ']' {
            Some(Event::CycleInterval)
        } else if c == '2' {
            Some(Event::ToggleGpu)
        } else if c == '3' {
            Some(Event::ToggleNet)
        } else if c == '4' {
            Some(Event::ToggleCores)
        } else if c == '5' {
            Some(Event::ToggleDisk)
        } else if c == '6' {
            Some(Event::ToggleFans)
        } else if c == '7' {
            Some(Event::CycleSort)
        } else if c == '8' {
            Some(Event::ToggleThreads)
        } else if c == '9' {
            Some(Event::ToggleTree)
        } else if c == 's' {
            Some(Event::Settings)
        } else {
            None
        },
        _ => None,
    }
}

fn map_search_key(code: KeyCode) -> (r: Option<Event>)
    ensures
        r == search_key(code),
{
    match code {
        KeyCode::Enter => Some(Event::Search),
        KeyCode::Backspace => Some(Event::FilterBackspace),
        KeyCode::Down => Some(Event::Move(1i32)),
        KeyCode::Up => Some(Event::Move(-1i32)),
        KeyCode::Char(c) => if !is_control(c) { Some(Event::FilterChar(c)) } else { None },
        _ => None,
    }
}

fn map_detail_key(code: KeyCode) -> (r: Option<Event>)
    ensures
        r == detail_key(code),
{
    match code {
        KeyCode::Char(c) => if c == 't' {
            Some(Event::DetailTerm)
        } else if c == 'k' {
            Some(Event::DetailKill)
        } else if c == 'i' {
            Some(Event::DetailInterrupt)
        } else if c == 'q' {
            Some(Event::Quit)
        } else if c == 'j' {
            Some(Event::Move(1i32))
        } else {
            None
        },
        KeyCode::Down => Some(Event::Move(1i32)),
        KeyCode::Up => Some(Event::Move(-1i32)),
        KeyCode::Enter => Some(Event::FilterCancel),
        _ => None,
    }
}

fn map_confirm_key(code: KeyCode) -> (r: Option<Event>)
    ensures
        r == confirm_key(code),
{
    match code {
        KeyCode::Char(c) => if c == 'y' {
            Some(Event::ConfirmYes)
        } else if c == 'n' || c == 'x' {
            Some(Event::ConfirmNo)
        } else if c == 'q' {
            Some(Event::Quit)
        } else {
            None
        },
        _ => None,
    }
}

fn map_normal_key(code: KeyCode) -> (r: Option<Event>)
    ensures
        r == normal_key(code),
{
    match code {
        KeyCode::Char(c) => if c == 'q' {
            Some(Event::Quit)
        } else if c == 's' {
            Some(Event::Settings)
        } else if c == 'g' {
            Some(Event::Glance)
        } else if c == 'w' {
            Some(Event::Work)
        } else if c == '/' {
            Some(Event::Search)
        } else if c == 'j' {
            Some(Event::Move(1i32))
        } else if c == 'k' {
            Some(Event::Move(-1i32))
        } else if c == 'x' {
            Some(Event::Kill)
        } else if c == 'y' {
            Some(Event::ConfirmYes)
        } else if c == 'n' {
            Some(Event::ConfirmNo)
        } else if c == '[' || c == ']' {
            Some(Event::CycleInterval)
        } else if c == 'f' {
            Some(Event::Freeze)
        } else {
            None
        },
        KeyCode::Down => Some(Event::Move(1i32)),
        KeyCode::Up => Some(Event::Move(-1i32)),
        KeyCode::Delete => Some(Event::Kill),
        KeyCode::Tab => Some(Event::NextPanel),
        KeyCode::BackTab => Some(Event::PrevPanel),
        KeyCode::Enter => Some(Event::Expand),
        KeyCode::Backspace => Some(Event::FilterBackspace),
        _ => None,
    }
}

/// What a key press means in the given modes.
pub fn map_key_in_mode(key: Key, modes: Modes) -> (r: Option<Event>)
    ensures
        r == key_event(key, modes),
{
    let is_c = match key.code {
        KeyCode::Char(c) => c == 'c',
        _ => false,
    };
    if key.ctrl && is_c {
        return Some(Event::Quit);
    }
    if let KeyCode::Esc = key.code {
        return Some(Event::FilterCancel);
    }
    if let KeyCode::Char('?') = key.code {
        return Some(Event::Help);
    }
    if modes.confirm {
        return map_confirm_key(key.code);
    }
    if modes.settings {
        return map_settings_key(key.code);
    }
    if modes.searching {
        return map_search_key(key.code);
    }
    if modes.detail {
        return map_detail_key(key.code);
    }
    map_normal_key(key.code)
}

/// What a mouse action at (`col`, `row`) means.
pub open spec fn mouse_event(kind: MouseKind, col: u16, row: u16) -> Option<Event> {
    match kind {
        MouseKind::Down => Some(Event::Click { col, row }),
        MouseKind::Drag => Some(Event::Drag { col, row }),
        MouseKind::Up => Some(Event::MouseUp),
        MouseKind::ScrollDown => Some(Event::Move(1i32)),
        MouseKind::ScrollUp => Some(Event::Move(-1i32)),
        MouseKind::Other => None,
    }
}

/// What a mouse action at (`col`, `row`) means: a press clicks, a drag
/// drags, the wheel moves the selection by one.
pub fn map_mouse(kind: MouseKind, col: u16, row: u16) -> (r: Option<Event>)
    ensures
        r == mouse_event(kind, col, row),
{
    match kind {
        MouseKind::Down => Some(Event::Click { col, row }),
        MouseKind::Drag => Some(Event::Drag { col, row }),
        MouseKind::Up => Some(Event::MouseUp),
        MouseKind::ScrollDown => Some(Event::Move(1i32)),
        MouseKind::ScrollUp => Some(Event::Move(-1i32)),
        MouseKind::Other => None,
    }
}

/// `?` opens help and Esc cancels in every mode, and Control-C always quits.
pub proof fn law_escape_help_and_interrupt_work_everywhere(modes: Modes, ctrl: bool)
    ensures
        key_event(Key { code: KeyCode::Char('?'), ctrl }, modes) == Some(Event::Help),
        key_event(Key { code: KeyCode::Esc, ctrl }, modes) == Some(Event::FilterCancel),
        key_event(Key { code: KeyCode::Char('c'), ctrl: true }, modes) == Some(Event::Quit),
{
}

/// While a kill waits for confirmation, a key either answers it, quits,
/// cancels, opens help, or does nothing: no other action gets through,
/// whatever else is open.
pub proof fn law_confirmation_takes_only_answers(key: Key, modes: Modes)
    requires
        modes.confirm,
    ensures
        key_event(key, modes) is None || key_event(key, modes) == Some(Event::ConfirmYes)
            || key_event(key, modes) == Some(Event::ConfirmNo) || key_event(key, modes) == Some(
            Event::Quit,
        ) || key_event(key, modes) == Some(Event::FilterCancel) || key_event(key, modes) == Some(
            Event::Help,
        ),
{
}

/// While searching (with no prompt or settings open), every printable
/// character other than `?` is typed into the filter, letters that are
/// commands elsewhere included.
pub proof fn law_search_types_printable_characters(c: char, modes: Modes)
    requires
        modes.searching,
        !modes.confirm,
        !modes.settings,
        !is_control_spec(c),
        c != '?',
    ensures
        key_event(Key { code: KeyCode::Char(c), ctrl: false }, modes) == Some(Event::FilterChar(c)),
{
}

/// Outside the prompt and the settings overlay, the Up arrow moves the
/// selection one row up and the Down arrow one row down, as the mouse wheel
/// does; with no overlay open `k` and `j` do the same, and in the detail
/// popup `j` moves down (there `k` kills).
pub proof fn law_up_moves_up_and_down_moves_down(modes: Modes, ctrl: bool)
    requires
        !modes.confirm,
        !modes.settings,
    ensures
        key_event(Key { code: KeyCode::Up, ctrl }, modes) == Some(Event::Move(-1i32)),
        key_event(Key { code: KeyCode::Down, ctrl }, modes) == Some(Event::Move(1i32)),
        key_event(Key { code: KeyCode::Up, ctrl }, modes) == mouse_event(MouseKind::ScrollUp, 0, 0),
        key_event(Key { code: KeyCode::Down, ctrl }, modes) == mouse_event(MouseKind::ScrollDown, 0, 0),
        !modes.searching && !modes.detail ==> key_event(Key { code: KeyCode::Char('k'), ctrl: false }, modes)
            == Some(Event::Move(-1i32)) && key_event(Key { code: KeyCode::Char('j'), ctrl: false }, modes) == Some(
            Event::Move(1i32),
        ),
        modes.detail && !modes.searching ==> key_event(Key { code: KeyCode::Char('j'), ctrl: false }, modes) == Some(
            Event::Move(1i32),
        ),
{
}

} // verus!
