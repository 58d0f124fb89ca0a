use plottypus::event::{map_key_in_mode, map_mouse, Event, Key, KeyCode, Modes, MouseKind};

fn key(c: char) -> Key {
    Key::plain(KeyCode::Char(c))
}

fn modes(searching: bool, detail: bool) -> Modes {
    Modes {
        searching,
        settings: false,
        detail,
        confirm: false,
    }
}

#[test]
fn question_always_help() {
    assert_eq!(
        map_key_in_mode(key('?'), modes(true, false)),
        Some(Event::Help)
    );
}

#[test]
fn q_in_search_is_a_letter() {
    assert_eq!(
        map_key_in_mode(key('q'), modes(true, false)),
        Some(Event::FilterChar('q'))
    );
    assert_eq!(
        map_key_in_mode(key('q'), modes(false, false)),
        Some(Event::Quit)
    );
}

#[test]
fn x_kills() {
    assert_eq!(
        map_key_in_mode(key('x'), modes(false, false)),
        Some(Event::Kill)
    );
}

#[test]
fn tab_enter_backtab() {
    assert_eq!(
        map_key_in_mode(Key::plain(KeyCode::Tab), modes(false, false)),
        Some(Event::NextPanel)
    );
    assert_eq!(
        map_key_in_mode(Key::plain(KeyCode::BackTab), modes(false, false)),
        Some(Event::PrevPanel)
    );
    assert_eq!(
        map_key_in_mode(Key::plain(KeyCode::Enter), modes(false, false)),
        Some(Event::Expand)
    );
}

#[test]
fn detail_mode_routes_actions() {
    assert_eq!(
        map_key_in_mode(key('t'), modes(false, true)),
        Some(Event::DetailTerm)
    );
    assert_eq!(
        map_key_in_mode(key('k'), modes(false, true)),
        Some(Event::DetailKill)
    );
    assert_eq!(
        map_key_in_mode(key('i'), modes(false, true)),
        Some(Event::DetailInterrupt)
    );
    assert_eq!(
        map_key_in_mode(key('x'), modes(false, true)),
        None,
        "x stays out of the popup"
    );
}

#[test]
fn confirm_wins_over_detail() {
    let confirm = Modes {
        searching: false,
        settings: false,
        detail: true,
        confirm: true,
    };
    assert_eq!(map_key_in_mode(key('y'), confirm), Some(Event::ConfirmYes));
    assert_eq!(map_key_in_mode(key('n'), confirm), Some(Event::ConfirmNo));
    assert_eq!(map_key_in_mode(key('k'), confirm), None);
}

#[test]
fn esc_is_always_cancel() {
    let expanded = Modes {
        searching: false,
        settings: false,
        detail: false,
        confirm: false,
    };
    assert_eq!(
        map_key_in_mode(Key::plain(KeyCode::Esc), expanded),
        Some(Event::FilterCancel)
    );
    assert_eq!(
        map_key_in_mode(Key::plain(KeyCode::Esc), modes(false, false)),
        Some(Event::FilterCancel)
    );
}

#[test]
fn ctrl_c_quits_even_while_searching() {
    let ctrl_c = Key { code: KeyCode::Char('c'), ctrl: true };
    assert_eq!(map_key_in_mode(ctrl_c, modes(true, false)), Some(Event::Quit));
    assert_eq!(map_key_in_mode(key('c'), modes(true, false)), Some(Event::FilterChar('c')));
}

#[test]
fn settings_keys_toggle_panes() {
    let settings = Modes { searching: false, settings: true, detail: false, confirm: false };
    assert_eq!(map_key_in_mode(key('2'), settings), Some(Event::ToggleGpu));
    assert_eq!(map_key_in_mode(key(']'), settings), Some(Event::CycleInterval));
    assert_eq!(map_key_in_mode(key('9'), settings), Some(Event::ToggleTree));
    assert_eq!(map_key_in_mode(key('q'), settings), None);
}

#[test]
fn control_characters_are_not_typed() {
    assert_eq!(map_key_in_mode(key('\u{7f}'), modes(true, false)), None);
    assert_eq!(map_key_in_mode(key('\u{1b}'), modes(true, false)), None);
    assert_eq!(map_key_in_mode(key('\u{a0}'), modes(true, false)), Some(Event::FilterChar('\u{a0}')));
}

#[test]
fn mouse_actions_map_to_clicks_and_moves() {
    assert_eq!(map_mouse(MouseKind::Down, 3, 4), Some(Event::Click { col: 3, row: 4 }));
    assert_eq!(map_mouse(MouseKind::Drag, 5, 6), Some(Event::Drag { col: 5, row: 6 }));
    assert_eq!(map_mouse(MouseKind::Up, 0, 0), Some(Event::MouseUp));
    assert_eq!(map_mouse(MouseKind::ScrollDown, 0, 0), Some(Event::Move(1)));
    assert_eq!(map_mouse(MouseKind::ScrollUp, 0, 0), Some(Event::Move(-1)));
    assert_eq!(map_mouse(MouseKind::Other, 0, 0), None);
}
