//! The one-line footer: the key chips it paints for the current state, the
//! kill prompt, a status message, and which chip a click lands on.
use vstd::prelude::*;
use crate::surface::Surface;
use crate::text::{decimal, push_decimal, push_str};
use crate::ui::layout::{sat_add16, Panel, Rect};
use crate::ui::widgets::{focus_panel, Focus};

verus! {

/// How a piece of the footer is drawn.
#[derive(Debug, Clone, Copy, PartialEq, Eq, Structural)]
pub enum Ink {
    Plain,
    Title,
    Dim,
    Warn,
}

/// What a click on the footer asks for.
#[derive(Debug, Clone, Copy, PartialEq, Eq, Structural)]
pub enum FooterHit {
    Help,
    Search,
    Kill,
    Quit,
    ExpandClose,
    DetailTerm,
    DetailKill,
    DetailInterrupt,
    ConfirmYes,
    ConfirmNo,
}

/// What the footer reads of the screen's state. `confirm_name` is the name
/// of the process `confirm_pid` names, when it is listed.
#[derive(Debug, Clone, PartialEq, Eq)]
pub struct FooterFacts {
    pub confirm_kill: bool,
    pub confirm_signal: String,
    pub confirm_pid: Option<u32>,
    pub confirm_name: Option<String>,
    pub status: Option<String>,
    pub detail_open: bool,
    pub expanded: bool,
    pub surface: Surface,
    pub searching: bool,
    pub focus: Focus,
    pub frozen: bool,
}

/// Search and kill apply: nothing is being typed, no box is expanded, the
/// work surface is up and the process table has the focus.
pub open spec fn actions_visible_spec(f: FooterFacts) -> bool {
    !f.searching && !f.expanded && f.surface != Surface::Glance && focus_panel(f.focus) == Panel::Processes
}

/// Whether search and kill apply.
pub fn process_actions_visible(f: &FooterFacts) -> (r: bool)
    ensures
        r == actions_visible_spec(*f),
{
    !f.searching && !f.expanded && f.surface != Surface::Glance && f.focus.panel() == Panel::Processes
}

/// The signal the prompt names: TERM when none is set.
pub open spec fn signal_word(f: FooterFacts) -> Seq<char> {
    if f.confirm_signal@.len() == 0 { "TERM"@ } else { f.confirm_signal@ }
}

/// The question the kill prompt asks: the signal, and the process by name
/// and pid, or by pid alone.
pub open spec fn who_spec(f: FooterFacts) -> Seq<char> {
    match f.confirm_pid {
        None => " "@ + signal_word(f) + "?  "@,
        Some(pid) => match f.confirm_name {
            Some(name) if name@.len() > 0 => " "@ + signal_word(f) + " "@ + name@ + " ("@ + decimal(pid as nat)
                + ")?  "@,
            _ => " "@ + signal_word(f) + " pid "@ + decimal(pid as nat) + "?  "@,
        },
    }
}

/// The kill prompt's question.
pub fn confirm_who(f: &FooterFacts) -> (s: String)
    ensures
        s@ == who_spec(*f),
{
    let mut s = String::new();
    push_str(&mut s, " ");
    if f.confirm_signal.as_str().unicode_len() == 0 {
        push_str(&mut s, "TERM");
    } else {
        push_str(&mut s, f.confirm_signal.as_str());
    }
    match f.confirm_pid {
        None => {
            push_str(&mut s, "?  ");
        },
        Some(pid) => {
            let named = match &f.confirm_name {
                Some(name) => name.as_str().unicode_len() > 0,
                None => false,
            };
            if named {
                let name = match &f.confirm_name {
                    Some(name) => name.as_str(),
                    None => "",
                };
                push_str(&mut s, " ");
                push_str(&mut s, name);
                push_str(&mut s, " (");
                push_decimal(&mut s, pid as u128);
                push_str(&mut s, ")?  ");
            } else {
                push_str(&mut s, " pid ");
                push_decimal(&mut s, pid as u128);
                push_str(&mut s, "?  ");
            }
        },
    }
    assert(s@ =~= who_spec(*f));
    s
}

/// The keys the footer paints, as (key, verb): the detail signals, or the
/// expanded view's keys, or help (with work on the glance surface, search
/// and kill over the process table, paused when frozen); quit last.
pub open spec fn painted_keys(f: FooterFacts) -> Seq<(Seq<char>, Seq<char>)> {
    let mid: Seq<(Seq<char>, Seq<char>)> = if f.detail_open {
        seq![("t"@, "term"@), ("k"@, "kill"@), ("i"@, "interrupt"@), ("esc"@, "close"@)]
    } else if f.expanded {
        seq![("tab"@, "related"@), ("esc"@, "home"@)]
    } else {
        seq![("?"@, "help"@)] + (if f.surface == Surface::Glance { seq![("w"@, "work"@)] } else { seq![] }) + (
        if actions_visible_spec(f) {
            seq![("/"@, "search"@), ("x"@, "kill"@)]
        } else {
            seq![]
        }) + (if f.frozen { seq![("f"@, "paused"@)] } else { seq![] })
    };
    mid.push(("q"@, "quit"@))
}

/// The pieces that paint `keys`: two spaces, the key, then a space and the
/// verb, for each.
pub open spec fn key_pieces(keys: Seq<(Seq<char>, Seq<char>)>) -> Seq<(Seq<char>, Ink)>
    decreases keys.len(),
{
    if keys.len() == 0 {
        seq![]
    } else {
        let (k, v) = keys.last();
        key_pieces(keys.drop_last()) + seq![("  "@, Ink::Plain), (k, Ink::Title), (" "@ + v, Ink::Dim)]
    }
}

/// The footer line: the kill prompt, else a status message, else the keys.
pub open spec fn footer_line_spec(f: FooterFacts) -> Seq<(Seq<char>, Ink)> {
    if f.confirm_kill {
        seq![(who_spec(f), Ink::Title), ("y"@, Ink::Title), (" yes  "@, Ink::Dim), ("n"@, Ink::Title), (" no"@, Ink::Dim)]
    } else if f.status is Some {
        seq![(" "@ + f.status->0@ + " "@, Ink::Warn)]
    } else {
        key_pieces(painted_keys(f))
    }
}

/// The characters and inks of a painted line.
pub open spec fn pieces_view(p: Seq<(String, Ink)>) -> Seq<(Seq<char>, Ink)> {
    p.map_values(|x: (String, Ink)| (x.0@, x.1))
}

fn push_key(out: &mut Vec<(String, Ink)>, k: &str, verb: &str)
    ensures
        pieces_view(final(out)@) == pieces_view(old(out)@) + seq![("  "@, Ink::Plain), (k@, Ink::Title), (
            " "@ + verb@,
            Ink::Dim,
        )],
{
    let mut sp = String::new();
    push_str(&mut sp, "  ");
    let mut key = String::new();
    push_str(&mut key, k);
    let mut v = String::new();
    push_str(&mut v, " ");
    push_str(&mut v, verb);
    out.push((sp, Ink::Plain));
    out.push((key, Ink::Title));
    out.push((v, Ink::Dim));
    assert(pieces_view(final(out)@) =~= pieces_view(old(out)@) + seq![("  "@, Ink::Plain), (k@, Ink::Title), (
        " "@ + verb@,
        Ink::Dim,
    )]);
}

proof fn lemma_key_pieces_push(keys: Seq<(Seq<char>, Seq<char>)>, k: Seq<char>, v: Seq<char>)
    ensures
        key_pieces(keys.push((k, v))) == key_pieces(keys) + seq![("  "@, Ink::Plain), (k, Ink::Title), (
            " "@ + v,
            Ink::Dim,
        )],
{
    assert(keys.push((k, v)).drop_last() =~= keys);
}

fn owned(s: &str) -> (r: String)
    ensures
        r@ == s@,
{
    let mut r = String::new();
    push_str(&mut r, s);
    r
}

/// The pieces of the footer line with how each is drawn.
pub fn footer_line(f: &FooterFacts) -> (out: Vec<(String, Ink)>)
    ensures
        pieces_view(out@) == footer_line_spec(*f),
{
    let mut out: Vec<(String, Ink)> = Vec::new();
    if f.confirm_kill {
        out.push((confirm_who(f), Ink::Title));
        out.push((owned("y"), Ink::Title));
        out.push((owned(" yes  "), Ink::Dim));
        out.push((owned("n"), Ink::Title));
        out.push((owned(" no"), Ink::Dim));
        assert(pieces_view(out@) =~= footer_line_spec(*f));
        return out;
    }
    if let Some(status) = &f.status {
        let mut s = String::new();
        push_str(&mut s, " ");
        push_str(&mut s, status.as_str());
        push_str(&mut s, " ");
        out.push((s, Ink::Warn));
        assert(pieces_view(out@) =~= footer_line_spec(*f));
        return out;
    }
    let ghost mut keys: Seq<(Seq<char>, Seq<char>)> = seq![];
    assert(pieces_view(out@) =~= key_pieces(keys));
    if f.detail_open {
        push_key(&mut out, "t", "term");
        proof { lemma_key_pieces_push(keys, "t"@, "term"@); keys = keys.push(("t"@, "term"@)); }
        push_key(&mut out, "k", "kill");
        proof { lemma_key_pieces_push(keys, "k"@, "kill"@); keys = keys.push(("k"@, "kill"@)); }
        push_key(&mut out, "i", "interrupt");
        proof { lemma_key_pieces_push(keys, "i"@, "interrupt"@); keys = keys.push(("i"@, "interrupt"@)); }
        push_key(&mut out, "esc", "close");
        proof { lemma_key_pieces_push(keys, "esc"@, "close"@); keys = keys.push(("esc"@, "close"@)); }
    } else if f.expanded {
        push_key(&mut out, "tab", "related");
        proof { lemma_key_pieces_push(keys, "tab"@, "related"@); keys = keys.push(("tab"@, "related"@)); }
        push_key(&mut out, "esc", "home");
        proof { lemma_key_pieces_push(keys, "esc"@, "home"@); keys = keys.push(("esc"@, "home"@)); }
    } else {
        push_key(&mut out, "?", "help");
        proof { lemma_key_pieces_push(keys, "?"@, "help"@); keys = keys.push(("?"@, "help"@)); }
        if f.surface == Surface::Glance {
            push_key(&mut out, "w", "work");
            proof { lemma_key_pieces_push(keys, "w"@, "work"@); keys = keys.push(("w"@, "work"@)); }
        }
        if process_actions_visible(f) {
            push_key(&mut out, "/", "search");
            proof { lemma_key_pieces_push(keys, "/"@, "search"@); keys = keys.push(("/"@, "search"@)); }
            push_key(&mut out, "x", "kill");
            proof { lemma_key_pieces_push(keys, "x"@, "kill"@); keys = keys.push(("x"@, "kill"@)); }
        }
        if f.frozen {
            push_key(&mut out, "f", "paused");
            proof { lemma_key_pieces_push(keys, "f"@, "paused"@); keys = keys.push(("f"@, "paused"@)); }
        }
    }
    push_key(&mut out, "q", "quit");
    proof {
        lemma_key_pieces_push(keys, "q"@, "quit"@);
        keys = keys.push(("q"@, "quit"@));
        assert(keys =~= painted_keys(*f));
    }
    out
}

/// The chips a click can hit, left to right: the detail signals and close,
/// or home in an expanded view, or help (with search and kill over the
/// process table); quit last.
pub open spec fn chips_spec(f: FooterFacts) -> Seq<(Seq<char>, Seq<char>, FooterHit)> {
    let mid: Seq<(Seq<char>, Seq<char>, FooterHit)> = if f.detail_open {
        seq![
            ("t"@, "term"@, FooterHit::DetailTerm),
            ("k"@, "kill"@, FooterHit::DetailKill),
            ("i"@, "interrupt"@, FooterHit::DetailInterrupt),
            ("esc"@, "close"@, FooterHit::ExpandClose),
        ]
    } else if f.expanded {
        seq![("esc"@, "home"@, FooterHit::ExpandClose)]
    } else {
        seq![("?"@, "help"@, FooterHit::Help)] + (if actions_visible_spec(f) {
            seq![("/"@, "search"@, FooterHit::Search), ("x"@, "kill"@, FooterHit::Kill)]
        } else {
            seq![]
        })
    };
    mid.push(("q"@, "quit"@, FooterHit::Quit))
}

/// The clickable chips.
pub fn footer_chips(f: &FooterFacts) -> (r: Vec<(&'static str, &'static str, FooterHit)>)
    ensures
        r@.map_values(|c: (&'static str, &'static str, FooterHit)| (c.0@, c.1@, c.2)) == chips_spec(*f),
{
    let mut r: Vec<(&'static str, &'static str, FooterHit)> = Vec::new();
    if f.detail_open {
        r.push(("t", "term", FooterHit::DetailTerm));
        r.push(("k", "kill", FooterHit::DetailKill));
        r.push(("i", "interrupt", FooterHit::DetailInterrupt));
        r.push(("esc", "close", FooterHit::ExpandClose));
    } else if f.expanded {
        r.push(("esc", "home", FooterHit::ExpandClose));
    } else {
        r.push(("?", "help", FooterHit::Help));
        if process_actions_visible(f) {
            r.push(("/", "search", FooterHit::Search));
            r.push(("x", "kill", FooterHit::Kill));
        }
    }
    r.push(("q", "quit", FooterHit::Quit));
    assert(r@.map_values(|c: (&'static str, &'static str, FooterHit)| (c.0@, c.1@, c.2)) =~= chips_spec(*f));
    r
}

/// The width of a chip: two spaces, the key, a space and the verb.
pub open spec fn chip_width(k: Seq<char>, verb: Seq<char>) -> int {
    (2 + k.len() + 1 + verb.len()) as int
}

/// The chip from `i` on, starting at column `x`, that holds column `col`.
pub open spec fn chip_hit(chips: Seq<(Seq<char>, Seq<char>, FooterHit)>, i: int, x: u16, col: u16) -> Option<FooterHit>
    decreases chips.len() - i,
{
    if i < 0 || i >= chips.len() {
        None
    } else {
        let w = chip_width(chips[i].0, chips[i].1);
        let end = if x + w > u16::MAX { u16::MAX as int } else { x + w };
        if col >= x && col < end {
            Some(chips[i].2)
        } else {
            chip_hit(chips, i + 1, end as u16, col)
        }
    }
}

/// Which answer of the kill prompt (drawn at `x`) column `col` is on: the
/// `y` right after the question, or the `n` seven columns further.
pub open spec fn confirm_hit_spec(f: FooterFacts, x: u16, col: u16) -> Option<FooterHit> {
    let who_w: u16 = if who_spec(f).len() > u16::MAX { 0 } else { who_spec(f).len() as u16 };
    let y_x = sat_add16(x, who_w);
    if col == y_x {
        Some(FooterHit::ConfirmYes)
    } else if col == sat_add16(y_x, 7) {
        Some(FooterHit::ConfirmNo)
    } else {
        None
    }
}

proof fn lemma_chip_lengths(f: FooterFacts)
    ensures
        forall|k: int|
            0 <= k < chips_spec(f).len() ==> (#[trigger] chips_spec(f)[k]).0.len() <= 3 && chips_spec(f)[k].1.len() <= 9,
{
    reveal_strlit("t");
    reveal_strlit("term");
    reveal_strlit("k");
    reveal_strlit("kill");
    reveal_strlit("i");
    reveal_strlit("interrupt");
    reveal_strlit("esc");
    reveal_strlit("close");
    reveal_strlit("home");
    reveal_strlit("?");
    reveal_strlit("help");
    reveal_strlit("/");
    reveal_strlit("search");
    reveal_strlit("x");
    reveal_strlit("q");
    reveal_strlit("quit");
}

/// What a click at (`col`, `row`) on the footer in `area` asks for.
pub open spec fn footer_hit_spec(f: FooterFacts, area: Rect, col: u16, row: u16) -> Option<FooterHit> {
    if row != area.y || col < area.x || col >= sat_add16(area.x, area.width) {
        None
    } else if f.confirm_kill {
        confirm_hit_spec(f, area.x, col)
    } else {
        chip_hit(chips_spec(f), 0, area.x, col)
    }
}

/// What a click on the footer asks for.
pub fn footer_hit(f: &FooterFacts, area: Rect, col: u16, row: u16) -> (r: Option<FooterHit>)
    ensures
        r == footer_hit_spec(*f, area, col, row),
{
    if row != area.y || col < area.x || col >= area.x.saturating_add(area.width) {
        return None;
    }
    if f.confirm_kill {
        let who = confirm_who(f);
        let n = who.as_str().unicode_len();
        let who_w: u16 = if n > 65535 { 0 } else { n as u16 };
        let y_x = area.x.saturating_add(who_w);
        if col == y_x {
            return Some(FooterHit::ConfirmYes);
        }
        if col == y_x.saturating_add(7) {
            return Some(FooterHit::ConfirmNo);
        }
        return None;
    }
    let chips = footer_chips(f);
    let ghost spec_chips = chips_spec(*f);
    proof {
        lemma_chip_lengths(*f);
        assert forall|k: int| 0 <= k < chips@.len() implies (#[trigger] chips@[k]).0@ == spec_chips[k].0
            && chips@[k].1@ == spec_chips[k].1 && chips@[k].2 == spec_chips[k].2 by {
            assert(chips@.map_values(|c: (&'static str, &'static str, FooterHit)| (c.0@, c.1@, c.2))[k]
                == spec_chips[k]);
        }
    }
    let mut x = area.x;
    let mut i: usize = 0;
    while i < chips.len()
        invariant
            i <= chips@.len(),
            chips@.len() == spec_chips.len(),
            forall|k: int| 0 <= k < chips@.len() ==> (#[trigger] chips@[k]).0@ == spec_chips[k].0 && chips@[k].1@
                == spec_chips[k].1 && chips@[k].2 == spec_chips[k].2,
            forall|k: int| 0 <= k < spec_chips.len() ==> (#[trigger] spec_chips[k]).0.len() <= 3 && spec_chips[k].1.len() <= 9,
            chip_hit(spec_chips, i as int, x, col) == footer_hit_spec(*f, area, col, row),
        decreases chips@.len() - i,
    {
        let (k, verb, hit) = chips[i];
        assert(chips@[i as int].0@ == spec_chips[i as int].0);
        let w: u16 = 2 + k.unicode_len() as u16 + 1 + verb.unicode_len() as u16;
        let end = x.saturating_add(w);
        if col >= x && col < end {
            return Some(hit);
        }
        x = end;
        i = i + 1;
    }
    None
}

} // verus!
