//! The pure parts of the process table: the detail popup's geometry and
//! action chips, column headers, ages, elided paths, tree indentation,
//! filtering and the selection that follows a pid.
use vstd::prelude::*;
use crate::config::lemma_decimal_reads_back;
use crate::text::{
    all_digits, ascii_lower, ascii_lower_seq, decimal, has_infix, is_digit, lower_char, lower_contains, push_char,
    push_decimal, push_str, skip_trim, trim_start_str,
};
use crate::ui::expanded::sat_mul16;
use crate::ui::layout::{sat_add16, sat_sub16, Rect};

verus! {

/// What a chip in the detail popup's footer does.
#[derive(Debug, Clone, Copy, PartialEq, Eq, Structural)]
pub enum DetailAction {
    Term,
    Kill,
    Interrupt,
    Close,
}

/// The detail popup over the process pane `area`: one cell in from the
/// top left, at least 22 wide, and three quarters of the pane tall (at
/// least 16 rows when the pane allows, never below the pane, at least 1).
pub open spec fn detail_rect_spec(area: Rect) -> Rect {
    let width0 = sat_sub16(area.width, 2);
    let width: u16 = if width0 > 22 { width0 } else { 22 };
    let room = sat_sub16(area.height, 1);
    let want = (sat_mul16(area.height, 3) / 4) as u16;
    let lo: u16 = if 16 < room { 16 } else { room };
    let clamped: u16 = if want < lo { lo } else if want > room { room } else { want };
    let height: u16 = if clamped > 1 { clamped } else { 1 };
    Rect { x: sat_add16(area.x, 1), y: sat_add16(area.y, 1), width, height }
}

/// The detail popup over the process pane `area`.
pub fn detail_rect(area: Rect) -> (r: Rect)
    ensures
        r == detail_rect_spec(area),
{
    let width0 = area.width.saturating_sub(2);
    let width = if width0 > 22 { width0 } else { 22 };
    let room = area.height.saturating_sub(1);
    let tripled: u16 = match area.height.checked_mul(3) {
        Some(v) => v,
        None => u16::MAX,
    };
    let want = tripled / 4;
    let lo = if 16 < room { 16 } else { room };
    let clamped = if want < lo { lo } else if want > room { room } else { want };
    let height = if clamped > 1 { clamped } else { 1 };
    Rect { x: area.x.saturating_add(1), y: area.y.saturating_add(1), width, height }
}

/// Width of footer chip `j`: three spaces, the key, a space, the verb.
pub open spec fn chip_width(j: int) -> u16 {
    if j == 0 {
        9
    } else if j == 1 {
        9
    } else if j == 2 {
        14
    } else {
        12
    }
}

/// The action of footer chip `j`: term, kill, interrupt, close.
pub open spec fn chip_action(j: int) -> DetailAction {
    if j == 0 {
        DetailAction::Term
    } else if j == 1 {
        DetailAction::Kill
    } else if j == 2 {
        DetailAction::Interrupt
    } else {
        DetailAction::Close
    }
}

/// The chips from the `j`-th on, the `j`-th starting at column `cursor`
/// of row `y`, clipped at column `right`; chips stop where the row ends.
pub open spec fn chips_from(right: u16, y: u16, j: int, cursor: u16) -> Seq<(Rect, DetailAction)>
    decreases 4 - j,
{
    if j < 0 || j >= 4 || cursor >= right {
        Seq::empty()
    } else {
        let w = chip_width(j);
        let room = (right - cursor) as u16;
        let width: u16 = if w < room { w } else { room };
        seq![(Rect { x: cursor, y, width, height: 1 }, chip_action(j))] + chips_from(
            right,
            y,
            j + 1,
            sat_add16(cursor, w),
        )
    }
}

/// The clickable chips of the detail popup's footer row.
pub open spec fn detail_actions_spec(area: Rect) -> Seq<(Rect, DetailAction)> {
    let rect = detail_rect_spec(area);
    chips_from(
        sat_add16(rect.x, rect.width),
        sat_add16(rect.y, sat_sub16(rect.height, 2)),
        0,
        sat_add16(rect.x, 1),
    )
}

/// The clickable chips of the detail popup's footer row: term, kill,
/// interrupt and close, left to right.
pub fn detail_actions(area: Rect) -> (r: Vec<(Rect, DetailAction)>)
    ensures
        r@ == detail_actions_spec(area),
{
    let rect = detail_rect(area);
    let inner_x = rect.x.saturating_add(1);
    let footer_y = rect.y.saturating_add(rect.height.saturating_sub(2));
    let right = rect.x.saturating_add(rect.width);
    let ghost target = chips_from(right, footer_y, 0, inner_x);
    let mut out: Vec<(Rect, DetailAction)> = Vec::new();
    let mut cursor = inner_x;
    let mut j: usize = 0;
    while j < 4 && cursor < right
        invariant
            j <= 4,
            out@ + chips_from(right, footer_y, j as int, cursor) == target,
        decreases 4 - j,
    {
        let w: u16 = if j == 0 {
            9
        } else if j == 1 {
            9
        } else if j == 2 {
            14
        } else {
            12
        };
        let action = if j == 0 {
            DetailAction::Term
        } else if j == 1 {
            DetailAction::Kill
        } else if j == 2 {
            DetailAction::Interrupt
        } else {
            DetailAction::Close
        };
        let room = right - cursor;
        let width = if w < room { w } else { room };
        let ghost before = out@;
        out.push((Rect { x: cursor, y: footer_y, width, height: 1 }, action));
        let ghost rest = chips_from(right, footer_y, j + 1, sat_add16(cursor, w));
        assert(before + chips_from(right, footer_y, j as int, cursor) =~= out@ + rest);
        cursor = cursor.saturating_add(w);
        j = j + 1;
    }
    assert(out@ + chips_from(right, footer_y, j as int, cursor) =~= out@);
    out
}

proof fn lemma_chips_inside(right: u16, y: u16, j: int, cursor: u16, left: u16)
    requires
        left <= cursor,
    ensures
        forall|i: int|
            #![trigger chips_from(right, y, j, cursor)[i]]
            0 <= i < chips_from(right, y, j, cursor).len() ==> {
                let r = chips_from(right, y, j, cursor)[i].0;
                &&& r.y == y && r.height == 1
                &&& left <= r.x
                &&& r.x + r.width <= right
                &&& r.width > 0
            },
    decreases 4 - j,
{
    if 0 <= j < 4 && cursor < right {
        let w = chip_width(j);
        lemma_chips_inside(right, y, j + 1, sat_add16(cursor, w), left);
        let all = chips_from(right, y, j, cursor);
        let rest = chips_from(right, y, j + 1, sat_add16(cursor, w));
        assert forall|i: int| 0 <= i < all.len() implies ({
            let r = #[trigger] all[i].0;
            &&& r.y == y && r.height == 1
            &&& left <= r.x
            &&& r.x + r.width <= right
            &&& r.width > 0
        }) by {
            if i > 0 {
                assert(all[i] == rest[i - 1]);
            }
        }
    }
}

/// Every action chip sits on the popup's footer row, one row tall, within
/// the popup's width (right of its left border), and is at least one cell
/// wide.
pub proof fn law_action_chips_stay_in_the_popup(area: Rect)
    ensures
        forall|i: int|
            #![trigger detail_actions_spec(area)[i]]
            0 <= i < detail_actions_spec(area).len() ==> {
                let rect = detail_rect_spec(area);
                let r = detail_actions_spec(area)[i].0;
                &&& r.y == sat_add16(rect.y, sat_sub16(rect.height, 2)) && r.height == 1
                &&& sat_add16(rect.x, 1) <= r.x
                &&& r.x + r.width <= sat_add16(rect.x, rect.width)
                &&& r.width > 0
            },
{
    let rect = detail_rect_spec(area);
    lemma_chips_inside(
        sat_add16(rect.x, rect.width),
        sat_add16(rect.y, sat_sub16(rect.height, 2)),
        0,
        sat_add16(rect.x, 1),
        sat_add16(rect.x, 1),
    );
}

/// A column header, with `↓` appended when the table is sorted by it.
pub fn sort_header(label: &str, active: bool) -> (s: String)
    ensures
        s@ == (if active { label@.push('↓') } else { label@ }),
{
    let mut s = String::new();
    push_str(&mut s, label);
    if active {
        push_char(&mut s, '↓');
    }
    assert(s@ =~= (if active { label@.push('↓') } else { label@ }));
    s
}

/// How long ago a process started, in its largest whole unit: seconds
/// below a minute, minutes below an hour, hours and minutes below a day,
/// else days. A start in the future counts as just now.
pub open spec fn age_text(start_unix: i64, now_unix: i64) -> Seq<char> {
    let d = now_unix - start_unix;
    let secs: nat = if d < 0 { 0 } else { d as nat };
    if secs < 60 {
        decimal(secs) + seq!['s']
    } else if secs < 3600 {
        decimal(secs / 60) + seq!['m']
    } else if secs < 86_400 {
        decimal(secs / 3600) + seq!['h'] + decimal((secs % 3600) / 60) + seq!['m']
    } else {
        decimal(secs / 86_400) + seq!['d']
    }
}

/// How long ago a process that started at `start_unix` started, at time
/// `now_unix` (both in seconds since the epoch).
pub fn started_ago(start_unix: i64, now_unix: i64) -> (s: String)
    requires
        i64::MIN <= now_unix - start_unix <= i64::MAX,
    ensures
        s@ == age_text(start_unix, now_unix),
{
    let d = now_unix - start_unix;
    let secs: u64 = if d < 0 { 0 } else { d as u64 };
    let mut s = String::new();
    if secs < 60 {
        push_decimal(&mut s, secs as u128);
        push_char(&mut s, 's');
    } else if secs < 3600 {
        push_decimal(&mut s, (secs / 60) as u128);
        push_char(&mut s, 'm');
    } else if secs < 86_400 {
        push_decimal(&mut s, (secs / 3600) as u128);
        push_char(&mut s, 'h');
        push_decimal(&mut s, ((secs % 3600) / 60) as u128);
        push_char(&mut s, 'm');
    } else {
        push_decimal(&mut s, (secs / 86_400) as u128);
        push_char(&mut s, 'd');
    }
    assert(s@ =~= age_text(start_unix, now_unix));
    s
}

/// `path` shortened to at most `max` characters by replacing its middle
/// with `…`, keeping as many characters at each end.
pub open spec fn elided(path: Seq<char>, max: nat) -> Seq<char> {
    if path.len() <= max {
        path
    } else {
        let keep: int = (if max >= 1 { max - 1 } else { 0 }) / 2;
        path.subrange(0, keep) + seq!['…'] + path.subrange(path.len() - keep, path.len() as int)
    }
}

/// `path` shortened to at most `max` characters, middle elided.
pub fn elide_middle(path: &str, max: usize) -> (s: String)
    ensures
        s@ == elided(path@, max as nat),
{
    let n = path.unicode_len();
    if n <= max {
        let mut s = String::new();
        push_str(&mut s, path);
        assert(s@ =~= path@);
        return s;
    }
    let keep = max.saturating_sub(1) / 2;
    let mut s = String::new();
    push_str(&mut s, path.substring_char(0, keep));
    push_char(&mut s, '…');
    push_str(&mut s, path.substring_char(n - keep, n));
    assert(s@ =~= elided(path@, max as nat));
    s
}

/// Two spaces per level.
pub open spec fn indent(depth: nat) -> Seq<char>
    decreases depth,
{
    if depth == 0 {
        Seq::empty()
    } else {
        indent((depth - 1) as nat) + seq![' ', ' ']
    }
}

/// A process name in the tree view: nested names are indented two spaces
/// per level and hang from a `╰ ` corner.
pub open spec fn tree_text(name: Seq<char>, depth: u8) -> Seq<char> {
    if depth == 0 {
        name
    } else {
        indent(depth as nat) + seq!['╰', ' '] + name
    }
}

/// A process name as shown at `depth` in the tree view.
pub fn tree_name(name: &str, depth: u8) -> (s: String)
    ensures
        s@ == tree_text(name@, depth),
{
    let mut s = String::new();
    if depth == 0 {
        push_str(&mut s, name);
        assert(s@ =~= name@);
        return s;
    }
    let mut i: u8 = 0;
    while i < depth
        invariant
            i <= depth,
            s@ == indent(i as nat),
        decreases depth - i,
    {
        push_char(&mut s, ' ');
        push_char(&mut s, ' ');
        assert(s@ =~= indent((i + 1) as nat));
        i = i + 1;
    }
    push_char(&mut s, '╰');
    push_char(&mut s, ' ');
    push_str(&mut s, name);
    assert(s@ =~= tree_text(name@, depth));
    s
}

/// Whether `needle` occurs in `hay` with `hay`'s ASCII letters lowered (the
/// needle is expected lowered already).
pub fn contains_ignore_ascii(hay: &str, needle: &str) -> (r: bool)
    ensures
        r == has_infix(ascii_lower_seq(hay@), needle@),
{
    lower_contains(hay, needle)
}

/// A pid matches a filter made only of digits that occurs in its decimal
/// form.
pub open spec fn pid_matches(n: u32, needle: Seq<char>) -> bool {
    needle.len() > 0 && all_digits(needle) && has_infix(decimal(n as nat), needle)
}

/// Whether the all-digit `needle` occurs in the decimal form of `n`.
pub fn u32_contains(n: u32, needle: &str) -> (r: bool)
    ensures
        r == pid_matches(n, needle@),
{
    let m = needle.unicode_len();
    if m == 0 {
        return false;
    }
    let mut i: usize = 0;
    while i < m
        invariant
            m == needle@.len(),
            i <= m,
            forall|k: int| 0 <= k < i ==> is_digit(#[trigger] needle@[k]),
        decreases m - i,
    {
        let c = needle.get_char(i);
        if !('0' <= c && c <= '9') {
            assert(!is_digit(needle@[i as int]));
            return false;
        }
        i = i + 1;
    }
    let mut digits = String::new();
    push_decimal(&mut digits, n as u128);
    proof {
        lemma_decimal_reads_back(n as nat);
        let d = decimal(n as nat);
        assert(ascii_lower_seq(d) =~= d) by {
            assert forall|k: int| 0 <= k < d.len() implies ascii_lower(d[k]) == d[k] by {
                assert(is_digit(d[k]));
            }
        }
    }
    lower_contains(digits.as_str(), needle)
}

/// Whether a process (its name, pid and command line) passes the filter
/// `needle` (already lowered): an empty filter passes everything; else the
/// name or the command line must contain it ignoring ASCII case, or the
/// pid must contain it as digits.
pub open spec fn filter_passes(name: Seq<char>, pid: u32, command: Option<Seq<char>>, needle: Seq<char>) -> bool {
    needle.len() == 0 || has_infix(ascii_lower_seq(name), needle) || pid_matches(pid, needle) || match command {
        Some(c) => has_infix(ascii_lower_seq(c), needle),
        None => false,
    }
}

/// Whether a process passes the lowered filter `needle`.
pub fn matches_filter(name: &str, pid: u32, command: Option<&str>, needle: &str) -> (r: bool)
    ensures
        r == filter_passes(name@, pid, match command {
            Some(c) => Some(c@),
            None => None,
        }, needle@),
{
    if needle.unicode_len() == 0 {
        return true;
    }
    if contains_ignore_ascii(name, needle) {
        return true;
    }
    if u32_contains(pid, needle) {
        return true;
    }
    match command {
        Some(c) => contains_ignore_ascii(c, needle),
        None => false,
    }
}

/// Position of the first `pid` at or after `i`, if any.
pub open spec fn first_pos(pids: Seq<u32>, pid: u32, i: int) -> Option<int>
    decreases pids.len() - i,
{
    if i < 0 || i >= pids.len() {
        None
    } else if pids[i] == pid {
        Some(i)
    } else {
        first_pos(pids, pid, i + 1)
    }
}

/// The row the selection sits on: where its pid is listed (first match),
/// else the remembered index clamped to the last row.
pub open spec fn selected_row(pids: Seq<u32>, selected_pid: Option<u32>, selected: usize) -> int {
    let last: int = if pids.len() > 0 { pids.len() - 1 } else { 0 };
    match selected_pid {
        Some(pid) => if first_pos(pids, pid, 0) is Some {
            first_pos(pids, pid, 0)->0
        } else if selected < last {
            selected as int
        } else {
            last
        },
        None => if selected < last { selected as int } else { last },
    }
}

/// The row the selection sits on, given the listed pids in order.
pub fn selected_index(pids: &Vec<u32>, selected_pid: Option<u32>, selected: usize) -> (r: usize)
    ensures
        r == selected_row(pids@, selected_pid, selected),
{
    if let Some(pid) = selected_pid {
        let mut i: usize = 0;
        while i < pids.len()
            invariant
                i <= pids@.len(),
                first_pos(pids@, pid, i as int) == first_pos(pids@, pid, 0),
                selected_pid == Some(pid),
            decreases pids@.len() - i,
        {
            if pids[i] == pid {
                return i;
            }
            i = i + 1;
        }
    }
    let last = if pids.len() > 0 { pids.len() - 1 } else { 0 };
    if selected < last {
        selected
    } else {
        last
    }
}

/// The first position at or after `i` where `needle` occurs in `hay`.
pub open spec fn first_infix(hay: Seq<char>, needle: Seq<char>, i: int) -> Option<int>
    decreases hay.len() + 1 - i,
{
    if i < 0 || i + needle.len() > hay.len() {
        None
    } else if hay.subrange(i, i + needle.len()) == needle {
        Some(i)
    } else {
        first_infix(hay, needle, i + 1)
    }
}

/// Where the lowered filter `needle` first occurs in `hay` with its ASCII
/// letters lowered.
pub fn find_lower(hay: &str, needle: &str) -> (r: Option<usize>)
    ensures
        r matches Some(k) ==> first_infix(ascii_lower_seq(hay@), needle@, 0) == Some(k as int),
        r is None ==> first_infix(ascii_lower_seq(hay@), needle@, 0) is None,
{
    let n = hay.unicode_len();
    let m = needle.unicode_len();
    let ghost low = ascii_lower_seq(hay@);
    if m > n {
        return None;
    }
    if m == 0 {
        assert(low.subrange(0, 0) =~= needle@);
        return Some(0);
    }
    let mut start: usize = 0;
    while start <= n - m
        invariant
            n == hay@.len(),
            m == needle@.len(),
            low == ascii_lower_seq(hay@),
            0 < m <= n,
            start <= n - m + 1,
            first_infix(low, needle@, start as int) == first_infix(low, needle@, 0),
        decreases n - m + 1 - start,
    {
        let mut j: usize = 0;
        let mut same = true;
        while j < m
            invariant
                n == hay@.len(),
                m == needle@.len(),
                low == ascii_lower_seq(hay@),
                start + m <= n,
                j <= m,
                same ==> forall|k: int| 0 <= k < j ==> low[start + k] == needle@[k],
                !same ==> low.subrange(start as int, start + m) != needle@,
            decreases m - j,
        {
            if same {
                let c = lower_char(hay.get_char(start + j));
                if c != needle.get_char(j) {
                    same = false;
                    assert(low.subrange(start as int, start + m)[j as int] != needle@[j as int]);
                }
            }
            j = j + 1;
        }
        if same {
            assert(low.subrange(start as int, start + m) =~= needle@);
            return Some(start);
        }
        start = start + 1;
    }
    None
}

/// The pieces of `text` with the first match of the lowered filter
/// `needle` marked: the whole text unmarked when the filter is empty or
/// does not occur; else the text before, the match, and the text after.
pub open spec fn matched_spec(text: Seq<char>, needle: Seq<char>) -> Seq<(Seq<char>, bool)> {
    if needle.len() == 0 {
        seq![(text, false)]
    } else {
        match first_infix(ascii_lower_seq(text), needle, 0) {
            None => seq![(text, false)],
            Some(at) => seq![
                (text.subrange(0, at), false),
                (text.subrange(at, at + needle.len()), true),
                (text.subrange(at + needle.len(), text.len() as int), false),
            ],
        }
    }
}

/// Splits `text` around the first match of the lowered filter `needle`,
/// for highlighting.
pub fn matched_parts(text: &str, needle: &str) -> (r: Vec<(String, bool)>)
    ensures
        r@.map_values(|p: (String, bool)| (p.0@, p.1)) == matched_spec(text@, needle@),
{
    let mut r: Vec<(String, bool)> = Vec::new();
    let m = needle.unicode_len();
    if m == 0 {
        r.push((text.to_owned(), false));
        assert(r@.map_values(|p: (String, bool)| (p.0@, p.1)) =~= matched_spec(text@, needle@));
        return r;
    }
    match find_lower(text, needle) {
        None => {
            r.push((text.to_owned(), false));
        },
        Some(at) => {
            proof {
                lemma_first_infix_fits(ascii_lower_seq(text@), needle@, 0);
            }
            let n = text.unicode_len();
            r.push((text.substring_char(0, at).to_owned(), false));
            r.push((text.substring_char(at, at + m).to_owned(), true));
            r.push((text.substring_char(at + m, n).to_owned(), false));
        },
    }
    assert(r@.map_values(|p: (String, bool)| (p.0@, p.1)) =~= matched_spec(text@, needle@));
    r
}

proof fn lemma_first_infix_fits(hay: Seq<char>, needle: Seq<char>, i: int)
    ensures
        first_infix(hay, needle, i) matches Some(k) ==> i <= k && k + needle.len() <= hay.len(),
    decreases hay.len() + 1 - i,
{
    if i >= 0 && i + needle.len() <= hay.len() && hay.subrange(i, i + needle.len()) != needle {
        lemma_first_infix_fits(hay, needle, i + 1);
    }
}

/// A run of text set on a wrapped line, with the position of the piece it
/// came from (so the caller can keep that piece's style).
#[derive(Debug, Clone, PartialEq, Eq)]
pub struct Placed {
    pub from: usize,
    pub text: String,
}

/// What a wrapped line holds: (piece position, text) pairs.
pub open spec fn line_view(line: Seq<Placed>) -> Seq<(int, Seq<char>)> {
    line.map_values(|p: Placed| (p.from as int, p.text@))
}

/// What wrapped lines hold.
pub open spec fn lines_view(lines: Seq<Vec<Placed>>) -> Seq<Seq<(int, Seq<char>)>> {
    lines.map_values(|l: Vec<Placed>| line_view(l@))
}

/// The texts of the pieces.
pub open spec fn texts_view(pieces: Seq<String>) -> Seq<Seq<char>> {
    pieces.map_values(|s: String| s@)
}

/// `x` added at the end of the last line.
pub open spec fn add_to_last<T>(lines: Seq<Seq<T>>, x: T) -> Seq<Seq<T>> {
    lines.update(lines.len() - 1, lines.last().push(x))
}

/// Pieces laid on lines `width` columns wide, and the columns taken on the
/// last line (counting one for the margin). A piece goes on the current
/// line unless the line already holds something and the piece would pass
/// the width; then a new line starts, and a piece that begins with a space
/// goes there without its leading white space, or not at all when nothing
/// else is left of it.
pub open spec fn wrap_spec(ps: Seq<Seq<char>>, width: nat) -> (Seq<Seq<(int, Seq<char>)>>, int)
    decreases ps.len(),
{
    if ps.len() == 0 {
        (seq![Seq::<(int, Seq<char>)>::empty()], 1)
    } else {
        let prev = wrap_spec(ps.drop_last(), width);
        let k = ps.len() - 1;
        let s = ps.last();
        if prev.1 > 1 && prev.1 + s.len() > width {
            let fresh = prev.0.push(Seq::<(int, Seq<char>)>::empty());
            if s.len() > 0 && s[0] == ' ' {
                let t = s.subrange(skip_trim(s, false, 0), s.len() as int);
                if t.len() == 0 {
                    (fresh, 1)
                } else {
                    (add_to_last(fresh, (k, t)), 1 + t.len() as int)
                }
            } else {
                (add_to_last(fresh, (k, s)), 1 + s.len() as int)
            }
        } else {
            (add_to_last(prev.0, (k, s)), prev.1 + s.len())
        }
    }
}

/// Wraps pieces of text onto lines `width` columns wide, as `wrap_spec`
/// says.
pub fn wrap_pieces(pieces: &Vec<String>, width: usize) -> (r: Vec<Vec<Placed>>)
    ensures
        lines_view(r@) == wrap_spec(texts_view(pieces@), width as nat).0,
{
    let ghost ps = texts_view(pieces@);
    let mut done: Vec<Vec<Placed>> = Vec::new();
    let mut cur: Vec<Placed> = Vec::new();
    let mut used: u128 = 1;
    let mut k: usize = 0;
    proof {
        assert(ps.take(0) =~= Seq::<Seq<char>>::empty());
        assert(line_view(cur@) =~= Seq::<(int, Seq<char>)>::empty());
        assert(lines_view(done@) =~= Seq::<Seq<(int, Seq<char>)>>::empty());
        assert(lines_view(done@).push(line_view(cur@)) =~= wrap_spec(ps.take(0), width as nat).0);
    }
    while k < pieces.len()
        invariant
            k <= pieces.len(),
            ps == texts_view(pieces@),
            lines_view(done@).push(line_view(cur@)) == wrap_spec(ps.take(k as int), width as nat).0,
            used == wrap_spec(ps.take(k as int), width as nat).1,
            1 <= used <= 1 + k * 0xffff_ffff_ffff_ffffu128,
        decreases pieces.len() - k,
    {
        let s = pieces[k].as_str();
        let len = s.unicode_len();
        let ghost before = wrap_spec(ps.take(k as int), width as nat);
        proof {
            assert(ps.take(k + 1).drop_last() =~= ps.take(k as int));
            assert(ps.take(k + 1).last() == s@);
            assert(ps.take(k + 1).len() - 1 == k);
            assert(len <= 0xffff_ffff_ffff_ffffu128);
            assert(k + 1 <= 0xffff_ffff_ffff_ffffu128);
            assert(used + len <= 1 + (k + 1) * 0xffff_ffff_ffff_ffffu128) by (nonlinear_arith)
                requires
                    used <= 1 + k * 0xffff_ffff_ffff_ffffu128,
                    len <= 0xffff_ffff_ffff_ffffu128,
            ;
            assert(1 + (k + 1) * 0xffff_ffff_ffff_ffffu128 <= 1 + 0xffff_ffff_ffff_ffffu128
                * 0xffff_ffff_ffff_ffffu128) by (nonlinear_arith)
                requires
                    k + 1 <= 0xffff_ffff_ffff_ffffu128,
            ;
        }
        if used > 1 && used + len as u128 > width as u128 {
            let ghost old_done = done@;
            let ghost old_cur = cur@;
            done.push(cur);
            cur = Vec::new();
            used = 1;
            proof {
                assert(lines_view(done@) =~= lines_view(old_done).push(line_view(old_cur)));
                assert(line_view(cur@) =~= Seq::<(int, Seq<char>)>::empty());
            }
            if len > 0 && s.get_char(0) == ' ' {
                let t = trim_start_str(s);
                let tl = t.unicode_len();
                if tl == 0 {
                    k = k + 1;
                    continue;
                }
                let ghost cur0 = cur@;
                cur.push(Placed { from: k, text: t.to_owned() });
                proof {
                    assert(line_view(cur@) =~= line_view(cur0).push((k as int, t@)));
                    assert(lines_view(done@).push(line_view(cur@)) =~= add_to_last(
                        lines_view(done@).push(line_view(cur0)),
                        (k as int, t@),
                    ));
                }
                used = 1 + tl as u128;
                k = k + 1;
                continue;
            }
        }
        let ghost cur0 = cur@;
        let ghost done0 = done@;
        cur.push(Placed { from: k, text: s.to_owned() });
        proof {
            assert(line_view(cur@) =~= line_view(cur0).push((k as int, s@)));
            assert(lines_view(done0).push(line_view(cur@)) =~= add_to_last(
                lines_view(done0).push(line_view(cur0)),
                (k as int, s@),
            ));
        }
        used = used + len as u128;
        k = k + 1;
    }
    let ghost done0 = done@;
    done.push(cur);
    proof {
        assert(ps.take(pieces.len() as int) =~= ps);
        assert(lines_view(done@) =~= lines_view(done0).push(line_view(cur@)));
    }
    done
}

} // verus!
