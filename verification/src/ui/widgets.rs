//! Small pure pieces of the boxes: which box has the focus, the process
//! view's selection state, and the words, labels and lines the boxes print.
use vstd::prelude::*;
use crate::config::{sort_text, Config};
use crate::format::{bytes_short, bytes_short_spec, quotient_tenths, quotient_tenths_exec};
use crate::snapshot::{FanMetric, MemorySnapshot, SocInfo, Thermal};
use crate::text::{decimal, push_char, push_decimal, push_str, push_tenths, str_eq, tenths, trim_spec, trim_str};
use crate::ui::layout::{Panel, Rect};

verus! {

/// What the keyboard acts on: a box, or the search field.
#[derive(Debug, Clone, Copy, PartialEq, Eq, Structural)]
pub enum Focus {
    Cpu,
    Gpu,
    Mem,
    Net,
    Disk,
    Fans,
    Search,
    Processes,
}

impl Default for Focus {
    fn default() -> (f: Self)
        ensures
            f == Focus::Processes,
    {
        Focus::Processes
    }
}

/// The box a focus belongs to (the search field belongs to the process
/// table).
pub open spec fn focus_panel(f: Focus) -> Panel {
    match f {
        Focus::Cpu => Panel::Cpu,
        Focus::Gpu => Panel::Gpu,
        Focus::Mem => Panel::Mem,
        Focus::Net => Panel::Net,
        Focus::Disk => Panel::Disk,
        Focus::Fans => Panel::Fans,
        Focus::Search | Focus::Processes => Panel::Processes,
    }
}

/// The focus on a box.
pub open spec fn panel_focus(p: Panel) -> Focus {
    match p {
        Panel::Cpu => Focus::Cpu,
        Panel::Gpu => Focus::Gpu,
        Panel::Mem => Focus::Mem,
        Panel::Net => Focus::Net,
        Panel::Disk => Focus::Disk,
        Panel::Fans => Focus::Fans,
        Panel::Processes => Focus::Processes,
    }
}

impl Focus {
    /// The box this focus belongs to.
    pub fn panel(self) -> (p: Panel)
        ensures
            p == focus_panel(self),
    {
        match self {
            Focus::Cpu => Panel::Cpu,
            Focus::Gpu => Panel::Gpu,
            Focus::Mem => Panel::Mem,
            Focus::Net => Panel::Net,
            Focus::Disk => Panel::Disk,
            Focus::Fans => Panel::Fans,
            Focus::Search | Focus::Processes => Panel::Processes,
        }
    }

    /// The focus on `panel`.
    pub fn from_panel(panel: Panel) -> (f: Focus)
        ensures
            f == panel_focus(panel),
    {
        match panel {
            Panel::Cpu => Focus::Cpu,
            Panel::Gpu => Focus::Gpu,
            Panel::Mem => Focus::Mem,
            Panel::Net => Focus::Net,
            Panel::Disk => Focus::Disk,
            Panel::Fans => Focus::Fans,
            Panel::Processes => Focus::Processes,
        }
    }
}

/// Focusing a box and asking which box has the focus gives that box back;
/// every focus but the search field comes from its own box.
pub proof fn law_focus_round_trips(panel: Panel, f: Focus)
    ensures
        focus_panel(panel_focus(panel)) == panel,
        f != Focus::Search ==> panel_focus(focus_panel(f)) == f,
{
}

/// The process table's selection (row and the pid on it) and filter text.
#[derive(Debug, Clone, PartialEq, Eq)]
pub struct ProcView {
    pub selected: usize,
    pub selected_pid: Option<u32>,
    pub filter: String,
}

impl Default for ProcView {
    fn default() -> (v: Self)
        ensures
            v.selected == 0 && v.selected_pid is None && v.filter@.len() == 0,
    {
        ProcView { selected: 0, selected_pid: None, filter: String::new() }
    }
}

/// The word for a thermal state.
pub open spec fn thermal_text(t: Thermal) -> Seq<char> {
    match t {
        Thermal::Nominal => "nominal"@,
        Thermal::Fair => "fair"@,
        Thermal::Serious => "serious"@,
        Thermal::Critical => "critical"@,
    }
}

/// The word for a thermal state.
pub fn thermal_word(thermal: Thermal) -> (s: &'static str)
    ensures
        s@ == thermal_text(thermal),
{
    match thermal {
        Thermal::Nominal => "nominal",
        Thermal::Fair => "fair",
        Thermal::Serious => "serious",
        Thermal::Critical => "critical",
    }
}

/// `rpm` followed by ` rpm`, for each fan, joined by two spaces.
pub open spec fn fan_speeds_text(fans: Seq<FanMetric>) -> Seq<char>
    decreases fans.len(),
{
    if fans.len() == 0 {
        Seq::empty()
    } else if fans.len() == 1 {
        decimal(fans[0].rpm as nat) + " rpm"@
    } else {
        fan_speeds_text(fans.drop_last()) + "  "@ + decimal(fans.last().rpm as nat) + " rpm"@
    }
}

/// Columns the fan speed line takes, with one to spare (0 without fans, or
/// if the line would not fit a `u16`).
pub open spec fn fan_speeds_width_spec(fans: Seq<FanMetric>) -> u16 {
    if fans.len() == 0 {
        0
    } else if fan_speeds_text(fans).len() + 1 <= u16::MAX {
        (fan_speeds_text(fans).len() + 1) as u16
    } else {
        0
    }
}

/// Columns the fan speed line takes, with one to spare.
pub fn fan_speeds_width(fans: &Vec<FanMetric>) -> (w: u16)
    ensures
        w == fan_speeds_width_spec(fans@),
{
    if fans.len() == 0 {
        return 0;
    }
    let mut text = String::new();
    let mut i: usize = 0;
    while i < fans.len()
        invariant
            0 < fans@.len(),
            i <= fans@.len(),
            i > 0 ==> text@ == fan_speeds_text(fans@.take(i as int)),
            i == 0 ==> text@.len() == 0,
        decreases fans@.len() - i,
    {
        let ghost prev = text@;
        if i > 0 {
            push_str(&mut text, "  ");
        }
        push_decimal(&mut text, fans[i].rpm as u128);
        push_str(&mut text, " rpm");
        proof {
            let t = fans@.take(i + 1);
            assert(t.drop_last() =~= fans@.take(i as int));
            assert(t.last() == fans@[i as int]);
            if i == 0 {
                assert(text@ =~= fan_speeds_text(t));
            } else {
                assert(text@ =~= fan_speeds_text(t));
            }
        }
        i = i + 1;
    }
    assert(fans@.take(i as int) =~= fans@);
    let n = text.unicode_len();
    if n < 65535 {
        (n + 1) as u16
    } else {
        0
    }
}

/// A clock speed: `MHz` below 1000, else `GHz` with one decimal.
pub open spec fn freq_text(mhz: u32) -> Seq<char> {
    if mhz >= 1000 {
        tenths(quotient_tenths(mhz as nat, 1000)) + "GHz"@
    } else {
        decimal(mhz as nat) + "MHz"@
    }
}

/// A clock speed in `MHz` or `GHz`.
pub fn freq_label(mhz: u32) -> (s: String)
    ensures
        s@ == freq_text(mhz),
{
    let mut s = String::new();
    if mhz >= 1000 {
        push_tenths(&mut s, quotient_tenths_exec(mhz as u128, 1000));
        push_str(&mut s, "GHz");
    } else {
        push_decimal(&mut s, mhz as u128);
        push_str(&mut s, "MHz");
    }
    s
}

/// The memory box's detail items: wired, compressed and cache sizes when
/// nonzero, and swap (used over total) when either is nonzero.
pub open spec fn spec_items_spec(mem: MemorySnapshot) -> Seq<Seq<char>> {
    let a: Seq<Seq<char>> = if mem.wired_bytes > 0 {
        seq!["wired "@ + bytes_short_spec(mem.wired_bytes as nat)]
    } else {
        Seq::empty()
    };
    let b = if mem.compressed_bytes > 0 {
        a.push("compr "@ + bytes_short_spec(mem.compressed_bytes as nat))
    } else {
        a
    };
    let c = if mem.cache_bytes > 0 {
        b.push("cache "@ + bytes_short_spec(mem.cache_bytes as nat))
    } else {
        b
    };
    if mem.swap_used_bytes > 0 || mem.swap_total_bytes > 0 {
        c.push("swap "@ + bytes_short_spec(mem.swap_used_bytes as nat) + " / "@ + bytes_short_spec(
            mem.swap_total_bytes as nat,
        ))
    } else {
        c
    }
}

fn labelled(label: &str, bytes: u64) -> (s: String)
    ensures
        s@ == label@ + bytes_short_spec(bytes as nat),
{
    let mut s = String::new();
    push_str(&mut s, label);
    let b = bytes_short(bytes);
    push_str(&mut s, b.as_str());
    s
}

/// The memory box's detail items.
pub fn spec_items(mem: &MemorySnapshot) -> (items: Vec<String>)
    ensures
        items@.len() == spec_items_spec(*mem).len(),
        forall|i: int| 0 <= i < items@.len() ==> #[trigger] items@[i]@ == spec_items_spec(*mem)[i],
{
    let mut items: Vec<String> = Vec::new();
    let ghost mut want: Seq<Seq<char>> = Seq::empty();
    if mem.wired_bytes > 0 {
        items.push(labelled("wired ", mem.wired_bytes));
        proof { want = want.push("wired "@ + bytes_short_spec(mem.wired_bytes as nat)); }
    }
    if mem.compressed_bytes > 0 {
        items.push(labelled("compr ", mem.compressed_bytes));
        proof { want = want.push("compr "@ + bytes_short_spec(mem.compressed_bytes as nat)); }
    }
    if mem.cache_bytes > 0 {
        items.push(labelled("cache ", mem.cache_bytes));
        proof { want = want.push("cache "@ + bytes_short_spec(mem.cache_bytes as nat)); }
    }
    if mem.swap_used_bytes > 0 || mem.swap_total_bytes > 0 {
        let mut s = labelled("swap ", mem.swap_used_bytes);
        push_str(&mut s, " / ");
        let t = bytes_short(mem.swap_total_bytes);
        push_str(&mut s, t.as_str());
        items.push(s);
        proof {
            want = want.push(
                "swap "@ + bytes_short_spec(mem.swap_used_bytes as nat) + " / "@ + bytes_short_spec(
                    mem.swap_total_bytes as nat,
                ),
            );
        }
    }
    assert(want =~= spec_items_spec(*mem));
    items
}

/// Whether a settings line is a section heading.
pub open spec fn is_section_spec(line: Seq<char>) -> bool {
    let t = trim_spec(line, false);
    t == "sampling"@ || t == "panes"@ || t == "processes"@
}

/// Whether a settings line is a section heading: `sampling`, `panes` or
/// `processes`, surrounding white space ignored.
pub fn is_section(line: &str) -> (r: bool)
    ensures
        r == is_section_spec(line@),
{
    let t = trim_str(line, false);
    str_eq(t, "sampling") || str_eq(t, "panes") || str_eq(t, "processes")
}

/// `on` or `off`.
pub fn on_off(on: bool) -> (s: &'static str)
    ensures
        s@ == (if on { "on"@ } else { "off"@ }),
{
    if on {
        "on"
    } else {
        "off"
    }
}

/// The help overlay's lines: a key, then what it does.
pub open spec fn help_spec() -> Seq<Seq<char>> {
    seq![
        "tab / shift-tab          move between boxes"@,
        "tab / ← →                related expand"@,
        "enter                    expand focused box"@,
        "esc                      close expand / help / search"@,
        "click ↗                  expand that box"@,
        "click a box              focus it"@,
        "drag the gutter          resize process column"@,
        "click ×                  back to home"@,
        "/                        search processes"@,
        "enter on a process       process details"@,
        "t / k / i                term / kill / interrupt in details"@,
        "x                        kill selected (then y/n)"@,
        "s                        settings (sampling, panes, processes)"@,
        "f                        pause live updates"@,
        "g / w                    glance / work"@,
        "q                        quit"@,
    ]
}

/// The lines of the help overlay.
pub fn help_lines() -> (r: Vec<&'static str>)
    ensures
        r@.len() == help_spec().len(),
        forall|i: int| 0 <= i < r@.len() ==> #[trigger] r@[i]@ == help_spec()[i],
{
    let mut v: Vec<&'static str> = Vec::new();
    v.push("tab / shift-tab          move between boxes");
    v.push("tab / ← →                related expand");
    v.push("enter                    expand focused box");
    v.push("esc                      close expand / help / search");
    v.push("click ↗                  expand that box");
    v.push("click a box              focus it");
    v.push("drag the gutter          resize process column");
    v.push("click ×                  back to home");
    v.push("/                        search processes");
    v.push("enter on a process       process details");
    v.push("t / k / i                term / kill / interrupt in details");
    v.push("x                        kill selected (then y/n)");
    v.push("s                        settings (sampling, panes, processes)");
    v.push("f                        pause live updates");
    v.push("g / w                    glance / work");
    v.push("q                        quit");
    v
}

/// `on` or `off` as text.
pub open spec fn on_off_text(on: bool) -> Seq<char> {
    if on { "on"@ } else { "off"@ }
}

/// The settings overlay's lines for preferences `c`, with the process
/// tree shown or not: three sections, each setting behind the digit that
/// toggles it.
pub open spec fn settings_spec(c: Config, show_tree: bool) -> Seq<Seq<char>> {
    seq![
        " sampling"@,
        "1  interval     "@ + decimal(c.interval as nat) + " ms   [ / ]  0.25 / 0.5 / 1 s"@,
        Seq::<char>::empty(),
        " panes"@,
        "2  gpu pane     "@ + on_off_text(c.show_gpu),
        "3  net pane     "@ + on_off_text(c.show_net),
        "5  disk pane    "@ + on_off_text(c.show_disk),
        "6  sensors      "@ + on_off_text(c.show_fans),
        "4  per-core     "@ + on_off_text(c.show_cores),
        Seq::<char>::empty(),
        " processes"@,
        "7  proc sort    "@ + sort_text(c.proc_sort),
        "8  threads col  "@ + on_off_text(c.show_threads),
        "9  proc tree    "@ + on_off_text(show_tree),
        Seq::<char>::empty(),
        " ↗ expands a box · click a process for details"@,
        " esc  close"@,
    ]
}

/// `head` followed by `tail`.
fn joined(head: &str, tail: &str) -> (s: String)
    ensures
        s@ == head@ + tail@,
{
    let mut s = String::new();
    push_str(&mut s, head);
    push_str(&mut s, tail);
    s
}

/// The lines of the settings overlay.
pub fn settings_lines(c: &Config, show_tree: bool) -> (r: Vec<String>)
    ensures
        r@.len() == settings_spec(*c, show_tree).len(),
        forall|i: int| 0 <= i < r@.len() ==> #[trigger] r@[i]@ == settings_spec(*c, show_tree)[i],
{
    let mut interval = String::new();
    push_str(&mut interval, "1  interval     ");
    push_decimal(&mut interval, c.interval as u128);
    push_str(&mut interval, " ms   [ / ]  0.25 / 0.5 / 1 s");
    let mut v: Vec<String> = Vec::new();
    v.push(joined(" sampling", ""));
    v.push(interval);
    v.push(String::new());
    v.push(joined(" panes", ""));
    v.push(joined("2  gpu pane     ", on_off(c.show_gpu)));
    v.push(joined("3  net pane     ", on_off(c.show_net)));
    v.push(joined("5  disk pane    ", on_off(c.show_disk)));
    v.push(joined("6  sensors      ", on_off(c.show_fans)));
    v.push(joined("4  per-core     ", on_off(c.show_cores)));
    v.push(String::new());
    v.push(joined(" processes", ""));
    let sort_label = c.proc_sort.label();
    v.push(joined("7  proc sort    ", sort_label));
    v.push(joined("8  threads col  ", on_off(c.show_threads)));
    v.push(joined("9  proc tree    ", on_off(show_tree)));
    v.push(String::new());
    v.push(joined(" ↗ expands a box · click a process for details", ""));
    v.push(joined(" esc  close", ""));
    proof {
        reveal_strlit("");
        let spec = settings_spec(*c, show_tree);
        assert(sort_text(c.proc_sort) == sort_label@) by {
            reveal_strlit("cpu");
            reveal_strlit("mem");
            reveal_strlit("pid");
        }
        assert forall|i: int| 0 <= i < v@.len() implies #[trigger] v@[i]@ == spec[i] by {
            assert(" sampling"@ + ""@ =~= " sampling"@);
            assert(" panes"@ + ""@ =~= " panes"@);
            assert(" processes"@ + ""@ =~= " processes"@);
            assert(" ↗ expands a box · click a process for details"@ + ""@
                =~= " ↗ expands a box · click a process for details"@);
            assert(" esc  close"@ + ""@ =~= " esc  close"@);
            assert(("1  interval     "@ + decimal(c.interval as nat)) + " ms   [ / ]  0.25 / 0.5 / 1 s"@
                =~= spec[1]);
        }
    }
    v
}

/// A `width` by `height` box centred in `area`, clipped to it.
pub open spec fn centered_spec(area: Rect, width: u16, height: u16) -> Rect {
    let dx: int = if area.width > width { (area.width - width) / 2 } else { 0 };
    let dy: int = if area.height > height { (area.height - height) / 2 } else { 0 };
    Rect {
        x: (area.x + dx) as u16,
        y: (area.y + dy) as u16,
        width: if width < area.width { width } else { area.width },
        height: if height < area.height { height } else { area.height },
    }
}

/// A `width` by `height` box centred in `area`, clipped to it.
pub fn centered(area: Rect, width: u16, height: u16) -> (r: Rect)
    requires
        area.x + (if area.width > width { (area.width - width) / 2 } else { 0 }) <= u16::MAX,
        area.y + (if area.height > height { (area.height - height) / 2 } else { 0 }) <= u16::MAX,
    ensures
        r == centered_spec(area, width, height),
{
    Rect {
        x: area.x + area.width.saturating_sub(width) / 2,
        y: area.y + area.height.saturating_sub(height) / 2,
        width: if width < area.width { width } else { area.width },
        height: if height < area.height { height } else { area.height },
    }
}

/// A centred box never reaches outside the area it is centred in.
pub proof fn law_centered_stays_inside(area: Rect, width: u16, height: u16)
    requires
        area.x + area.width <= u16::MAX,
        area.y + area.height <= u16::MAX,
    ensures
        ({
            let r = centered_spec(area, width, height);
            &&& area.x <= r.x && r.x + r.width <= area.x + area.width
            &&& area.y <= r.y && r.y + r.height <= area.y + area.height
        }),
{
}

/// The parts of a core count that are nonzero, as `4E`, `8P`, `2S`.
pub open spec fn core_parts(e: u8, p: u8, s: u8) -> Seq<Seq<char>> {
    (if e > 0 { seq![decimal(e as nat) + "E"@] } else { seq![] }) + (if p > 0 {
        seq![decimal(p as nat) + "P"@]
    } else {
        seq![]
    }) + (if s > 0 { seq![decimal(s as nat) + "S"@] } else { seq![] })
}

/// Parts joined with ` + `.
pub open spec fn join_plus(parts: Seq<Seq<char>>) -> Seq<char>
    decreases parts.len(),
{
    if parts.len() == 0 {
        seq![]
    } else if parts.len() == 1 {
        parts[0]
    } else {
        join_plus(parts.drop_last()) + " + "@ + parts.last()
    }
}

/// The identity lines of an expanded box: the chip's name when known, then
/// for the cpu its core mix, for the gpu its clock, the neural engine's
/// power (already formatted) and its core count.
pub open spec fn identity_spec(
    panel: Panel,
    soc: SocInfo,
    gpu_present: bool,
    gpu_mhz: Option<u32>,
    ane: Option<Seq<char>>,
) -> Seq<Seq<char>> {
    let name: Seq<Seq<char>> = if soc.name@.len() > 0 && soc.name@ != "unknown"@ { seq![soc.name@] } else { seq![] };
    let rest: Seq<Seq<char>> = match panel {
        Panel::Cpu => if soc.e_cores > 0 || soc.p_cores > 0 || soc.s_cores > 0 {
            seq![join_plus(core_parts(soc.e_cores, soc.p_cores, soc.s_cores))]
        } else {
            seq![]
        },
        Panel::Gpu => {
            let clock: Seq<Seq<char>> = match gpu_mhz {
                Some(m) if gpu_present && m > 0 => seq![freq_text(m)],
                _ => seq![],
            };
            let engine: Seq<Seq<char>> = match ane {
                Some(a) if gpu_present => seq!["ane "@ + a],
                _ => seq![],
            };
            let cores: Seq<Seq<char>> = if soc.gpu_cores > 0 { seq![decimal(soc.gpu_cores as nat) + "c"@] } else { seq![] };
            clock + engine + cores
        },
        _ => seq![],
    };
    name + rest
}

fn count_part(n: u8, letter: &str) -> (s: String)
    ensures
        s@ == decimal(n as nat) + letter@,
{
    let mut s = String::new();
    push_decimal(&mut s, n as u128);
    push_str(&mut s, letter);
    s
}

fn core_mix(e: u8, p: u8, s: u8) -> (r: String)
    ensures
        r@ == join_plus(core_parts(e, p, s)),
{
    let mut parts: Vec<String> = Vec::new();
    if e > 0 {
        parts.push(count_part(e, "E"));
    }
    if p > 0 {
        parts.push(count_part(p, "P"));
    }
    if s > 0 {
        parts.push(count_part(s, "S"));
    }
    let ghost want = core_parts(e, p, s);
    assert(parts@.map_values(|x: String| x@) =~= want);
    let mut r = String::new();
    let mut i: usize = 0;
    while i < parts.len()
        invariant
            i <= parts@.len(),
            parts@.map_values(|x: String| x@) == want,
            r@ == join_plus(want.take(i as int)),
        decreases parts@.len() - i,
    {
        assert(want[i as int] == parts@[i as int]@);
        if i > 0 {
            push_str(&mut r, " + ");
        }
        push_str(&mut r, parts[i].as_str());
        assert(want.take(i + 1).drop_last() =~= want.take(i as int));
        if i == 0 {
            assert(want.take(1) =~= seq![want[0]]);
        }
        i = i + 1;
    }
    assert(want.take(i as int) =~= want);
    r
}

/// The identity lines of an expanded box.
pub fn identity_lines(
    panel: Panel,
    soc: &SocInfo,
    gpu_present: bool,
    gpu_mhz: Option<u32>,
    ane: Option<String>,
) -> (lines: Vec<String>)
    ensures
        lines@.map_values(|x: String| x@) == identity_spec(
            panel,
            *soc,
            gpu_present,
            gpu_mhz,
            match ane {
                Some(a) => Some(a@),
                None => None,
            },
        ),
{
    let mut lines: Vec<String> = Vec::new();
    if soc.name.as_str().unicode_len() > 0 && !str_eq(soc.name.as_str(), "unknown") {
        lines.push(soc.name.clone());
    }
    match panel {
        Panel::Cpu => {
            if soc.e_cores > 0 || soc.p_cores > 0 || soc.s_cores > 0 {
                lines.push(core_mix(soc.e_cores, soc.p_cores, soc.s_cores));
            }
        },
        Panel::Gpu => {
            if gpu_present {
                if let Some(m) = gpu_mhz {
                    if m > 0 {
                        lines.push(freq_label(m));
                    }
                }
                if let Some(a) = ane {
                    let mut t = String::new();
                    push_str(&mut t, "ane ");
                    push_str(&mut t, a.as_str());
                    lines.push(t);
                }
            }
            if soc.gpu_cores > 0 {
                lines.push(count_part(soc.gpu_cores, "c"));
            }
        },
        _ => {},
    }
    assert(lines@.map_values(|x: String| x@) =~= identity_spec(
        panel,
        *soc,
        gpu_present,
        gpu_mhz,
        match ane {
            Some(a) => Some(a@),
            None => None,
        },
    ));
    lines
}

} // verus!
