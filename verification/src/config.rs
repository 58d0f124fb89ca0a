use vstd::prelude::*;
use crate::surface::Surface;
use crate::text::{
    digit_char, digits_value, all_digits, is_space, skip_trim, back_trim, unsigned_body,
    decimal, find_char_from, find_from, lemma_find_from, parse_unsigned, parse_unsigned_exec, push_decimal,
    push_str, str_eq, trim_spec, trim_str,
};

verus! {

/// Fastest sampling interval, in milliseconds.
pub const INTERVAL_FAST: u64 = 500;
/// Default sampling interval, in milliseconds.
pub const INTERVAL_DEFAULT: u64 = 1000;
/// Slowest sampling interval, in milliseconds.
pub const INTERVAL_SLOW: u64 = 2000;

/// Narrowest process column, in percent of the screen.
pub const PROC_RATIO_MIN: u16 = 35;
/// Widest process column, in percent of the screen.
pub const PROC_RATIO_MAX: u16 = 72;
/// Default process column width, in percent of the screen.
pub const PROC_RATIO_DEFAULT: u16 = 55;

/// Process table order.
#[derive(Debug, Clone, Copy, PartialEq, Eq, Structural)]
pub enum ProcSort {
    Cpu,
    Mem,
    Pid,
}

/// The next order in the cycle cpu -> mem -> pid -> cpu.
pub open spec fn next_sort(s: ProcSort) -> ProcSort {
    match s {
        ProcSort::Cpu => ProcSort::Mem,
        ProcSort::Mem => ProcSort::Pid,
        ProcSort::Pid => ProcSort::Cpu,
    }
}

impl ProcSort {
    /// The next order in the cycle cpu -> mem -> pid -> cpu.
    pub fn next(self) -> (r: Self)
        ensures
            r == next_sort(self),
    {
        match self {
            ProcSort::Cpu => ProcSort::Mem,
            ProcSort::Mem => ProcSort::Pid,
            ProcSort::Pid => ProcSort::Cpu,
        }
    }

    /// Short column label of the order.
    pub fn label(self) -> (s: &'static str)
        ensures
            self == ProcSort::Cpu ==> s@ == "cpu"@,
            self == ProcSort::Mem ==> s@ == "mem"@,
            self == ProcSort::Pid ==> s@ == "pid"@,
    {
        match self {
            ProcSort::Cpu => "cpu",
            ProcSort::Mem => "mem",
            ProcSort::Pid => "pid",
        }
    }
}

/// User preferences. `interval` is the sampling period in milliseconds.
#[derive(Debug, Clone, Copy, PartialEq, Eq, Structural)]
pub struct Config {
    pub interval: u64,
    pub surface: Option<Surface>,
    pub show_gpu: bool,
    pub show_net: bool,
    pub show_disk: bool,
    pub show_fans: bool,
    pub show_cores: bool,
    pub show_threads: bool,
    pub proc_sort: ProcSort,
    pub proc_ratio: u16,
}

/// The preferences a fresh install starts with.
pub open spec fn default_config() -> Config {
    Config {
        interval: INTERVAL_DEFAULT,
        surface: None,
        show_gpu: true,
        show_net: true,
        show_disk: false,
        show_fans: true,
        show_cores: true,
        show_threads: false,
        proc_sort: ProcSort::Cpu,
        proc_ratio: PROC_RATIO_DEFAULT,
    }
}

impl Default for Config {
    fn default() -> (c: Self)
        ensures
            c == default_config(),
    {
        Config {
            interval: INTERVAL_DEFAULT,
            surface: None,
            show_gpu: true,
            show_net: true,
            show_disk: false,
            show_fans: true,
            show_cores: true,
            show_threads: false,
            proc_sort: ProcSort::Cpu,
            proc_ratio: PROC_RATIO_DEFAULT,
        }
    }
}

/// The interval that follows `interval` in the cycle 0.5 s -> 1 s -> 2 s -> 0.5 s.
pub open spec fn next_interval(interval: u64) -> u64 {
    if interval <= INTERVAL_FAST {
        INTERVAL_DEFAULT
    } else if interval <= INTERVAL_DEFAULT {
        INTERVAL_SLOW
    } else {
        INTERVAL_FAST
    }
}

/// The sort order cycles through all three orders: three steps return to
/// the start, and no step stays put.
pub proof fn law_sort_cycle_returns(s: ProcSort)
    ensures
        next_sort(s) != s,
        next_sort(next_sort(s)) != s,
        next_sort(next_sort(next_sort(s))) == s,
{
}

/// Every step of the interval cycle lands on one of the three offered
/// intervals, and from an offered interval three steps return to it after
/// visiting the other two.
pub proof fn law_interval_cycle_returns(interval: u64)
    ensures
        next_interval(interval) == INTERVAL_FAST || next_interval(interval) == INTERVAL_DEFAULT
            || next_interval(interval) == INTERVAL_SLOW,
        interval == INTERVAL_FAST || interval == INTERVAL_DEFAULT || interval == INTERVAL_SLOW ==> {
            &&& next_interval(next_interval(next_interval(interval))) == interval
            &&& next_interval(interval) != interval
            &&& next_interval(next_interval(interval)) != interval
        },
{
}

impl Config {
    /// The sampling interval one step along the cycle.
    pub fn cycle_interval(&self) -> (r: u64)
        ensures
            r == next_interval(self.interval),
    {
        if self.interval <= INTERVAL_FAST {
            INTERVAL_DEFAULT
        } else if self.interval <= INTERVAL_DEFAULT {
            INTERVAL_SLOW
        } else {
            INTERVAL_FAST
        }
    }

    /// The same preferences with another sampling interval.
    pub fn with_interval(self, interval: u64) -> (c: Self)
        ensures
            c == (Config { interval, ..self }),
    {
        let mut c = self;
        c.interval = interval;
        c
    }
}

/// What `str::parse::<bool>` gives: only `true` and `false` are accepted.
pub open spec fn parse_bool(s: Seq<char>) -> Option<bool> {
    if s == "true"@ {
        Some(true)
    } else if s == "false"@ {
        Some(false)
    } else {
        None
    }
}

fn parse_bool_exec(s: &str) -> (r: Option<bool>)
    ensures
        r == parse_bool(s@),
{
    if str_eq(s, "true") {
        Some(true)
    } else if str_eq(s, "false") {
        Some(false)
    } else {
        None
    }
}

/// `ratio` clamped to the allowed process column widths.
pub open spec fn clamp_proc_ratio(ratio: nat) -> u16 {
    if ratio < PROC_RATIO_MIN {
        PROC_RATIO_MIN
    } else if ratio > PROC_RATIO_MAX {
        PROC_RATIO_MAX
    } else {
        ratio as u16
    }
}

/// One `key = value` setting applied to `cfg`. Unknown keys and values
/// that do not parse leave it unchanged; an interval other than 500, 1000
/// or 2000 ms is ignored; a process ratio is clamped into range.
pub open spec fn apply_spec(cfg: Config, key: Seq<char>, value: Seq<char>) -> Config {
    if key == "interval_ms"@ {
        match parse_unsigned(value, u64::MAX as nat) {
            Some(ms) => if ms == 500 || ms == 1000 || ms == 2000 {
                Config { interval: ms as u64, ..cfg }
            } else {
                cfg
            },
            None => cfg,
        }
    } else if key == "surface"@ {
        if value == "work"@ {
            Config { surface: Some(Surface::Work), ..cfg }
        } else if value == "glance"@ {
            Config { surface: Some(Surface::Glance), ..cfg }
        } else {
            cfg
        }
    } else if key == "show_gpu"@ {
        match parse_bool(value) {
            Some(b) => Config { show_gpu: b, ..cfg },
            None => cfg,
        }
    } else if key == "show_net"@ {
        match parse_bool(value) {
            Some(b) => Config { show_net: b, ..cfg },
            None => cfg,
        }
    } else if key == "show_disk"@ {
        match parse_bool(value) {
            Some(b) => Config { show_disk: b, ..cfg },
            None => cfg,
        }
    } else if key == "show_fans"@ {
        match parse_bool(value) {
            Some(b) => Config { show_fans: b, ..cfg },
            None => cfg,
        }
    } else if key == "show_cores"@ {
        match parse_bool(value) {
            Some(b) => Config { show_cores: b, ..cfg },
            None => cfg,
        }
    } else if key == "show_threads"@ {
        match parse_bool(value) {
            Some(b) => Config { show_threads: b, ..cfg },
            None => cfg,
        }
    } else if key == "sort"@ {
        if value == "cpu"@ {
            Config { proc_sort: ProcSort::Cpu, ..cfg }
        } else if value == "mem"@ {
            Config { proc_sort: ProcSort::Mem, ..cfg }
        } else if value == "pid"@ {
            Config { proc_sort: ProcSort::Pid, ..cfg }
        } else {
            cfg
        }
    } else if key == "proc_ratio"@ {
        match parse_unsigned(value, u16::MAX as nat) {
            Some(r) => Config { proc_ratio: clamp_proc_ratio(r), ..cfg },
            None => cfg,
        }
    } else {
        cfg
    }
}

/// A line without its final carriage return.
pub open spec fn strip_cr(line: Seq<char>) -> Seq<char> {
    if line.len() > 0 && line.last() == '\r' { line.drop_last() } else { line }
}

/// One line of a settings file applied to `cfg`: a line without `=` is
/// skipped; otherwise the key is what precedes the first `=`, trimmed, and
/// the value what follows it up to a `#`, trimmed of white space and then
/// of double quotes.
pub open spec fn parse_line(cfg: Config, line: Seq<char>) -> Config {
    let eq = find_from(line, '=', 0);
    if eq >= line.len() {
        cfg
    } else {
        let key = trim_spec(line.subrange(0, eq), false);
        let rest = line.subrange(eq + 1, line.len() as int);
        let value = trim_spec(trim_spec(rest.subrange(0, find_from(rest, '#', 0)), false), true);
        apply_spec(cfg, key, value)
    }
}

/// The lines of `text` (split at `\n`, a `\r` before it dropped, no empty
/// line after a final `\n`) applied in order to `cfg`.
pub open spec fn parse_text(cfg: Config, text: Seq<char>) -> Config
    decreases text.len(),
{
    if text.len() == 0 {
        cfg
    } else {
        let e = find_from(text, '\n', 0);
        if e >= text.len() {
            parse_line(cfg, text)
        } else {
            proof {
                lemma_find_from(text, '\n', 0);
            }
            parse_text(parse_line(cfg, strip_cr(text.subrange(0, e))), text.subrange(e + 1, text.len() as int))
        }
    }
}

/// The text of a boolean setting.
pub open spec fn bool_text(b: bool) -> Seq<char> {
    if b { "true"@ } else { "false"@ }
}

/// The name of a process order in a settings file.
pub open spec fn sort_text(sort: ProcSort) -> Seq<char> {
    match sort {
        ProcSort::Cpu => "cpu"@,
        ProcSort::Mem => "mem"@,
        ProcSort::Pid => "pid"@,
    }
}

/// The settings file written for `c`: its lines, each ended by a newline.
pub open spec fn render_spec(c: Config) -> Seq<char> {
    join_lines(render_lines(c))
}

/// Appends `key = value` and a newline.
fn push_word_line(s: &mut String, key: &str, value: &str)
    ensures
        final(s)@ == old(s)@ + (key@ + " = "@ + value@ + seq!['\n']),
{
    push_str(s, key);
    push_str(s, " = ");
    push_str(s, value);
    push_str(s, "\n");
    proof {
        reveal_strlit("\n");
    }
    assert(final(s)@ =~= old(s)@ + (key@ + " = "@ + value@ + seq!['\n']));
}

/// Appends `key = "value"` and a newline.
fn push_quoted_line(s: &mut String, key: &str, value: &str)
    ensures
        final(s)@ == old(s)@ + (key@ + " = "@ + (seq!['"'] + value@ + seq!['"']) + seq!['\n']),
{
    push_str(s, key);
    push_str(s, " = ");
    push_str(s, "\"");
    push_str(s, value);
    push_str(s, "\"");
    push_str(s, "\n");
    proof {
        reveal_strlit("\n");
        reveal_strlit("\"");
    }
    assert(final(s)@ =~= old(s)@ + (key@ + " = "@ + (seq!['"'] + value@ + seq!['"']) + seq!['\n']));
}

/// Appends `key = n` and a newline.
fn push_number_line(s: &mut String, key: &str, n: u64)
    ensures
        final(s)@ == old(s)@ + (key@ + " = "@ + decimal(n as nat) + seq!['\n']),
{
    push_str(s, key);
    push_str(s, " = ");
    push_decimal(s, n as u128);
    push_str(s, "\n");
    proof {
        reveal_strlit("\n");
    }
    assert(final(s)@ =~= old(s)@ + (key@ + " = "@ + decimal(n as nat) + seq!['\n']));
}

impl Config {
    /// Applies one `key = value` setting.
    pub fn apply(&mut self, key: &str, value: &str)
        ensures
            *final(self) == apply_spec(*old(self), key@, value@),
    {
        if str_eq(key, "interval_ms") {
            if let Some(ms) = parse_unsigned_exec(value, u64::MAX) {
                if ms == 500 || ms == 1000 || ms == 2000 {
                    self.interval = ms;
                }
            }
        } else if str_eq(key, "surface") {
            if str_eq(value, "work") {
                self.surface = Some(Surface::Work);
            } else if str_eq(value, "glance") {
                self.surface = Some(Surface::Glance);
            }
        } else if str_eq(key, "show_gpu") {
            if let Some(b) = parse_bool_exec(value) {
                self.show_gpu = b;
            }
        } else if str_eq(key, "show_net") {
            if let Some(b) = parse_bool_exec(value) {
                self.show_net = b;
            }
        } else if str_eq(key, "show_disk") {
            if let Some(b) = parse_bool_exec(value) {
                self.show_disk = b;
            }
        } else if str_eq(key, "show_fans") {
            if let Some(b) = parse_bool_exec(value) {
                self.show_fans = b;
            }
        } else if str_eq(key, "show_cores") {
            if let Some(b) = parse_bool_exec(value) {
                self.show_cores = b;
            }
        } else if str_eq(key, "show_threads") {
            if let Some(b) = parse_bool_exec(value) {
                self.show_threads = b;
            }
        } else if str_eq(key, "sort") {
            if str_eq(value, "cpu") {
                self.proc_sort = ProcSort::Cpu;
            } else if str_eq(value, "mem") {
                self.proc_sort = ProcSort::Mem;
            } else if str_eq(value, "pid") {
                self.proc_sort = ProcSort::Pid;
            }
        } else if str_eq(key, "proc_ratio") {
            if let Some(r) = parse_unsigned_exec(value, 65535) {
                let r = r as u16;
                self.proc_ratio = if r < PROC_RATIO_MIN {
                    PROC_RATIO_MIN
                } else if r > PROC_RATIO_MAX {
                    PROC_RATIO_MAX
                } else {
                    r
                };
            }
        }
    }

    /// Applies one line of a settings file.
    pub fn apply_line(&mut self, line: &str)
        ensures
            *final(self) == parse_line(*old(self), line@),
    {
        let n = line.unicode_len();
        let eq = find_char_from(line, '=', 0);
        if eq >= n {
            return;
        }
        let key = trim_str(line.substring_char(0, eq), false);
        let rest = line.substring_char(eq + 1, n);
        let hash = find_char_from(rest, '#', 0);
        let value = trim_str(trim_str(rest.substring_char(0, hash), false), true);
        self.apply(key, value);
    }

    /// The preferences a settings file describes, starting from the
    /// defaults: unknown keys are ignored and a value that does not parse
    /// leaves that setting at its default.
    pub fn from_text(text: &str) -> (c: Config)
        ensures
            c == parse_text(default_config(), text@),
    {
        let mut cfg = Config::default();
        let mut rest: &str = text;
        let mut n = rest.unicode_len();
        while n > 0
            invariant
                n == rest@.len(),
                parse_text(cfg, rest@) == parse_text(default_config(), text@),
            decreases n,
        {
            let e = find_char_from(rest, '\n', 0);
            if e >= n {
                cfg.apply_line(rest);
                rest = rest.substring_char(n, n);
                n = 0;
            } else {
                let mut line = rest.substring_char(0, e);
                if e > 0 && rest.get_char(e - 1) == '\r' {
                    line = rest.substring_char(0, e - 1);
                    assert(line@ =~= strip_cr(rest@.subrange(0, e as int)));
                } else {
                    assert(line@ =~= strip_cr(rest@.subrange(0, e as int)));
                }
                cfg.apply_line(line);
                rest = rest.substring_char(e + 1, n);
                n = n - e - 1;
            }
        }
        cfg
    }

    /// The settings file describing these preferences.
    pub fn to_text(&self) -> (s: String)
        ensures
            s@ == render_spec(*self),
    {
        let ghost ls = render_lines(*self);
        let mut s = String::new();
        assert(ls.take(0) =~= Seq::<Seq<char>>::empty());
        let ghost prev = s@;
        push_number_line(&mut s, "interval_ms", self.interval);
        proof { lemma_join_extend(ls, 0, prev, s@); }
        let ghost prev = s@;
        match self.surface {
            None => push_word_line(&mut s, "# surface", "work"),
            Some(Surface::Work) => push_quoted_line(&mut s, "surface", "work"),
            Some(Surface::Glance) => push_quoted_line(&mut s, "surface", "glance"),
        }
        proof { lemma_join_extend(ls, 1, prev, s@); }
        let ghost prev = s@;
        push_word_line(&mut s, "show_gpu", if self.show_gpu { "true" } else { "false" });
        proof { lemma_join_extend(ls, 2, prev, s@); }
        let ghost prev = s@;
        push_word_line(&mut s, "show_net", if self.show_net { "true" } else { "false" });
        proof { lemma_join_extend(ls, 3, prev, s@); }
        let ghost prev = s@;
        push_word_line(&mut s, "show_disk", if self.show_disk { "true" } else { "false" });
        proof { lemma_join_extend(ls, 4, prev, s@); }
        let ghost prev = s@;
        push_word_line(&mut s, "show_fans", if self.show_fans { "true" } else { "false" });
        proof { lemma_join_extend(ls, 5, prev, s@); }
        let ghost prev = s@;
        push_word_line(&mut s, "show_cores", if self.show_cores { "true" } else { "false" });
        proof { lemma_join_extend(ls, 6, prev, s@); }
        let ghost prev = s@;
        push_word_line(&mut s, "show_threads", if self.show_threads { "true" } else { "false" });
        proof { lemma_join_extend(ls, 7, prev, s@); }
        let ghost prev = s@;
        let sort: &str = match self.proc_sort {
            ProcSort::Cpu => "cpu",
            ProcSort::Mem => "mem",
            ProcSort::Pid => "pid",
        };
        push_quoted_line(&mut s, "sort", sort);
        proof { lemma_join_extend(ls, 8, prev, s@); }
        let ghost prev = s@;
        push_number_line(&mut s, "proc_ratio", self.proc_ratio as u64);
        proof { lemma_join_extend(ls, 9, prev, s@); }
        assert(ls.take(10) =~= ls);
        s
    }
}

/// Lines joined, each followed by a newline.
pub open spec fn join_lines(ls: Seq<Seq<char>>) -> Seq<char>
    decreases ls.len(),
{
    if ls.len() == 0 {
        Seq::empty()
    } else {
        ls[0] + seq!['\n'] + join_lines(ls.drop_first())
    }
}

/// Lines applied in order to `cfg`.
pub open spec fn apply_lines(cfg: Config, ls: Seq<Seq<char>>) -> Config
    decreases ls.len(),
{
    if ls.len() == 0 {
        cfg
    } else {
        apply_lines(parse_line(cfg, ls[0]), ls.drop_first())
    }
}

proof fn lemma_find_first(s: Seq<char>, c: char, i: int, j: int)
    requires
        0 <= i <= j <= s.len(),
        forall|k: int| i <= k < j ==> s[k] != c,
        j < s.len() ==> s[j] == c,
    ensures
        find_from(s, c, i) == j,
    decreases j - i,
{
    if i < j {
        lemma_find_first(s, c, i + 1, j);
    }
}

proof fn lemma_parse_joined(cfg: Config, ls: Seq<Seq<char>>)
    requires
        forall|i: int, k: int| 0 <= i < ls.len() && 0 <= k < ls[i].len() ==> #[trigger] ls[i][k] != '\n',
        forall|i: int| 0 <= i < ls.len() && #[trigger] ls[i].len() > 0 ==> ls[i].last() != '\r',
    ensures
        parse_text(cfg, join_lines(ls)) == apply_lines(cfg, ls),
    decreases ls.len(),
{
    if ls.len() > 0 {
        let l = ls[0];
        let rest = join_lines(ls.drop_first());
        let text = join_lines(ls);
        assert(text == l + seq!['\n'] + rest);
        assert forall|k: int| 0 <= k < l.len() implies text[k] != '\n' by {
            assert(text[k] == ls[0][k]);
        }
        lemma_find_first(text, '\n', 0, l.len() as int);
        assert(text.subrange(0, l.len() as int) =~= l);
        assert(text.subrange(l.len() as int + 1, text.len() as int) =~= rest);
        assert(strip_cr(l) == l);
        assert forall|i: int, k: int| 0 <= i < ls.drop_first().len() && 0 <= k < ls.drop_first()[i].len()
            implies #[trigger] ls.drop_first()[i][k] != '\n' by {
            assert(ls.drop_first()[i] == ls[i + 1]);
        }
        assert forall|i: int| 0 <= i < ls.drop_first().len() && #[trigger] ls.drop_first()[i].len() > 0
            implies ls.drop_first()[i].last() != '\r' by {
            assert(ls.drop_first()[i] == ls[i + 1]);
        }
        lemma_parse_joined(parse_line(cfg, l), ls.drop_first());
    }
}

/// A run without trimmable characters at its ends is unchanged by trimming.
proof fn lemma_trim_noop(s: Seq<char>, quotes: bool)
    requires
        s.len() > 0,
        !crate::text::trimmed_by(s[0], quotes),
        !crate::text::trimmed_by(s.last(), quotes),
    ensures
        crate::text::trim_spec(s, quotes) == s,
{
    assert(skip_trim(s, quotes, 0) == 0);
    assert(back_trim(s, quotes, 0, s.len() as int) == s.len());
    assert(s.subrange(0, s.len() as int) =~= s);
}

/// A `key = value` line sets what `apply_spec` says for that key and value.
proof fn lemma_setting_line(cfg: Config, key: Seq<char>, value: Seq<char>)
    requires
        key.len() > 0,
        value.len() > 0,
        forall|k: int| 0 <= k < key.len() ==> key[k] != '=',
        forall|k: int| 0 <= k < value.len() ==> value[k] != '#',
        !is_space(key[0]),
        !is_space(key.last()),
        !is_space(value[0]),
        !is_space(value.last()),
    ensures
        parse_line(cfg, key + " = "@ + value) == apply_spec(cfg, key, trim_spec(value, true)),
{
    reveal_strlit(" = ");
    let line = key + " = "@ + value;
    let n = key.len() as int;
    assert forall|k: int| 0 <= k < n + 1 implies line[k] != '=' by {
        if k < n {
            assert(line[k] == key[k]);
        }
    }
    lemma_find_first(line, '=', 0, n + 1);
    let head = line.subrange(0, n + 1);
    assert(head =~= key.push(' '));
    assert(skip_trim(head, false, 0) == 0);
    assert(back_trim(head, false, 0, n + 1) == back_trim(head, false, 0, n));
    assert(back_trim(head, false, 0, n) == n);
    assert(head.subrange(0, n) =~= key);
    let rest = line.subrange(n + 2, line.len() as int);
    assert(rest =~= seq![' '] + value);
    assert forall|k: int| 0 <= k < rest.len() implies rest[k] != '#' by {
        if k > 0 {
            assert(rest[k] == value[k - 1]);
        }
    }
    lemma_find_first(rest, '#', 0, rest.len() as int);
    assert(rest.subrange(0, rest.len() as int) =~= rest);
    assert(skip_trim(rest, false, 0) == skip_trim(rest, false, 1));
    assert(skip_trim(rest, false, 1) == 1);
    assert(back_trim(rest, false, 1, rest.len() as int) == rest.len());
    assert(rest.subrange(1, rest.len() as int) =~= value);
}

proof fn lemma_digit_char(d: nat)
    requires
        d < 10,
    ensures
        digit_char(d) as nat == d + 48,
        crate::text::is_digit(digit_char(d)),
{
    assert(((d + 48) as u8) as char as nat == d + 48);
}

/// A decimal number is a run of digits that reads back as the number.
pub proof fn lemma_decimal_reads_back(n: nat)
    ensures
        decimal(n).len() > 0,
        all_digits(decimal(n)),
        digits_value(decimal(n)) == n,
    decreases n,
{
    if n >= 10 {
        lemma_decimal_reads_back(n / 10);
        lemma_digit_char(n % 10);
        let d = decimal(n);
        assert(d.drop_last() =~= decimal(n / 10));
        assert forall|k: int| 0 <= k < d.len() implies crate::text::is_digit(#[trigger] d[k]) by {
            if k < d.len() - 1 {
                assert(d[k] == decimal(n / 10)[k]);
            }
        }
        assert(d.last() == digit_char((n % 10) as nat));
        assert(digits_value(d) == digits_value(decimal(n / 10)) * 10 + n % 10);
        assert(n == (n / 10) * 10 + n % 10);
    } else {
        lemma_digit_char(n);
        let d = decimal(n);
        assert(d =~= seq![digit_char(n)]);
        assert(d.drop_last() =~= Seq::<char>::empty());
        assert(digits_value(d.drop_last()) == 0);
        assert(d.last() as nat - 48 == n);
    }
}

/// A setting name that survives trimming and holds no `=` or newline.
pub open spec fn key_ok(key: Seq<char>) -> bool {
    &&& key.len() > 0
    &&& forall|k: int| 0 <= k < key.len() ==> key[k] != '=' && key[k] != '\n'
    &&& !is_space(key[0])
    &&& !is_space(key.last())
}

/// A `key = number` line holds no newline, and sets the number.
proof fn lemma_number_line(cfg: Config, key: Seq<char>, n: nat)
    requires
        key_ok(key),
    ensures
        parse_line(cfg, key + " = "@ + decimal(n)) == apply_spec(cfg, key, decimal(n)),
        forall|k: int| 0 <= k < (key + " = "@ + decimal(n)).len() ==> (key + " = "@ + decimal(n))[k] != '\n',
        (key + " = "@ + decimal(n)).last() != '\r',
        parse_unsigned(decimal(n), u64::MAX as nat) == (if n <= u64::MAX { Some(n) } else { None::<nat> }),
        parse_unsigned(decimal(n), u16::MAX as nat) == (if n <= u16::MAX { Some(n) } else { None::<nat> }),
{
    reveal_strlit(" = ");
    lemma_decimal_reads_back(n);
    let v = decimal(n);
    assert(crate::text::is_digit(v[0]));
    assert(crate::text::is_digit(v.last()));
    assert forall|k: int| 0 <= k < v.len() implies v[k] != '#' && v[k] != '\n' by {
        assert(crate::text::is_digit(v[k]));
    }
    lemma_setting_line(cfg, key, v);
    lemma_trim_noop(v, true);
    let line = key + " = "@ + v;
    assert forall|k: int| 0 <= k < line.len() implies line[k] != '\n' by {
        if k < key.len() {
            assert(line[k] == key[k]);
        } else if k >= key.len() + 3 {
            assert(line[k] == v[k - key.len() - 3]);
        }
    }
    assert(line.last() == v.last());
    assert(unsigned_body(v) == v);
}

/// A `key = word` line holds no newline, and sets the word with any
/// surrounding double quotes removed.
proof fn lemma_word_line(cfg: Config, key: Seq<char>, value: Seq<char>)
    requires
        key_ok(key),
        word_ok(value),
    ensures
        parse_line(cfg, key + " = "@ + value) == apply_spec(cfg, key, trim_spec(value, true)),
        forall|k: int| 0 <= k < (key + " = "@ + value).len() ==> (key + " = "@ + value)[k] != '\n',
        (key + " = "@ + value).last() != '\r',
{
    reveal_strlit(" = ");
    lemma_setting_line(cfg, key, value);
    let line = key + " = "@ + value;
    assert forall|k: int| 0 <= k < line.len() implies line[k] != '\n' by {
        if k < key.len() {
            assert(line[k] == key[k]);
        } else if k >= key.len() + 3 {
            assert(line[k] == value[k - key.len() - 3]);
        }
    }
    assert(line.last() == value.last());
}

proof fn lemma_bool_line(cfg: Config, key: Seq<char>, b: bool)
    requires
        key_ok(key),
    ensures
        parse_line(cfg, key + " = "@ + bool_text(b)) == apply_spec(cfg, key, bool_text(b)),
        forall|k: int| 0 <= k < (key + " = "@ + bool_text(b)).len() ==> (key + " = "@ + bool_text(b))[k] != '\n',
        (key + " = "@ + bool_text(b)).last() != '\r',
        parse_bool(bool_text(b)) == Some(b),
{
    reveal_strlit("true");
    reveal_strlit("false");
    let v = bool_text(b);
    lemma_word_line(cfg, key, v);
    lemma_trim_noop(v, true);
}

/// A word in double quotes loses exactly the quotes when trimmed of them.
proof fn lemma_unquote(w: Seq<char>)
    requires
        w.len() > 0,
        w[0] != '"',
        w.last() != '"',
    ensures
        trim_spec(seq!['"'] + w + seq!['"'], true) == w,
{
    let q = seq!['"'] + w + seq!['"'];
    let n = q.len() as int;
    assert(skip_trim(q, true, 0) == skip_trim(q, true, 1));
    assert(q[1] == w[0]);
    assert(skip_trim(q, true, 1) == 1);
    assert(back_trim(q, true, 1, n) == back_trim(q, true, 1, n - 1));
    assert(q[n - 2] == w.last());
    assert(back_trim(q, true, 1, n - 1) == n - 1);
    assert(q.subrange(1, n - 1) =~= w);
}

/// The text after `key = ` on the surface line.
pub open spec fn surface_value(surface: Option<Surface>) -> Seq<char> {
    match surface {
        None => "work"@,
        Some(Surface::Work) => seq!['"'] + "work"@ + seq!['"'],
        Some(Surface::Glance) => seq!['"'] + "glance"@ + seq!['"'],
    }
}

/// The lines of the settings file written for `c`, without newlines.
pub open spec fn render_lines(c: Config) -> Seq<Seq<char>> {
    let sep = " = "@;
    seq![
        "interval_ms"@ + sep + decimal(c.interval as nat),
        (if c.surface is None { "# surface"@ } else { "surface"@ }) + sep + surface_value(c.surface),
        "show_gpu"@ + sep + bool_text(c.show_gpu),
        "show_net"@ + sep + bool_text(c.show_net),
        "show_disk"@ + sep + bool_text(c.show_disk),
        "show_fans"@ + sep + bool_text(c.show_fans),
        "show_cores"@ + sep + bool_text(c.show_cores),
        "show_threads"@ + sep + bool_text(c.show_threads),
        "sort"@ + sep + (seq!['"'] + sort_text(c.proc_sort) + seq!['"']),
        "proc_ratio"@ + sep + decimal(c.proc_ratio as nat),
    ]
}

proof fn lemma_join_push(ls: Seq<Seq<char>>, x: Seq<char>)
    ensures
        join_lines(ls.push(x)) == join_lines(ls) + x + seq!['\n'],
    decreases ls.len(),
{
    if ls.len() == 0 {
        assert(ls.push(x).drop_first() =~= Seq::<Seq<char>>::empty());
        assert(ls.push(x)[0] == x);
        assert(join_lines(Seq::<Seq<char>>::empty()) == Seq::<char>::empty());
        assert(join_lines(ls.push(x)) =~= x + seq!['\n']);
    } else {
        assert(ls.push(x).drop_first() =~= ls.drop_first().push(x));
        lemma_join_push(ls.drop_first(), x);
        assert(join_lines(ls.push(x)) =~= join_lines(ls) + x + seq!['\n']);
    }
}

proof fn lemma_join_extend(ls: Seq<Seq<char>>, k: int, prev: Seq<char>, now: Seq<char>)
    requires
        0 <= k < ls.len(),
        prev == join_lines(ls.take(k)),
        now == prev + (ls[k] + seq!['\n']),
    ensures
        now == join_lines(ls.take(k + 1)),
{
    lemma_join_step(ls, k, prev, ls[k] + seq!['\n']);
}

proof fn lemma_join_step(ls: Seq<Seq<char>>, k: int, prefix: Seq<char>, piece: Seq<char>)
    requires
        0 <= k < ls.len(),
        prefix == join_lines(ls.take(k)),
        piece == ls[k] + seq!['\n'],
    ensures
        prefix + piece == join_lines(ls.take(k + 1)),
{
    assert(ls.take(k).push(ls[k]) =~= ls.take(k + 1));
    lemma_join_push(ls.take(k), ls[k]);
    assert(prefix + piece =~= join_lines(ls.take(k)) + ls[k] + seq!['\n']);
}

/// A setting value that survives white-space trimming and holds no `#`
/// or newline.
pub open spec fn word_ok(value: Seq<char>) -> bool {
    &&& value.len() > 0
    &&& forall|k: int| 0 <= k < value.len() ==> value[k] != '#' && value[k] != '\n'
    &&& !is_space(value[0])
    &&& !is_space(value.last())
    &&& value.last() != '\r'
}

/// The values a settings file uses.
proof fn lemma_words(sort: ProcSort)
    ensures
        word_ok("work"@),
        word_ok(seq!['"'] + "work"@ + seq!['"']),
        word_ok(seq!['"'] + "glance"@ + seq!['"']),
        word_ok(seq!['"'] + sort_text(sort) + seq!['"']),
        word_ok("true"@),
        word_ok("false"@),
{
    reveal_strlit("work");
    reveal_strlit("glance");
    reveal_strlit("cpu");
    reveal_strlit("mem");
    reveal_strlit("pid");
    reveal_strlit("true");
    reveal_strlit("false");
    let q = seq!['"'] + sort_text(sort) + seq!['"'];
    assert(q.len() == 5);
    assert forall|k: int| 0 <= k < q.len() implies q[k] != '#' && q[k] != '\n' by {
        if 0 < k < 4 {
            assert(q[k] == sort_text(sort)[k - 1]);
        }
    }
    let w = seq!['"'] + "work"@ + seq!['"'];
    assert forall|k: int| 0 <= k < w.len() implies w[k] != '#' && w[k] != '\n' by {
        if 0 < k < 5 {
            assert(w[k] == "work"@[k - 1]);
        }
    }
    let g = seq!['"'] + "glance"@ + seq!['"'];
    assert forall|k: int| 0 <= k < g.len() implies g[k] != '#' && g[k] != '\n' by {
        if 0 < k < 7 {
            assert(g[k] == "glance"@[k - 1]);
        }
    }
}

/// The setting names a settings file uses.
proof fn lemma_keys_ok()
    ensures
        key_ok("interval_ms"@),
        key_ok("# surface"@),
        key_ok("surface"@),
        key_ok("show_gpu"@),
        key_ok("show_net"@),
        key_ok("show_disk"@),
        key_ok("show_fans"@),
        key_ok("show_cores"@),
        key_ok("show_threads"@),
        key_ok("sort"@),
        key_ok("proc_ratio"@),
{
    reveal_strlit("interval_ms");
    reveal_strlit("# surface");
    reveal_strlit("surface");
    reveal_strlit("show_gpu");
    reveal_strlit("show_net");
    reveal_strlit("show_disk");
    reveal_strlit("show_fans");
    reveal_strlit("show_cores");
    reveal_strlit("show_threads");
    reveal_strlit("sort");
    reveal_strlit("proc_ratio");
}

/// The setting names differ from one another, and so do the words.
proof fn lemma_keys()
    ensures
        "# surface"@ != "interval_ms"@ && "# surface"@ != "surface"@ && "# surface"@ != "show_gpu"@
            && "# surface"@ != "show_net"@ && "# surface"@ != "show_disk"@ && "# surface"@ != "show_fans"@
            && "# surface"@ != "show_cores"@ && "# surface"@ != "show_threads"@ && "# surface"@ != "sort"@
            && "# surface"@ != "proc_ratio"@,
        "surface"@ != "interval_ms"@,
        "show_gpu"@ != "interval_ms"@ && "show_gpu"@ != "surface"@,
        "show_net"@ != "interval_ms"@ && "show_net"@ != "surface"@ && "show_net"@ != "show_gpu"@,
        "show_disk"@ != "interval_ms"@ && "show_disk"@ != "surface"@ && "show_disk"@ != "show_gpu"@
            && "show_disk"@ != "show_net"@,
        "show_fans"@ != "interval_ms"@ && "show_fans"@ != "surface"@ && "show_fans"@ != "show_gpu"@
            && "show_fans"@ != "show_net"@ && "show_fans"@ != "show_disk"@,
        "show_cores"@ != "interval_ms"@ && "show_cores"@ != "surface"@ && "show_cores"@ != "show_gpu"@
            && "show_cores"@ != "show_net"@ && "show_cores"@ != "show_disk"@ && "show_cores"@ != "show_fans"@,
        "show_threads"@ != "interval_ms"@ && "show_threads"@ != "surface"@ && "show_threads"@ != "show_gpu"@
            && "show_threads"@ != "show_net"@ && "show_threads"@ != "show_disk"@ && "show_threads"@
            != "show_fans"@ && "show_threads"@ != "show_cores"@,
        "sort"@ != "interval_ms"@ && "sort"@ != "surface"@ && "sort"@ != "show_gpu"@ && "sort"@
            != "show_net"@ && "sort"@ != "show_disk"@ && "sort"@ != "show_fans"@ && "sort"@ != "show_cores"@
            && "sort"@ != "show_threads"@,
        "proc_ratio"@ != "interval_ms"@ && "proc_ratio"@ != "surface"@ && "proc_ratio"@ != "show_gpu"@
            && "proc_ratio"@ != "show_net"@ && "proc_ratio"@ != "show_disk"@ && "proc_ratio"@ != "show_fans"@
            && "proc_ratio"@ != "show_cores"@ && "proc_ratio"@ != "show_threads"@ && "proc_ratio"@ != "sort"@,
        "glance"@ != "work"@,
        "mem"@ != "cpu"@ && "pid"@ != "cpu"@ && "pid"@ != "mem"@,
        "cpu"@.len() > 0 && "cpu"@[0] != '"' && "cpu"@.last() != '"',
        "mem"@.len() > 0 && "mem"@[0] != '"' && "mem"@.last() != '"',
        "pid"@.len() > 0 && "pid"@[0] != '"' && "pid"@.last() != '"',
        "work"@.len() > 0 && "work"@[0] != '"' && "work"@.last() != '"',
        "glance"@.len() > 0 && "glance"@[0] != '"' && "glance"@.last() != '"',
{
    reveal_strlit("interval_ms");
    reveal_strlit("# surface");
    reveal_strlit("surface");
    reveal_strlit("show_gpu");
    reveal_strlit("show_net");
    reveal_strlit("show_disk");
    reveal_strlit("show_fans");
    reveal_strlit("show_cores");
    reveal_strlit("show_threads");
    reveal_strlit("sort");
    reveal_strlit("proc_ratio");
    reveal_strlit("work");
    reveal_strlit("glance");
    reveal_strlit("cpu");
    reveal_strlit("mem");
    reveal_strlit("pid");
    assert("interval_ms"@.len() == 11);
    assert("# surface"@.len() == 9);
    assert("surface"@.len() == 7);
    assert("show_gpu"@.len() == 8);
    assert("show_net"@.len() == 8);
    assert("show_disk"@.len() == 9);
    assert("show_fans"@.len() == 9);
    assert("show_cores"@.len() == 10);
    assert("show_threads"@.len() == 12);
    assert("sort"@.len() == 4);
    assert("proc_ratio"@.len() == 10);
    assert("show_net"@[5] != "show_gpu"@[5]);
    assert("show_fans"@[5] != "show_disk"@[5]);
    assert("# surface"@[0] != "show_disk"@[0]);
    assert("# surface"@[0] != "show_fans"@[0]);
    assert("proc_ratio"@[0] != "show_cores"@[0]);
    assert("mem"@[0] != "cpu"@[0]);
    assert("pid"@[0] != "cpu"@[0]);
    assert("pid"@[0] != "mem"@[0]);
    assert("glance"@.len() != "work"@.len());
}

/// A line holds no newline and does not end in a carriage return.
pub open spec fn line_clean(l: Seq<char>) -> bool {
    &&& forall|k: int| 0 <= k < l.len() ==> l[k] != '\n'
    &&& l.last() != '\r'
}

proof fn lemma_line_interval(cfg: Config, c: Config)
    requires
        c.interval == INTERVAL_FAST || c.interval == INTERVAL_DEFAULT || c.interval == INTERVAL_SLOW,
    ensures
        parse_line(cfg, render_lines(c)[0]) == (Config { interval: c.interval, ..cfg }),
        line_clean(render_lines(c)[0]),
{
    lemma_keys_ok();
    lemma_keys();
    lemma_number_line(cfg, "interval_ms"@, c.interval as nat);
}

proof fn lemma_line_surface(cfg: Config, c: Config)
    requires
        cfg.surface is None,
    ensures
        parse_line(cfg, render_lines(c)[1]) == (Config { surface: c.surface, ..cfg }),
        line_clean(render_lines(c)[1]),
{
    lemma_keys_ok();
    lemma_keys();
    lemma_words(c.proc_sort);
    let skey = if c.surface is None { "# surface"@ } else { "surface"@ };
    let sval = surface_value(c.surface);
    lemma_word_line(cfg, skey, sval);
    match c.surface {
        None => {
            reveal_strlit("work");
            lemma_trim_noop(sval, true);
        },
        Some(Surface::Work) => {
            lemma_unquote("work"@);
        },
        Some(Surface::Glance) => {
            lemma_unquote("glance"@);
        },
    }
}

proof fn lemma_line_bools(cfg: Config, c: Config)
    ensures
        parse_line(cfg, render_lines(c)[2]) == (Config { show_gpu: c.show_gpu, ..cfg }),
        parse_line(cfg, render_lines(c)[3]) == (Config { show_net: c.show_net, ..cfg }),
        parse_line(cfg, render_lines(c)[4]) == (Config { show_disk: c.show_disk, ..cfg }),
        line_clean(render_lines(c)[2]),
        line_clean(render_lines(c)[3]),
        line_clean(render_lines(c)[4]),
{
    lemma_keys_ok();
    lemma_keys();
    lemma_bool_line(cfg, "show_gpu"@, c.show_gpu);
    lemma_bool_line(cfg, "show_net"@, c.show_net);
    lemma_bool_line(cfg, "show_disk"@, c.show_disk);
}

proof fn lemma_line_more_bools(cfg: Config, c: Config)
    ensures
        parse_line(cfg, render_lines(c)[5]) == (Config { show_fans: c.show_fans, ..cfg }),
        parse_line(cfg, render_lines(c)[6]) == (Config { show_cores: c.show_cores, ..cfg }),
        parse_line(cfg, render_lines(c)[7]) == (Config { show_threads: c.show_threads, ..cfg }),
        line_clean(render_lines(c)[5]),
        line_clean(render_lines(c)[6]),
        line_clean(render_lines(c)[7]),
{
    lemma_keys_ok();
    lemma_keys();
    lemma_bool_line(cfg, "show_fans"@, c.show_fans);
    lemma_bool_line(cfg, "show_cores"@, c.show_cores);
    lemma_bool_line(cfg, "show_threads"@, c.show_threads);
}

proof fn lemma_line_sort(cfg: Config, c: Config)
    ensures
        parse_line(cfg, render_lines(c)[8]) == (Config { proc_sort: c.proc_sort, ..cfg }),
        line_clean(render_lines(c)[8]),
{
    lemma_keys_ok();
    lemma_keys();
    lemma_words(c.proc_sort);
    let st = sort_text(c.proc_sort);
    lemma_word_line(cfg, "sort"@, seq!['"'] + st + seq!['"']);
    lemma_unquote(st);
}

proof fn lemma_line_ratio(cfg: Config, c: Config)
    requires
        PROC_RATIO_MIN <= c.proc_ratio <= PROC_RATIO_MAX,
    ensures
        parse_line(cfg, render_lines(c)[9]) == (Config { proc_ratio: c.proc_ratio, ..cfg }),
        line_clean(render_lines(c)[9]),
{
    lemma_keys_ok();
    lemma_keys();
    lemma_number_line(cfg, "proc_ratio"@, c.proc_ratio as nat);
}

proof fn lemma_apply_step(cfg: Config, ls: Seq<Seq<char>>, k: int)
    requires
        0 <= k < ls.len(),
    ensures
        apply_lines(cfg, ls.subrange(k, ls.len() as int)) == apply_lines(
            parse_line(cfg, ls[k]),
            ls.subrange(k + 1, ls.len() as int),
        ),
{
    let t = ls.subrange(k, ls.len() as int);
    assert(t[0] == ls[k]);
    assert(t.drop_first() =~= ls.subrange(k + 1, ls.len() as int));
}

proof fn lemma_apply_render_lines(c: Config)
    requires
        c.interval == INTERVAL_FAST || c.interval == INTERVAL_DEFAULT || c.interval == INTERVAL_SLOW,
        PROC_RATIO_MIN <= c.proc_ratio <= PROC_RATIO_MAX,
    ensures
        apply_lines(default_config(), render_lines(c)) == c,
        forall|i: int| 0 <= i < render_lines(c).len() ==> #[trigger] line_clean(render_lines(c)[i]),
{
    let ls = render_lines(c);
    let c0 = default_config();
    assert(ls.subrange(0, 10) =~= ls);
    lemma_line_interval(c0, c);
    lemma_apply_step(c0, ls, 0);
    let c1 = Config { interval: c.interval, ..c0 };
    lemma_line_surface(c1, c);
    lemma_apply_step(c1, ls, 1);
    let c2 = Config { surface: c.surface, ..c1 };
    assert(parse_line(c1, ls[1]) == c2);
    lemma_line_bools(c2, c);
    lemma_apply_step(c2, ls, 2);
    let c3 = Config { show_gpu: c.show_gpu, ..c2 };
    lemma_line_bools(c3, c);
    lemma_apply_step(c3, ls, 3);
    let c4 = Config { show_net: c.show_net, ..c3 };
    lemma_line_bools(c4, c);
    lemma_apply_step(c4, ls, 4);
    let c5 = Config { show_disk: c.show_disk, ..c4 };
    lemma_line_more_bools(c5, c);
    lemma_apply_step(c5, ls, 5);
    let c6 = Config { show_fans: c.show_fans, ..c5 };
    lemma_line_more_bools(c6, c);
    lemma_apply_step(c6, ls, 6);
    let c7 = Config { show_cores: c.show_cores, ..c6 };
    lemma_line_more_bools(c7, c);
    lemma_apply_step(c7, ls, 7);
    let c8 = Config { show_threads: c.show_threads, ..c7 };
    lemma_line_sort(c8, c);
    lemma_apply_step(c8, ls, 8);
    let c9 = Config { proc_sort: c.proc_sort, ..c8 };
    lemma_line_ratio(c9, c);
    lemma_apply_step(c9, ls, 9);
    assert(ls.subrange(10, 10) =~= Seq::<Seq<char>>::empty());
    assert(apply_lines(c, ls.subrange(10, 10)) == c);
    assert forall|i: int| 0 <= i < ls.len() implies #[trigger] line_clean(ls[i]) by {
        if i == 0 {
        } else if i == 1 {
        } else if i < 5 {
        } else if i < 8 {
        } else if i == 8 {
        } else {
        }
    }
}

/// Saving preferences and loading the file back gives the same
/// preferences, whenever the interval is one of the three offered and the
/// process ratio is within its range.
pub proof fn law_saved_settings_load_back(c: Config)
    requires
        c.interval == INTERVAL_FAST || c.interval == INTERVAL_DEFAULT || c.interval == INTERVAL_SLOW,
        PROC_RATIO_MIN <= c.proc_ratio <= PROC_RATIO_MAX,
    ensures
        parse_text(default_config(), render_spec(c)) == c,
{
    lemma_apply_render_lines(c);
    let ls = render_lines(c);
    assert forall|i: int, k: int| 0 <= i < ls.len() && 0 <= k < ls[i].len() implies #[trigger] ls[i][k]
        != '\n' by {
        assert(line_clean(ls[i]));
    }
    assert forall|i: int| 0 <= i < ls.len() && #[trigger] ls[i].len() > 0 implies ls[i].last() != '\r' by {
        assert(line_clean(ls[i]));
    }
    lemma_parse_joined(default_config(), ls);
}

} // verus!
