use vstd::prelude::*;

verus! {

/// The ASCII digit for `d` (0..=9).
pub open spec fn digit_char(d: nat) -> char {
    ((d + 48) as u8) as char
}

/// Decimal representation of `n`, most significant digit first, no leading zeros.
pub open spec fn decimal(n: nat) -> Seq<char>
    decreases n,
{
    if n < 10 {
        seq![digit_char(n)]
    } else {
        decimal(n / 10).push(digit_char(n % 10))
    }
}

/// A count of tenths written with exactly one decimal place (`123` -> `12.3`).
pub open spec fn tenths(t: nat) -> Seq<char> {
    decimal(t / 10) + seq!['.', digit_char(t % 10)]
}

/// Appends one character; `String::push` from std.
#[verifier::external_body]
pub(crate) fn push_char(s: &mut String, c: char)
    ensures
        final(s)@ == old(s)@.push(c),
{
    s.push(c);
}

/// Removes and returns the last character, if any; `String::pop` from std.
#[verifier::external_body]
pub(crate) fn pop_char(s: &mut String) -> (r: Option<char>)
    ensures
        old(s)@.len() == 0 ==> r is None && final(s)@ == old(s)@,
        old(s)@.len() > 0 ==> r == Some(old(s)@.last()) && final(s)@ == old(s)@.drop_last(),
{
    s.pop()
}

/// Appends the decimal representation of `n`.
pub fn push_decimal(s: &mut String, n: u128)
    ensures
        final(s)@ == old(s)@ + decimal(n as nat),
    decreases n,
{
    if n >= 10 {
        push_decimal(s, n / 10);
        let d = (n % 10) as u8;
        push_char(s, (d + 48) as char);
        assert(final(s)@ =~= old(s)@ + decimal(n as nat));
    } else {
        let d = n as u8;
        push_char(s, (d + 48) as char);
        assert(final(s)@ =~= old(s)@ + decimal(n as nat));
    }
}

/// Appends `t` tenths with one decimal place.
pub fn push_tenths(s: &mut String, t: u128)
    ensures
        final(s)@ == old(s)@ + tenths(t as nat),
{
    push_decimal(s, t / 10);
    push_char(s, '.');
    let d = (t % 10) as u8;
    push_char(s, (d + 48) as char);
    assert(final(s)@ =~= old(s)@ + tenths(t as nat));
}

/// Appends every character of `text`.
pub fn push_str(s: &mut String, text: &str)
    ensures
        final(s)@ == old(s)@ + text@,
{
    s.append(text);
}

/// Exact string equality, character by character.
pub fn str_eq(a: &str, b: &str) -> (r: bool)
    ensures
        r == (a@ == b@),
{
    let n = a.unicode_len();
    if n != b.unicode_len() {
        return false;
    }
    let mut i: usize = 0;
    while i < n
        invariant
            n == a@.len(),
            n == b@.len(),
            i <= n,
            forall|j: int| 0 <= j < i ==> a@[j] == b@[j],
        decreases n - i,
    {
        if a.get_char(i) != b.get_char(i) {
            assert(a@[i as int] != b@[i as int]);
            return false;
        }
        i = i + 1;
    }
    assert(a@ =~= b@);
    true
}

/// `prefix` is the beginning of `s`.
pub open spec fn has_prefix(s: Seq<char>, prefix: Seq<char>) -> bool {
    prefix.len() <= s.len() && s.subrange(0, prefix.len() as int) == prefix
}

/// `needle` occurs somewhere in `hay`.
pub open spec fn has_infix(hay: Seq<char>, needle: Seq<char>) -> bool {
    exists|i: int| 0 <= i && i + needle.len() <= hay.len()
        && #[trigger] hay.subrange(i, i + needle.len()) == needle
}

/// Checks whether `s` begins with `prefix`.
pub fn starts_with(s: &str, prefix: &str) -> (r: bool)
    ensures
        r == has_prefix(s@, prefix@),
{
    let n = s.unicode_len();
    let m = prefix.unicode_len();
    if m > n {
        return false;
    }
    let mut i: usize = 0;
    while i < m
        invariant
            n == s@.len(),
            m == prefix@.len(),
            m <= n,
            i <= m,
            forall|j: int| 0 <= j < i ==> s@[j] == prefix@[j],
        decreases m - i,
    {
        if s.get_char(i) != prefix.get_char(i) {
            assert(s@.subrange(0, m as int)[i as int] != prefix@[i as int]);
            return false;
        }
        i = i + 1;
    }
    assert(s@.subrange(0, m as int) =~= prefix@);
    true
}

/// The character with ASCII letters folded to lower case.
pub open spec fn ascii_lower(c: char) -> char {
    if 'A' <= c && c <= 'Z' {
        ((c as u32 + 32) as u8) as char
    } else {
        c
    }
}

/// The string with ASCII letters folded to lower case, as `str::to_ascii_lowercase`.
pub open spec fn ascii_lower_seq(s: Seq<char>) -> Seq<char> {
    s.map_values(|c: char| ascii_lower(c))
}

/// Folds one character to ASCII lower case.
pub fn lower_char(c: char) -> (r: char)
    ensures
        r == ascii_lower(c),
{
    if 'A' <= c && c <= 'Z' {
        let b = (c as u32 + 32) as u8;
        b as char
    } else {
        c
    }
}

/// Whether `needle` (given as characters) occurs in the ASCII-lowercased `hay`.
pub fn lower_contains(hay: &str, needle: &str) -> (r: bool)
    ensures
        r == has_infix(ascii_lower_seq(hay@), needle@),
{
    let n = hay.unicode_len();
    let m = needle.unicode_len();
    let ghost low = ascii_lower_seq(hay@);
    if m > n {
        assert(!has_infix(low, needle@)) by {
            assert forall|i: int| 0 <= i && i + needle@.len() <= low.len() implies
                #[trigger] low.subrange(i, i + needle@.len()) != needle@ by {}
        }
        return false;
    }
    if m == 0 {
        assert(low.subrange(0, 0 + needle@.len() as int) =~= needle@);
        assert(has_infix(low, needle@));
        return true;
    }
    let mut start: usize = 0;
    while start <= n - m
        invariant
            n == hay@.len(),
            m == needle@.len(),
            low == ascii_lower_seq(hay@),
            0 < m <= n,
            start <= n - m + 1,
            forall|i: int| 0 <= i < start ==> #[trigger] low.subrange(i, i + m) != needle@,
        decreases n - m + 1 - start,
    {
        let mut j: usize = 0;
        let mut same = true;
        while j < m
            invariant
                n == hay@.len(),
                m == needle@.len(),
                low == ascii_lower_seq(hay@),
                start + m <= n,
                j <= m,
                same ==> forall|k: int| 0 <= k < j ==> low[start + k] == needle@[k],
                !same ==> low.subrange(start as int, start + m) != needle@,
            decreases m - j,
        {
            if same {
                let c = lower_char(hay.get_char(start + j));
                if c != needle.get_char(j) {
                    same = false;
                    assert(low.subrange(start as int, start + m)[j as int] != needle@[j as int]);
                }
            }
            j = j + 1;
        }
        if same {
            assert(low.subrange(start as int, start + m) =~= needle@);
            return true;
        }
        start = start + 1;
    }
    assert(!has_infix(low, needle@)) by {
        assert forall|i: int| 0 <= i && i + needle@.len() <= low.len() implies
            #[trigger] low.subrange(i, i + needle@.len()) != needle@ by {
            assert(i < start);
        }
    }
    false
}


/// Case-insensitive (ASCII) equality, as `str::eq_ignore_ascii_case`.
pub fn eq_ignore_ascii_case(a: &str, b: &str) -> (r: bool)
    ensures
        r == (ascii_lower_seq(a@) == ascii_lower_seq(b@)),
{
    let n = a.unicode_len();
    if n != b.unicode_len() {
        assert(ascii_lower_seq(a@).len() != ascii_lower_seq(b@).len());
        return false;
    }
    let mut i: usize = 0;
    while i < n
        invariant
            n == a@.len(),
            n == b@.len(),
            i <= n,
            forall|j: int| 0 <= j < i ==> ascii_lower(a@[j]) == ascii_lower(b@[j]),
        decreases n - i,
    {
        if lower_char(a.get_char(i)) != lower_char(b.get_char(i)) {
            assert(ascii_lower_seq(a@)[i as int] != ascii_lower_seq(b@)[i as int]);
            return false;
        }
        i = i + 1;
    }
    assert(ascii_lower_seq(a@) =~= ascii_lower_seq(b@));
    true
}

/// Whether the character `c` occurs in `s`.
pub fn contains_char(s: &str, c: char) -> (r: bool)
    ensures
        r == s@.contains(c),
{
    let n = s.unicode_len();
    let mut i: usize = 0;
    while i < n
        invariant
            n == s@.len(),
            i <= n,
            forall|j: int| 0 <= j < i ==> s@[j] != c,
        decreases n - i,
    {
        if s.get_char(i) == c {
            return true;
        }
        i = i + 1;
    }
    false
}

/// The first `k` characters of `s` (all of it when shorter).
pub fn take_chars(s: &str, k: usize) -> (r: String)
    ensures
        r@ == s@.subrange(0, if k < s@.len() { k as int } else { s@.len() as int }),
{
    let n = s.unicode_len();
    let end = if k < n { k } else { n };
    s.substring_char(0, end).to_owned()
}

/// Index just past the last `/` among the first `i` characters (0 if none).
pub open spec fn seg_start(s: Seq<char>, i: int) -> int
    decreases i,
{
    if i <= 0 {
        0
    } else if s[i - 1] == '/' {
        i
    } else {
        seg_start(s, i - 1)
    }
}

/// Length of the first `i` characters without their trailing `/`s.
pub open spec fn seg_end(s: Seq<char>, i: int) -> int
    decreases i,
{
    if i <= 0 {
        0
    } else if s[i - 1] == '/' {
        seg_end(s, i - 1)
    } else {
        i
    }
}

proof fn lemma_seg_bounds(s: Seq<char>, i: int)
    requires
        0 <= i <= s.len(),
    ensures
        0 <= seg_start(s, i) <= i,
        0 <= seg_end(s, i) <= i,
    decreases i,
{
    if i > 0 {
        lemma_seg_bounds(s, i - 1);
    }
}

/// Finds `seg_start(s@, i)`.
pub fn find_seg_start(s: &str, i: usize) -> (r: usize)
    requires
        i <= s@.len(),
    ensures
        r == seg_start(s@, i as int),
        r <= i,
{
    let mut k = i;
    while k > 0 && s.get_char(k - 1) != '/'
        invariant
            k <= i <= s@.len(),
            seg_start(s@, i as int) == seg_start(s@, k as int),
        decreases k,
    {
        k = k - 1;
    }
    k
}

/// Finds `seg_end(s@, i)`.
pub fn find_seg_end(s: &str, i: usize) -> (r: usize)
    requires
        i <= s@.len(),
    ensures
        r == seg_end(s@, i as int),
        r <= i,
{
    let mut k = i;
    while k > 0 && s.get_char(k - 1) == '/'
        invariant
            k <= i <= s@.len(),
            seg_end(s@, i as int) == seg_end(s@, k as int),
        decreases k,
    {
        k = k - 1;
    }
    k
}

/// The value of a run of decimal digits.
pub open spec fn digits_value(s: Seq<char>) -> nat
    decreases s.len(),
{
    if s.len() == 0 {
        0
    } else {
        digits_value(s.drop_last()) * 10 + (s.last() as nat - 48) as nat
    }
}

pub open spec fn is_digit(c: char) -> bool {
    '0' <= c && c <= '9'
}

/// Every character is an ASCII digit.
pub open spec fn all_digits(s: Seq<char>) -> bool {
    forall|i: int| 0 <= i < s.len() ==> is_digit(#[trigger] s[i])
}

/// The text without one leading `+`.
pub open spec fn unsigned_body(s: Seq<char>) -> Seq<char> {
    if s.len() > 0 && s[0] == '+' { s.drop_first() } else { s }
}

/// What `str::parse` gives for an unsigned integer type whose largest value is
/// `max`: an optional `+` then at least one digit, nothing else, no overflow.
pub open spec fn parse_unsigned(s: Seq<char>, max: nat) -> Option<nat> {
    let body = unsigned_body(s);
    if body.len() > 0 && all_digits(body) && digits_value(body) <= max {
        Some(digits_value(body))
    } else {
        None
    }
}

proof fn lemma_digits_prefix_grows(s: Seq<char>, i: int)
    requires
        0 <= i <= s.len(),
        forall|j: int| 0 <= j < s.len() ==> is_digit(#[trigger] s[j]),
    ensures
        digits_value(s.subrange(0, i)) <= digits_value(s),
    decreases s.len() - i,
{
    if i < s.len() {
        lemma_digits_prefix_grows(s, i + 1);
        let t = s.subrange(0, i + 1);
        assert(t.drop_last() =~= s.subrange(0, i));
    } else {
        assert(s.subrange(0, i) =~= s);
    }
}

/// Parses an unsigned decimal number no larger than `max`, the way
/// `str::parse::<uN>` does.
pub fn parse_unsigned_exec(s: &str, max: u64) -> (r: Option<u64>)
    requires
        max >= 9,
    ensures
        r matches Some(v) ==> parse_unsigned(s@, max as nat) == Some(v as nat),
        r is None ==> parse_unsigned(s@, max as nat) is None,
{
    let n = s.unicode_len();
    let start: usize = if n > 0 && s.get_char(0) == '+' { 1 } else { 0 };
    let ghost body = unsigned_body(s@);
    assert(body =~= s@.subrange(start as int, n as int));
    if start >= n {
        return None;
    }
    let mut value: u64 = 0;
    let mut i: usize = start;
    while i < n
        invariant
            n == s@.len(),
            start <= i <= n,
            body == s@.subrange(start as int, n as int),
            body == unsigned_body(s@),
            forall|j: int| start <= j < i ==> is_digit(#[trigger] s@[j]),
            value as nat == digits_value(s@.subrange(start as int, i as int)),
            value <= max,
            max >= 9,
        decreases n - i,
    {
        let c = s.get_char(i);
        let ghost prefix = s@.subrange(start as int, i as int + 1);
        assert(prefix.drop_last() =~= s@.subrange(start as int, i as int));
        if !('0' <= c && c <= '9') {
            assert(body[(i - start) as int] == s@[i as int]);
            assert(!is_digit(body[(i - start) as int]));
            assert(!all_digits(body));
            assert(parse_unsigned(s@, max as nat) is None);
            return None;
        }
        let d = (c as u32 - 48) as u64;
        if value > (max - d) / 10 {
            proof {
                assert(value * 10 + d > max) by (nonlinear_arith)
                    requires value > (max - d) / 10, d <= 9, max >= 9;
                assert(digits_value(prefix) == value * 10 + d);
                if all_digits(body) {
                    lemma_digits_prefix_grows(body, i - start + 1);
                    assert(body.subrange(0, i - start + 1) =~= prefix);
                }
                assert(parse_unsigned(s@, max as nat) is None);
            }
            return None;
        }
        assert(value * 10 + d <= max) by (nonlinear_arith)
            requires value <= (max - d) / 10, d <= 9, max >= 9;
        value = value * 10 + d;
        i = i + 1;
    }
    assert(s@.subrange(start as int, n as int) =~= body);
    Some(value)
}


/// `char::from_u32`: the character with code `code`, if it is a Unicode
/// scalar value (at most 0x10FFFF and not a surrogate).
#[verifier::external_body]
pub(crate) fn char_from_u32(code: u32) -> (r: Option<char>)
    ensures
        r == (if code <= 0x10FFFF && (code < 0xD800 || code > 0xDFFF) {
            Some(code as char)
        } else {
            None
        }),
{
    char::from_u32(code)
}

/// Index of the first `c` at or after `i`, or the length if there is none.
pub open spec fn find_from(s: Seq<char>, c: char, i: int) -> int
    decreases s.len() - i,
{
    if i < 0 || i >= s.len() {
        s.len() as int
    } else if s[i] == c {
        i
    } else {
        find_from(s, c, i + 1)
    }
}

pub proof fn lemma_find_from(s: Seq<char>, c: char, i: int)
    requires
        0 <= i <= s.len(),
    ensures
        i <= find_from(s, c, i) <= s.len(),
        find_from(s, c, i) < s.len() ==> s[find_from(s, c, i)] == c,
        forall|k: int| i <= k < find_from(s, c, i) ==> s[k] != c,
    decreases s.len() - i,
{
    if i < s.len() && s[i] != c {
        lemma_find_from(s, c, i + 1);
    }
}

/// Finds `find_from(s@, c, i)`.
pub fn find_char_from(s: &str, c: char, i: usize) -> (r: usize)
    requires
        i <= s@.len(),
    ensures
        r == find_from(s@, c, i as int),
        i <= r <= s@.len(),
{
    let n = s.unicode_len();
    let mut k = i;
    while k < n && s.get_char(k) != c
        invariant
            n == s@.len(),
            i <= k <= n,
            find_from(s@, c, k as int) == find_from(s@, c, i as int),
        decreases n - k,
    {
        k = k + 1;
    }
    k
}

/// Unicode white space, the set `str::trim` removes: U+0009 to U+000D,
/// U+0020, U+0085, U+00A0, U+1680, U+2000 to U+200A, U+2028, U+2029,
/// U+202F, U+205F and U+3000.
pub open spec fn is_space(c: char) -> bool {
    ('\u{9}' <= c && c <= '\u{d}') || c == ' ' || c == '\u{85}' || c == '\u{a0}' || c == '\u{1680}'
        || ('\u{2000}' <= c && c <= '\u{200a}') || c == '\u{2028}' || c == '\u{2029}' || c == '\u{202f}'
        || c == '\u{205f}' || c == '\u{3000}'
}

/// Whether `c` is Unicode white space.
pub fn is_space_char(c: char) -> (r: bool)
    ensures
        r == is_space(c),
{
    ('\u{9}' <= c && c <= '\u{d}') || c == ' ' || c == '\u{85}' || c == '\u{a0}' || c == '\u{1680}'
        || ('\u{2000}' <= c && c <= '\u{200a}') || c == '\u{2028}' || c == '\u{2029}' || c == '\u{202f}'
        || c == '\u{205f}' || c == '\u{3000}'
}

/// `c` is removed when trimming: white space, or a double quote.
pub open spec fn trimmed_by(c: char, quotes: bool) -> bool {
    if quotes { c == '"' } else { is_space(c) }
}

/// First index at or after `i` whose character is not trimmed.
pub open spec fn skip_trim(s: Seq<char>, quotes: bool, i: int) -> int
    decreases s.len() - i,
{
    if 0 <= i < s.len() && trimmed_by(s[i], quotes) { skip_trim(s, quotes, i + 1) } else { i }
}

/// End of `s[lo..j]` without its trailing trimmed characters.
pub open spec fn back_trim(s: Seq<char>, quotes: bool, lo: int, j: int) -> int
    decreases j - lo,
{
    if lo < j && j <= s.len() && trimmed_by(s[j - 1], quotes) { back_trim(s, quotes, lo, j - 1) } else { j }
}

/// `s` without leading and trailing white space (`str::trim`), or without
/// leading and trailing double quotes (`str::trim_matches('"')`).
pub open spec fn trim_spec(s: Seq<char>, quotes: bool) -> Seq<char> {
    let lo = skip_trim(s, quotes, 0);
    s.subrange(lo, back_trim(s, quotes, lo, s.len() as int))
}

proof fn lemma_trim_bounds(s: Seq<char>, quotes: bool, i: int, lo: int, j: int)
    requires
        0 <= i <= s.len(),
        0 <= lo <= j <= s.len(),
    ensures
        i <= skip_trim(s, quotes, i) <= s.len(),
        lo <= back_trim(s, quotes, lo, j) <= j,
    decreases s.len() - i + j - lo,
{
    if i < s.len() && trimmed_by(s[i], quotes) {
        lemma_trim_bounds(s, quotes, i + 1, lo, j);
    }
    if lo < j && trimmed_by(s[j - 1], quotes) {
        lemma_trim_bounds(s, quotes, i, lo, j - 1);
    }
}

fn trims(c: char, quotes: bool) -> (r: bool)
    ensures
        r == trimmed_by(c, quotes),
{
    if quotes {
        c == '"'
    } else {
        is_space_char(c)
    }
}

/// Trims `s` (white space, or double quotes when `quotes`).
pub fn trim_str(s: &str, quotes: bool) -> (r: &str)
    ensures
        r@ == trim_spec(s@, quotes),
{
    let n = s.unicode_len();
    let mut lo: usize = 0;
    while lo < n && trims(s.get_char(lo), quotes)
        invariant
            n == s@.len(),
            lo <= n,
            skip_trim(s@, quotes, lo as int) == skip_trim(s@, quotes, 0),
        decreases n - lo,
    {
        lo = lo + 1;
    }
    let mut hi: usize = n;
    while hi > lo && trims(s.get_char(hi - 1), quotes)
        invariant
            n == s@.len(),
            lo <= hi <= n,
            lo == skip_trim(s@, quotes, 0),
            back_trim(s@, quotes, lo as int, hi as int) == back_trim(s@, quotes, lo as int, n as int),
        decreases hi - lo,
    {
        hi = hi - 1;
    }
    s.substring_char(lo, hi)
}

/// `s` without its leading white space (`str::trim_start`).
pub fn trim_start_str(s: &str) -> (r: &str)
    ensures
        r@ == s@.subrange(skip_trim(s@, false, 0), s@.len() as int),
{
    let n = s.unicode_len();
    let mut lo: usize = 0;
    while lo < n && is_space_char(s.get_char(lo))
        invariant
            n == s@.len(),
            lo <= n,
            skip_trim(s@, false, lo as int) == skip_trim(s@, false, 0),
        decreases n - lo,
    {
        lo = lo + 1;
    }
    s.substring_char(lo, n)
}

} // verus!
