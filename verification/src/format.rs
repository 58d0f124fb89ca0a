//! Human-readable sizes and rates. The numbers shown are exactly what a
//! binary64 computation prints: the value is converted to the nearest double,
//! divided with one correctly rounded division and printed with round-half-even
//! at the last shown digit.
use vstd::prelude::*;
use vstd::arithmetic::power2::{pow2, lemma_pow2_pos, lemma_pow2_unfold, lemma_pow2_adds};
use vstd::arithmetic::div_mod::{lemma_div_denominator, lemma_fundamental_div_mod};
use crate::text::{decimal, tenths, push_decimal, push_tenths, push_char, digit_char};

verus! {

/// `a / b` rounded to the nearest integer, ties to the even neighbour.
pub open spec fn round_half_even(a: nat, b: nat) -> nat
    recommends
        b > 0,
{
    let q = a / b;
    let r = a % b;
    if 2 * r > b {
        q + 1
    } else if 2 * r < b {
        q
    } else if q % 2 == 0 {
        q
    } else {
        q + 1
    }
}

/// How many low bits an integer loses on its way into a 53-bit significand.
pub open spec fn f64_shift(n: nat) -> nat
    decreases n,
{
    if n < 0x20_0000_0000_0000 {
        0
    } else {
        1 + f64_shift(n / 2)
    }
}

/// The binary64 value nearest to the integer `n` (ties to even).
pub open spec fn f64_of_nat(n: nat) -> nat {
    let s = f64_shift(n);
    round_half_even(n, pow2(s)) * pow2(s)
}

/// `floor(log2(a / b))` for `a >= b > 0`.
pub open spec fn ratio_exponent(a: nat, b: nat) -> nat
    decreases a - b,
    when b > 0 && a >= b
{
    if a < 2 * b {
        0
    } else {
        1 + ratio_exponent(a, 2 * b)
    }
}

/// Denominator of the binary64 grid around `a / b`: its values are multiples of
/// `1 / f64_ratio_scale(a, b)`.
pub open spec fn f64_ratio_scale(a: nat, b: nat) -> nat {
    pow2((52 - ratio_exponent(a, b)) as nat)
}

/// The binary64 quotient nearest to `a / b`, counted in units of
/// `1 / f64_ratio_scale(a, b)`.
pub open spec fn f64_ratio_units(a: nat, b: nat) -> nat {
    round_half_even(a * f64_ratio_scale(a, b), b)
}

/// Tenths shown by one-decimal formatting of the binary64 quotient `a / b`.
pub open spec fn quotient_tenths(a: nat, b: nat) -> nat {
    round_half_even(10 * f64_ratio_units(a, b), f64_ratio_scale(a, b))
}

/// Whole units shown by zero-decimal formatting of the binary64 quotient `a / b`.
pub open spec fn quotient_units(a: nat, b: nat) -> nat {
    round_half_even(f64_ratio_units(a, b), f64_ratio_scale(a, b))
}

pub open spec fn kib() -> nat { 1024 }
pub open spec fn mib() -> nat { 1024 * 1024 }
pub open spec fn gib() -> nat { 1024 * 1024 * 1024 }
pub open spec fn tib() -> nat { 1024 * 1024 * 1024 * 1024 }

/// `bytes` in binary units: `512B`, `2K`, `12M`, `36.0G`, `1.5T`.
pub open spec fn bytes_short_spec(bytes: nat) -> Seq<char> {
    if bytes >= tib() {
        tenths(round_half_even(10 * f64_of_nat(bytes), tib())) + seq!['T']
    } else if bytes >= gib() {
        tenths(round_half_even(10 * bytes, gib())) + seq!['G']
    } else if bytes >= mib() {
        decimal(round_half_even(bytes, mib())) + seq!['M']
    } else if bytes >= kib() {
        decimal(round_half_even(bytes, kib())) + seq!['K']
    } else {
        decimal(bytes) + seq!['B']
    }
}

/// `bps` in decimal bit units: `800b`, `12Kb`, `12.4Mb`, `1.2Gb`.
pub open spec fn bits_per_sec_spec(bps: nat) -> Seq<char> {
    if bps >= 1_000_000_000 {
        tenths(quotient_tenths(f64_of_nat(bps), 1_000_000_000)) + seq!['G', 'b']
    } else if bps >= 1_000_000 {
        tenths(quotient_tenths(bps, 1_000_000)) + seq!['M', 'b']
    } else if bps >= 1000 {
        decimal(quotient_units(bps, 1000)) + seq!['K', 'b']
    } else {
        decimal(bps) + seq!['b']
    }
}

/// Byte rate: the binary size followed by `/s`.
pub open spec fn bytes_per_sec_spec(bps: nat) -> Seq<char> {
    bytes_short_spec(bps) + seq!['/', 's']
}

fn round_half_even_exec(a: u128, b: u128) -> (r: u128)
    requires
        b > 0,
    ensures
        r == round_half_even(a as nat, b as nat),
{
    let q = a / b;
    let r = a % b;
    proof {
        if b >= 2 {
            assert(q <= a / 2) by {
                vstd::arithmetic::div_mod::lemma_div_is_ordered_by_denominator(a as int, 2, b as int);
            }
        }
    }
    if r > b - r {
        q + 1
    } else if r < b - r {
        q
    } else if q % 2 == 0 {
        q
    } else {
        q + 1
    }
}

pub(crate) fn pow2_exec(e: u32) -> (p: u128)
    requires
        e < 128,
    ensures
        p == pow2(e as nat),
{
    let mut p: u128 = 1;
    let mut i: u32 = 0;
    proof {
        lemma_pow2_table();
    }
    while i < e
        invariant
            i <= e,
            e < 128,
            p == pow2(i as nat),
        decreases e - i,
    {
        proof {
            lemma_pow2_unfold((i + 1) as nat);
            vstd::arithmetic::power2::lemma_pow2_strictly_increases((i + 1) as nat, 128);
            vstd::arithmetic::power2::lemma_pow2_adds(64, 64);
            lemma_pow2_table();
        }
        p = p * 2;
        i = i + 1;
    }
    p
}

pub(crate) proof fn lemma_pow2_table()
    ensures
        pow2(0) == 1,
        pow2(1) == 2,
        pow2(10) == 1024,
        pow2(20) == 0x10_0000,
        pow2(30) == 0x4000_0000,
        pow2(40) == 0x100_0000_0000,
        pow2(52) == 0x10_0000_0000_0000,
        pow2(53) == 0x20_0000_0000_0000,
        pow2(64) == 0x1_0000_0000_0000_0000,
        forall|i: nat| i <= 64 ==> #[trigger] pow2(i) <= pow2(64),
{
    vstd::arithmetic::power2::lemma2_to64();
    vstd::arithmetic::power2::lemma2_to64_rest();
    assert forall|i: nat| i <= 64 implies #[trigger] pow2(i) <= pow2(64) by {
        if i < 64 {
            vstd::arithmetic::power2::lemma_pow2_strictly_increases(i, 64);
        }
    }
}

/// Nearest binary64 to `n`, as an exact integer.
fn f64_of_u64(n: u64) -> (m: u128)
    ensures
        m == f64_of_nat(n as nat),
        m <= 0x1_0000_0000_0000_0000,
{
    let mut x: u64 = n;
    let mut s: u32 = 0;
    let mut p: u128 = 1;
    proof {
        lemma_pow2_table();
    }
    while x >= 0x20_0000_0000_0000
        invariant
            s <= 11,
            p == pow2(s as nat),
            x as nat == n as nat / p as nat,
            f64_shift(n as nat) == s + f64_shift(x as nat),
            x as nat * p as nat <= n as nat,
            n as nat <= 0xffff_ffff_ffff_ffff,
            (x as nat) < pow2((64 - s) as nat),
        decreases x,
    {
        proof {
            lemma_pow2_table();
            lemma_pow2_pos(s as nat);
            lemma_div_denominator(n as int, p as int, 2);
            lemma_pow2_unfold((s + 1) as nat);
            if s >= 11 {
                assert(pow2((64 - s) as nat) <= pow2(53)) by {
                    if s > 11 {
                        vstd::arithmetic::power2::lemma_pow2_strictly_increases((64 - s) as nat, 53);
                    }
                }
                assert(pow2(53) == 0x20_0000_0000_0000);
                assert(false);
            }
            assert(s < 11);
            assert(x as nat / 2 * 2 <= x);
            assert((x as nat / 2) * (2 * p as nat) == (x as nat / 2 * 2) * p as nat) by (nonlinear_arith);
            assert((x as nat / 2 * 2) * p as nat <= x as nat * p as nat) by (nonlinear_arith)
                requires x as nat / 2 * 2 <= x;
            lemma_pow2_unfold((64 - s) as nat);
        }
        x = x / 2;
        s = s + 1;
        p = p * 2;
    }
    proof {
        lemma_pow2_pos(s as nat);
        lemma_pow2_table();
    }
    let q = round_half_even_exec(n as u128, p);
    proof {
        assert(q <= n as nat / p as nat + 1);
        assert(n as nat / p as nat == x);
        assert((q as nat) <= pow2((64 - s) as nat));
        lemma_pow2_adds((64 - s) as nat, s as nat);
        assert(q as nat * p as nat <= pow2((64 - s) as nat) * pow2(s as nat)) by (nonlinear_arith)
            requires (q as nat) <= pow2((64 - s) as nat), p == pow2(s as nat);
    }
    q * p
}

/// The binary64 quotient nearest to `a / b`, as (units, scale).
fn f64_ratio(a: u128, b: u128) -> (r: (u128, u128))
    requires
        0 < b <= a,
        b <= 1_000_000_000,
        a <= 0x1_0000_0000_0000_0000,
        a < 0x20_0000_0000_0000 * b,
    ensures
        r.0 == f64_ratio_units(a as nat, b as nat),
        r.1 == f64_ratio_scale(a as nat, b as nat),
        r.0 <= 0x20_0000_0000_0000,
        r.1 <= 0x10_0000_0000_0000,
        r.1 >= 1,
{
    let mut e: u32 = 0;
    let mut bb: u128 = b;
    proof {
        lemma_pow2_table();
    }
    while bb <= a / 2
        invariant
            0 < b <= bb <= a,
            b <= 1_000_000_000,
            a <= 0x1_0000_0000_0000_0000,
            a < 0x20_0000_0000_0000 * b,
            e <= 52,
            bb == b * pow2(e as nat),
            ratio_exponent(a as nat, b as nat) == e + ratio_exponent(a as nat, bb as nat),
        decreases a - bb,
    {
        proof {
            lemma_pow2_unfold((e + 1) as nat);
            lemma_pow2_table();
            assert(2 * bb <= a);
            assert(b * pow2((e + 1) as nat) == 2 * bb) by (nonlinear_arith)
                requires bb == b * pow2(e as nat), pow2((e + 1) as nat) == 2 * pow2(e as nat);
            if e + 1 > 52 {
                vstd::arithmetic::power2::lemma_pow2_strictly_increases(52, (e + 1) as nat);
                assert(b * pow2((e + 1) as nat) >= b * 0x20_0000_0000_0000) by (nonlinear_arith)
                    requires pow2((e + 1) as nat) >= pow2(53), pow2(53) == 0x20_0000_0000_0000, b > 0;
                assert(false);
            }
        }
        bb = bb * 2;
        e = e + 1;
    }
    let scale = pow2_exec(52 - e);
    proof {
        lemma_pow2_table();
        if e > 0 {
            vstd::arithmetic::power2::lemma_pow2_strictly_increases((52 - e) as nat, 52);
        }
        assert(scale <= 0x10_0000_0000_0000);
        lemma_pow2_pos((52 - e) as nat);
        assert(a * scale <= 0x1_0000_0000_0000_0000 * 0x10_0000_0000_0000) by (nonlinear_arith)
            requires a <= 0x1_0000_0000_0000_0000, scale <= 0x10_0000_0000_0000;
        // the quotient a / b is below 2^(e + 1), so the units stay below 2^53
        assert(a < 2 * bb);
        lemma_pow2_adds(e as nat, (52 - e) as nat);
        assert(a * scale < 2 * b * 0x10_0000_0000_0000) by (nonlinear_arith)
            requires a < 2 * bb, bb == b * pow2(e as nat), scale == pow2((52 - e) as nat),
                pow2(e as nat) * pow2((52 - e) as nat) == pow2(52), pow2(52) == 0x10_0000_0000_0000;
        assert((a as nat * scale as nat) / (b as nat) < 0x20_0000_0000_0000) by (nonlinear_arith)
            requires a * scale < 2 * b * 0x10_0000_0000_0000, b > 0;
    }
    let units = round_half_even_exec(a * scale, b);
    (units, scale)
}

/// Tenths shown for the binary64 quotient `a / b` printed with one decimal.
pub(crate) fn quotient_tenths_exec(a: u128, b: u128) -> (t: u128)
    requires
        0 < b <= a,
        b <= 1_000_000_000,
        a <= 0x1_0000_0000_0000_0000,
        a < 0x20_0000_0000_0000 * b,
    ensures
        t == quotient_tenths(a as nat, b as nat),
{
    let (units, scale) = f64_ratio(a, b);
    round_half_even_exec(10 * units, scale)
}

/// Whole units shown for the binary64 quotient `a / b` printed with no decimals.
fn quotient_units_exec(a: u128, b: u128) -> (t: u128)
    requires
        0 < b <= a,
        b <= 1_000_000_000,
        a <= 0x1_0000_0000_0000_0000,
        a < 0x20_0000_0000_0000 * b,
    ensures
        t == quotient_units(a as nat, b as nat),
{
    let (units, scale) = f64_ratio(a, b);
    round_half_even_exec(units, scale)
}

/// Formats a byte count in binary units: `512B`, `2K`, `12M`, `36.0G`, `1.5T`.
pub fn bytes_short(bytes: u64) -> (s: String)
    ensures
        s@ == bytes_short_spec(bytes as nat),
{
    proof {
        lemma_pow2_table();
    }
    let mut s = String::new();
    let n = bytes as u128;
    if n >= 0x100_0000_0000 {
        let m = f64_of_u64(bytes);
        push_tenths(&mut s, round_half_even_exec(10 * m, 0x100_0000_0000));
        push_char(&mut s, 'T');
    } else if n >= 0x4000_0000 {
        push_tenths(&mut s, round_half_even_exec(10 * n, 0x4000_0000));
        push_char(&mut s, 'G');
    } else if n >= 0x10_0000 {
        push_decimal(&mut s, round_half_even_exec(n, 0x10_0000));
        push_char(&mut s, 'M');
    } else if n >= 1024 {
        push_decimal(&mut s, round_half_even_exec(n, 1024));
        push_char(&mut s, 'K');
    } else {
        push_decimal(&mut s, n);
        push_char(&mut s, 'B');
    }
    assert(s@ =~= bytes_short_spec(bytes as nat));
    s
}

/// Formats a bit rate in decimal units: `800b`, `12Kb`, `12.4Mb`, `1.2Gb`.
pub fn bits_per_sec(bps: u64) -> (s: String)
    ensures
        s@ == bits_per_sec_spec(bps as nat),
{
    proof {
        lemma_pow2_table();
    }
    let mut s = String::new();
    let n = bps as u128;
    if n >= 1_000_000_000 {
        let m = f64_of_u64(bps);
        proof {
            // the conversion is monotone and 10^9 is exact, so the double stays above it
            lemma_f64_of_nat_at_least(bps as nat, 1_000_000_000);
        }
        push_tenths(&mut s, quotient_tenths_exec(m, 1_000_000_000));
        push_char(&mut s, 'G');
        push_char(&mut s, 'b');
    } else if n >= 1_000_000 {
        push_tenths(&mut s, quotient_tenths_exec(n, 1_000_000));
        push_char(&mut s, 'M');
        push_char(&mut s, 'b');
    } else if n >= 1000 {
        push_decimal(&mut s, quotient_units_exec(n, 1000));
        push_char(&mut s, 'K');
        push_char(&mut s, 'b');
    } else {
        push_decimal(&mut s, n);
        push_char(&mut s, 'b');
    }
    assert(s@ =~= bits_per_sec_spec(bps as nat));
    s
}

/// Formats a byte rate: the binary size followed by `/s`.
pub fn bytes_per_sec(bps: u64) -> (s: String)
    ensures
        s@ == bytes_per_sec_spec(bps as nat),
{
    let mut s = bytes_short(bps);
    push_char(&mut s, '/');
    push_char(&mut s, 's');
    assert(s@ =~= bytes_per_sec_spec(bps as nat));
    s
}

/// Rounding an integer at or above an exactly representable bound `k`
/// (`k < 2^53`) to binary64 never lands below `k`.
proof fn lemma_f64_of_nat_at_least(n: nat, k: nat)
    requires
        k <= n,
        k < 0x20_0000_0000_0000,
    ensures
        k <= f64_of_nat(n),
{
    let s = f64_shift(n);
    lemma_pow2_pos(s);
    let p = pow2(s);
    lemma_fundamental_div_mod(n as int, p as int);
    let q = n / p;
    let r = n % p;
    if s == 0 {
        lemma_pow2_table();
        assert(p == 1);
        assert(round_half_even(n, 1) == n);
    } else {
        lemma_shift_keeps_53_bits(n);
        // q >= 2^52, so q * p >= 2^52 >= ... and rounding never goes below q
        assert(round_half_even(n, p) >= q);
        assert(q * p >= 0x10_0000_0000_0000 * p) by (nonlinear_arith)
            requires q >= 0x10_0000_0000_0000, p > 0;
        assert(0x10_0000_0000_0000 * p >= 0x10_0000_0000_0000) by (nonlinear_arith)
            requires p > 0;
        assert(round_half_even(n, p) * p >= q * p) by (nonlinear_arith)
            requires round_half_even(n, p) >= q, p > 0;
        if k >= 0x10_0000_0000_0000 {
            // both k and the rounded value sit on the 2^s grid's upper part; use k <= n < (q+1) p
            assert(k <= n);
            assert(n < (q + 1) * p) by (nonlinear_arith)
                requires n == p * q + r, r < p;
            lemma_grid_floor(k, p, q);
        }
    }
}

/// A multiple-of-`p` floor argument: when `k` is a multiple of... handled via s == 0 when k >= 2^52.
proof fn lemma_grid_floor(k: nat, p: nat, q: nat)
    requires
        p > 0,
        k < 0x20_0000_0000_0000,
        k < (q + 1) * p,
        q >= 0x10_0000_0000_0000,
    ensures
        k <= q * p,
{
    assert(q * p >= 0x10_0000_0000_0000 * p) by (nonlinear_arith)
        requires q >= 0x10_0000_0000_0000, p > 0;
    if p >= 2 {
        assert(0x10_0000_0000_0000 * p >= 0x20_0000_0000_0000) by (nonlinear_arith)
            requires p >= 2;
    } else {
        assert(p == 1);
    }
}

/// After `f64_shift(n)` halvings an integer has exactly 53 significant bits.
proof fn lemma_shift_keeps_53_bits(n: nat)
    requires
        f64_shift(n) > 0,
    ensures
        n / pow2(f64_shift(n)) >= 0x10_0000_0000_0000,
        n / pow2(f64_shift(n)) < 0x20_0000_0000_0000,
    decreases n,
{
    let s = f64_shift(n);
    lemma_pow2_table();
    lemma_pow2_unfold(s);
    lemma_pow2_pos((s - 1) as nat);
    lemma_div_denominator(n as int, 2, pow2((s - 1) as nat) as int);
    assert(pow2(s) == 2 * pow2((s - 1) as nat));
    if f64_shift(n / 2) == 0 {
        assert(s == 1);
        assert(n >= 0x20_0000_0000_0000);
        assert(n / 2 < 0x20_0000_0000_0000);
    } else {
        lemma_shift_keeps_53_bits(n / 2);
    }
}

} // verus!
