//! Human-readable iteration counts ("12.35M").
//!
//! A count of a thousand or more is shown in thousands, millions or billions
//! with two decimals. The value shown is the one a binary64 computation gives:
//! the count is first taken to the nearest double, divided by the unit with
//! one correctly rounded division, and the quotient is then written with two
//! decimals, ties to even. All of this is carried out here on integers.

use vstd::prelude::*;
use crate::text::{decimal, digit_char, digit_str, push_decimal};
use crate::cli::{is_digit, unsigned_text_value, lemma_decimal_reads_back, lemma_decimal_digits};

verus! {

/// `2^e`.
pub open spec fn two_pow(e: nat) -> nat
    decreases e,
{
    if e == 0 {
        1
    } else {
        2 * two_pow((e - 1) as nat)
    }
}

/// `floor(log2(n))` for `n >= 1` (and `0` for `n == 0`).
pub open spec fn floor_log2(n: nat) -> nat
    decreases n,
{
    if n < 2 {
        0
    } else {
        1 + floor_log2(n / 2)
    }
}

/// `n / d` rounded to the nearest whole number, ties to the even one.
pub open spec fn round_half_even(n: nat, d: nat) -> nat {
    let q = n / d;
    let r = n % d;
    if 2 * r > d || (2 * r == d && q % 2 == 1) {
        q + 1
    } else {
        q
    }
}

/// The binary64 value nearest to the whole number `v` (ties to an even
/// significand): `v` itself below `2^53`, else `v` rounded to a multiple of
/// `2^(e - 52)` where `2^e <= v < 2^(e + 1)`.
pub open spec fn nearest_double_whole(v: nat) -> nat {
    let e = floor_log2(v);
    if e <= 52 {
        v
    } else {
        round_half_even(v, two_pow((e - 52) as nat)) * two_pow((e - 52) as nat)
    }
}

/// The binary64 value nearest to the quotient `a / d` (for `a >= d > 0`),
/// as a fraction `(numerator, denominator)` whose denominator is a power of
/// two: the quotient rounded to a multiple of `2^(e - 52)` where `e` is its
/// binary exponent.
pub open spec fn nearest_double_quotient(a: nat, d: nat) -> (nat, nat) {
    let e = floor_log2(a / d);
    if e <= 52 {
        let k = (52 - e) as nat;
        (round_half_even(a * two_pow(k), d), two_pow(k))
    } else {
        let k = (e - 52) as nat;
        (round_half_even(a, d * two_pow(k)) * two_pow(k), 1)
    }
}

/// `v / unit` as the binary64 computation `(v as f64) / (unit as f64)` gives
/// it, in hundredths, rounded to two decimals with ties to even.
pub open spec fn scaled_hundredths(v: nat, unit: nat) -> nat {
    let q = nearest_double_quotient(nearest_double_whole(v), unit);
    round_half_even(q.0 * 100, q.1)
}

/// A number of hundredths written with two decimals: `1234` is `"12.34"`.
pub open spec fn two_decimals(h: nat) -> Seq<char> {
    decimal(h / 100) + seq!['.', digit_char((h % 100) / 10), digit_char(h % 10)]
}

/// The text of a count: below a thousand the plain number, else the number of
/// thousands (`K`), millions (`M`) or billions (`B`) with two decimals.
pub open spec fn count_text(v: nat) -> Seq<char> {
    if v >= 1_000_000_000 {
        two_decimals(scaled_hundredths(v, 1_000_000_000)) + seq!['B']
    } else if v >= 1_000_000 {
        two_decimals(scaled_hundredths(v, 1_000_000)) + seq!['M']
    } else if v >= 1_000 {
        two_decimals(scaled_hundredths(v, 1_000)) + seq!['K']
    } else {
        decimal(v)
    }
}

proof fn lemma_two_pow_pos(e: nat)
    ensures
        two_pow(e) >= 1,
    decreases e,
{
    if e > 0 {
        lemma_two_pow_pos((e - 1) as nat);
    }
}

proof fn lemma_two_pow_add(x: nat, y: nat)
    ensures
        two_pow(x + y) == two_pow(x) * two_pow(y),
    decreases x,
{
    if x > 0 {
        let x1 = (x - 1) as nat;
        lemma_two_pow_add(x1, y);
        assert(x1 + y + 1 == x + y);
        assert(two_pow(x + y) == 2 * two_pow(x1 + y));
        let a = two_pow(x1);
        let b = two_pow(y);
        assert(two_pow(x) == 2 * a);
        assert(two_pow(x1 + y) == a * b);
        assert(2 * (a * b) == (2 * a) * b) by (nonlinear_arith);
    } else {
        assert(two_pow(x) == 1);
        assert(x + y == y);
    }
}

proof fn lemma_two_pow_mono(x: nat, y: nat)
    requires
        x <= y,
    ensures
        two_pow(x) <= two_pow(y),
    decreases y,
{
    if x < y {
        lemma_two_pow_mono(x, (y - 1) as nat);
        lemma_two_pow_pos((y - 1) as nat);
    }
}

/// `2^e <= n < 2^(e + 1)` for `e = floor_log2(n)` and `n >= 1`.
proof fn lemma_floor_log2_bounds(n: nat)
    requires
        n >= 1,
    ensures
        two_pow(floor_log2(n)) <= n < two_pow(floor_log2(n) + 1),
    decreases n,
{
    if n >= 2 {
        lemma_floor_log2_bounds(n / 2);
        let e = floor_log2(n / 2);
        assert(n == 2 * (n / 2) + n % 2);
        assert(floor_log2(n) == e + 1);
        assert(two_pow(e + 1) == 2 * two_pow(e));
        assert(two_pow(e + 2) == 2 * two_pow(e + 1));
        assert(two_pow(e) <= n / 2 < two_pow(e + 1));
        assert(two_pow(floor_log2(n)) == two_pow(e + 1));
        assert(two_pow(floor_log2(n) + 1) == two_pow(e + 2));
    } else {
        assert(floor_log2(n) == 0);
        assert(two_pow(0) == 1);
        assert(two_pow(1) == 2 * two_pow(0));
    }
}

/// `floor_log2` is monotone.
proof fn lemma_floor_log2_mono(m: nat, n: nat)
    requires
        m <= n,
    ensures
        floor_log2(m) <= floor_log2(n),
    decreases n,
{
    if m >= 2 {
        lemma_floor_log2_mono(m / 2, n / 2);
    }
}

proof fn lemma_round_half_even_bound(n: nat, d: nat)
    requires
        d > 0,
    ensures
        round_half_even(n, d) <= n / d + 1,
        round_half_even(n, d) * d <= n + d,
{
    let q = n / d;
    assert(q * d <= n) by (nonlinear_arith)
        requires
            d > 0,
            q == n / d,
    ;
    assert((q + 1) * d == q * d + d) by (nonlinear_arith);
    assert(round_half_even(n, d) * d <= (q + 1) * d) by (nonlinear_arith)
        requires
            round_half_even(n, d) <= q + 1,
    ;
}

fn floor_log2_exec(n: u128) -> (e: u32)
    ensures
        e == floor_log2(n as nat),
        e < 128,
{
    let mut t = n;
    let mut e: u32 = 0;
    proof {
        lemma_floor_log2_u128(n);
    }
    while t >= 2
        invariant
            floor_log2(n as nat) == e + floor_log2(t as nat),
            e as nat + floor_log2(t as nat) < 128,
        decreases t,
    {
        t = t / 2;
        e = e + 1;
    }
    e
}

proof fn lemma_two_pow_values()
    ensures
        two_pow(11) == 0x800,
        two_pow(12) == 0x1000,
        two_pow(53) == 0x20_0000_0000_0000,
        two_pow(65) == 0x2_0000_0000_0000_0000,
        two_pow(16) == 0x1_0000,
        two_pow(32) == 0x1_0000_0000,
        two_pow(64) == 0x1_0000_0000_0000_0000,
        two_pow(127) == 0x8000_0000_0000_0000_0000_0000_0000_0000,
        two_pow(128) == 0x1_0000_0000_0000_0000_0000_0000_0000_0000,
{
    reveal_with_fuel(two_pow, 17);
    lemma_two_pow_add(53, 11);
    lemma_two_pow_add(16, 16);
    let p32 = two_pow(32);
    lemma_two_pow_add(32, 32);
    assert(p32 * p32 == 0x1_0000_0000_0000_0000) by (nonlinear_arith)
        requires
            p32 == 0x1_0000_0000,
    ;
    let p64 = two_pow(64);
    lemma_two_pow_add(64, 64);
    assert(p64 * p64 == 0x1_0000_0000_0000_0000_0000_0000_0000_0000) by (nonlinear_arith)
        requires
            p64 == 0x1_0000_0000_0000_0000,
    ;
    assert(two_pow(128) == 2 * two_pow(127));
    assert(two_pow(65) == 2 * two_pow(64));
    let p53 = two_pow(53);
    assert(p53 * 0x800 == 0x1_0000_0000_0000_0000);
    assert(p53 == 0x20_0000_0000_0000) by (nonlinear_arith)
        requires
            p53 * 0x800 == 0x1_0000_0000_0000_0000,
    ;
}

/// `floor_log2(n) < k` whenever `n < 2^k`.
proof fn lemma_floor_log2_below(n: nat, k: nat)
    requires
        n < two_pow(k),
    ensures
        floor_log2(n) < k || (n == 0 && k == 0),
{
    if n >= 1 {
        lemma_floor_log2_bounds(n);
        let e = floor_log2(n);
        if e >= k {
            lemma_two_pow_mono(k, e);
        }
    }
}

proof fn lemma_floor_log2_u128(n: u128)
    ensures
        floor_log2(n as nat) < 128,
{
    lemma_two_pow_values();
    lemma_floor_log2_below(n as nat, 128);
}

fn two_pow_exec(e: u32) -> (r: u128)
    requires
        e < 128,
    ensures
        r == two_pow(e as nat),
        r >= 1,
{
    proof {
        lemma_two_pow_pos(e as nat);
    }
    let mut r: u128 = 1;
    let mut i: u32 = 0;
    while i < e
        invariant
            i <= e < 128,
            r == two_pow(i as nat),
        decreases e - i,
    {
        proof {
            lemma_two_pow_mono((i + 1) as nat, 127);
            lemma_two_pow_values();
        }
        r = r * 2;
        i = i + 1;
    }
    r
}

fn round_half_even_exec(n: u128, d: u128) -> (r: u128)
    requires
        d > 0,
    ensures
        r == round_half_even(n as nat, d as nat),
{
    let q = n / d;
    let rem = n % d;
    if rem > d - rem || (rem == d - rem && q % 2 == 1) {
        assert(d >= 2);
        assert(q <= n / 2) by (nonlinear_arith)
            requires
                d >= 2,
                q == n / d,
        ;
        q + 1
    } else {
        q
    }
}

/// `q < 2^(floor_log2(q) + 1)` for every `q`.
proof fn lemma_below_next_power(q: nat)
    ensures
        q < two_pow(floor_log2(q) + 1),
{
    if q >= 1 {
        lemma_floor_log2_bounds(q);
    } else {
        assert(two_pow(1) == 2 * two_pow(0));
    }
}

/// The binary64 value nearest to the whole number `v`.
fn nearest_double_whole_exec(v: u64) -> (r: u128)
    ensures
        r == nearest_double_whole(v as nat),
        r <= 0x1_0000_0000_0000_0800,
{
    let e = floor_log2_exec(v as u128);
    if e <= 52 {
        v as u128
    } else {
        proof {
            lemma_two_pow_values();
            lemma_floor_log2_below(v as nat, 64);
            lemma_two_pow_mono((e - 52) as nat, 11);
        }
        let p = two_pow_exec(e - 52);
        let m = round_half_even_exec(v as u128, p);
        proof {
            lemma_round_half_even_bound(v as nat, p as nat);
        }
        m * p
    }
}

/// `v / unit` as the binary64 computation gives it, in hundredths rounded
/// to two decimals, ties to even.
fn hundredths(v: u64, unit: u64) -> (h: u128)
    requires
        1 <= unit <= 0xffff_ffff,
    ensures
        h == scaled_hundredths(v as nat, unit as nat),
{
    let x = nearest_double_whole_exec(v);
    let q = x / (unit as u128);
    let e = floor_log2_exec(q);
    proof {
        lemma_two_pow_values();
        lemma_floor_log2_mono(q as nat, x as nat);
        lemma_floor_log2_below(x as nat, 65);
        lemma_below_next_power(q as nat);
        assert(x as nat / unit as nat == q as nat);
    }
    if e <= 52 {
        let k = 52 - e;
        let den = two_pow_exec(k);
        proof {
            let qq = q as nat;
            let xx = x as nat;
            let u = unit as nat;
            let d = den as nat;
            lemma_two_pow_add((e + 1) as nat, k as nat);
            assert((e + 1) as nat + k as nat == 53);
            assert(xx < u * (qq + 1)) by (nonlinear_arith)
                requires
                    u >= 1,
                    qq == xx / u,
            ;
            assert(qq + 1 <= two_pow((e + 1) as nat));
            assert(xx * d < u * two_pow(53)) by (nonlinear_arith)
                requires
                    xx < u * (qq + 1),
                    qq + 1 <= two_pow((e + 1) as nat),
                    two_pow(53) == two_pow((e + 1) as nat) * d,
                    d >= 1,
                    u >= 1,
            ;
            assert(u * two_pow(53) <= 0xffff_ffff * 0x20_0000_0000_0000) by (nonlinear_arith)
                requires
                    u <= 0xffff_ffff,
                    two_pow(53) == 0x20_0000_0000_0000,
            ;
        }
        let scaled = x * den;
        let num = round_half_even_exec(scaled, unit as u128);
        proof {
            lemma_round_half_even_bound(scaled as nat, unit as nat);
            assert(scaled as nat / unit as nat <= two_pow(53)) by (nonlinear_arith)
                requires
                    (scaled as nat) < unit as nat * two_pow(53),
                    unit >= 1,
            ;
        }
        round_half_even_exec(num * 100, den)
    } else {
        let k = e - 52;
        proof {
            lemma_two_pow_mono(k as nat, 12);
        }
        let p = two_pow_exec(k);
        proof {
            assert((unit as nat) * (p as nat) <= 0xffff_ffff * 0x1000) by (nonlinear_arith)
                requires
                    unit <= 0xffff_ffff,
                    p as nat <= 0x1000,
            ;
        }
        let d2 = (unit as u128) * p;
        assert(d2 >= 1) by (nonlinear_arith)
            requires
                d2 == unit * p,
                unit >= 1,
                p >= 1,
        ;
        let m = round_half_even_exec(x, d2);
        proof {
            lemma_round_half_even_bound(x as nat, d2 as nat);
            assert((m as nat) * (p as nat) <= 0x2_0000_0000_0000_1000) by (nonlinear_arith)
                requires
                    (m as nat) * (d2 as nat) <= x as nat + d2 as nat,
                    d2 as nat == unit as nat * p as nat,
                    unit >= 1,
                    p as nat <= 0x1000,
                    x as nat <= 0x1_0000_0000_0000_0800,
            ;
        }
        let num = m * p;
        proof {
            assert((num as nat * 100) / 1 == num as nat * 100);
            assert((num as nat * 100) % 1 == 0);
        }
        num * 100
    }
}

/// Appends `h` hundredths with two decimals to `s`.
fn push_two_decimals(s: &mut String, h: u128)
    ensures
        final(s)@ == old(s)@ + two_decimals(h as nat),
{
    let ghost before = s@;
    push_decimal(s, h / 100);
    s.append(".");
    s.append(digit_str(((h % 100) / 10) as u64));
    s.append(digit_str((h % 10) as u64));
    proof {
        reveal_strlit(".");
        assert(s@ =~= before + two_decimals(h as nat));
    }
}

/// The text of an iteration count: `999` is `"999"`, `1_500` is `"1.50K"`,
/// `12_345_678` is `"12.35M"` and `3_000_000_000` is `"3.00B"`.
pub fn format_count(value: u64) -> (r: String)
    ensures
        r@ == count_text(value as nat),
{
    let mut s = String::new();
    if value >= 1_000_000_000 {
        let h = hundredths(value, 1_000_000_000);
        push_two_decimals(&mut s, h);
        s.append("B");
        proof {
            reveal_strlit("B");
        }
    } else if value >= 1_000_000 {
        let h = hundredths(value, 1_000_000);
        push_two_decimals(&mut s, h);
        s.append("M");
        proof {
            reveal_strlit("M");
        }
    } else if value >= 1_000 {
        let h = hundredths(value, 1_000);
        push_two_decimals(&mut s, h);
        s.append("K");
        proof {
            reveal_strlit("K");
        }
    } else {
        push_decimal(&mut s, value as u128);
    }
    proof {
        assert(s@ =~= count_text(value as nat));
    }
    s
}

/// The unit follows the size of the count: a count of a billion or more is
/// shown in billions (`B`), of a million up to a billion in millions (`M`),
/// of a thousand up to a million in thousands (`K`); a smaller count is shown
/// as its plain decimal number, which reads back as the count itself.
pub proof fn lemma_count_text_unit(v: nat)
    ensures
        count_text(v).len() > 0,
        count_text(v).last() == 'B' <==> v >= 1_000_000_000,
        count_text(v).last() == 'M' <==> 1_000_000 <= v < 1_000_000_000,
        count_text(v).last() == 'K' <==> 1_000 <= v < 1_000_000,
        is_digit(count_text(v).last()) <==> v < 1_000,
        v < 1_000 ==> unsigned_text_value(count_text(v)) == Some(v),
{
    if v < 1_000 {
        lemma_decimal_digits(v);
        lemma_decimal_reads_back(v);
        let d = decimal(v);
        assert(is_digit(d[d.len() - 1]));
    }
}

} // verus!
