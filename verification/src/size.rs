//! Sizes of recordings as `reach bags list` shows them: bytes below 1 KiB, else
//! KB, MB or GB with one decimal, computed as the formatting of the floating-point
//! quotient would show it, in exact integer arithmetic.

use vstd::prelude::*;

use crate::text::{decimal, digit, digit_char, push_decimal};

verus! {

/// Below this, every integer is exactly a 64-bit float.
pub open spec fn f64_exact_limit() -> nat {
    0x20_0000_0000_0000
}

/// `n / d` rounded to the nearest integer, a tie going to the even one.
pub open spec fn round_half_even(n: nat, d: nat) -> nat {
    let q = n / d;
    let r = n % d;
    if 2 * r > d || (2 * r == d && q % 2 == 1) {
        q + 1
    } else {
        q
    }
}

/// The power of two that spaces 64-bit floats around `n`: 1 below 2^53, and doubled
/// with each halving of `n` needed to get below it.
pub open spec fn f64_spacing(n: nat) -> nat
    decreases n,
{
    if n < f64_exact_limit() {
        1
    } else {
        2 * f64_spacing(n / 2)
    }
}

/// The value of `n as f64`: `n` rounded to the nearest multiple of the spacing,
/// a tie going to the even multiple.
pub open spec fn f64_value(n: nat) -> nat {
    round_half_even(n, f64_spacing(n)) * f64_spacing(n)
}

/// `t` tenths written with one decimal: `{t / 10}.{t % 10}`.
pub open spec fn tenths_text(t: nat) -> Seq<char> {
    decimal(t / 10) + "."@ + seq![digit_char(t % 10)]
}

/// The size text: `n B` below 1024, else `x.y KB`, `x.y MB` or `x.y GB`, where
/// `x.y` is the quotient by 2^10, 2^20 or 2^30 rounded to tenths with ties to even
/// (for GB, of the size as a 64-bit float).
pub open spec fn size_text(bytes: nat) -> Seq<char> {
    if bytes < 1024 {
        decimal(bytes) + " B"@
    } else if bytes < 0x10_0000 {
        tenths_text(round_half_even(bytes * 10, 0x400)) + " KB"@
    } else if bytes < 0x4000_0000 {
        tenths_text(round_half_even(bytes * 10, 0x10_0000)) + " MB"@
    } else {
        tenths_text(round_half_even(f64_value(bytes) * 10, 0x4000_0000)) + " GB"@
    }
}

fn round_half_even_u128(n: u128, d: u128) -> (r: u128)
    requires
        d > 0,
        n < 0x4000_0000_0000_0000_0000_0000_0000_0000u128,
        d < 0x4000_0000_0000_0000_0000_0000_0000_0000u128,
    ensures
        r == round_half_even(n as nat, d as nat),
        r <= n / d + 1,
{
    let q = n / d;
    let rem = n % d;
    assert(q <= n) by (nonlinear_arith)
        requires
            q == n / d,
            d > 0,
    ;
    if 2 * rem > d || (2 * rem == d && q % 2 == 1) {
        q + 1
    } else {
        q
    }
}

/// Appends `t` tenths with one decimal.
fn push_tenths(s: &mut String, t: u64)
    ensures
        final(s)@ == old(s)@ + tenths_text(t as nat),
{
    push_decimal(s, t / 10);
    s.push('.');
    s.push(digit(t % 10));
    proof {
        reveal_strlit(".");
        assert("."@ =~= seq!['.']);
    }
    assert(s@ =~= old(s)@ + tenths_text(t as nat));
}

/// The value of `n as f64`, exactly.
fn f64_value_of(n: u64) -> (r: u128)
    ensures
        r == f64_value(n as nat),
        r <= 0x1_0000_0000_0000_1000,
{
    let mut m: u64 = n;
    let mut d: u64 = 1;
    while m >= 0x20_0000_0000_0000
        invariant
            d >= 1,
            m as nat == n as nat / d as nat,
            f64_spacing(n as nat) == d * f64_spacing(m as nat),
            d <= 0x1000,
            m >= 0x20_0000_0000_0000 ==> d * 0x20_0000_0000_0000 <= n as nat,
        decreases m,
    {
        proof {
            vstd::arithmetic::div_mod::lemma_div_denominator(n as int, d as int, 2);
            let x = f64_spacing((m / 2) as nat);
            assert(d * (2 * x) == (2 * d) * x) by (nonlinear_arith);
        }
        m = m / 2;
        d = d * 2;
        proof {
            assert(m >= 0x20_0000_0000_0000 ==> d * 0x20_0000_0000_0000 <= n as nat) by (nonlinear_arith)
                requires
                    m as nat == n as nat / d as nat,
                    d >= 1,
            ;
        }
    }
    assert(f64_spacing(m as nat) == 1);
    assert(d * 1 == d);
    let q = round_half_even_u128(n as u128, d as u128);
    proof {
        assert(q <= n as nat / d as nat + 1);
        assert(q * d <= n as nat + d) by (nonlinear_arith)
            requires
                q <= n as nat / d as nat + 1,
                d >= 1,
        ;
        assert(q * d <= 0x1_0000_0000_0000_1000);
    }
    q * (d as u128)
}

/// The size of a recording as `reach bags list` shows it.
pub fn format_size(bytes: u64) -> (r: String)
    ensures
        r@ == size_text(bytes as nat),
{
    let mut s = String::new();
    if bytes < 1024 {
        push_decimal(&mut s, bytes);
        s.append(" B");
    } else if bytes < 0x10_0000 {
        let t = round_half_even_u128((bytes as u128) * 10, 0x400);
        push_tenths(&mut s, t as u64);
        s.append(" KB");
    } else if bytes < 0x4000_0000 {
        let t = round_half_even_u128((bytes as u128) * 10, 0x10_0000);
        push_tenths(&mut s, t as u64);
        s.append(" MB");
    } else {
        let v = f64_value_of(bytes);
        let t = round_half_even_u128(v * 10, 0x4000_0000);
        push_tenths(&mut s, t as u64);
        s.append(" GB");
    }
    s
}


/// Rounding to the nearest multiple: the rounded quotient times the divisor is
/// within half the divisor of the exact value, so the one-decimal figure shown is
/// the size to the nearest tenth of its unit.
pub proof fn law_rounding_is_nearest(n: nat, d: nat)
    requires
        d > 0,
    ensures
        2 * (round_half_even(n, d) * d - n) <= d,
        2 * (n - round_half_even(n, d) * d) <= d,
{
    let q = n / d;
    let r = n % d;
    vstd::arithmetic::div_mod::lemma_fundamental_div_mod(n as int, d as int);
    assert(0 <= r < d);
    if 2 * r > d || (2 * r == d && q % 2 == 1) {
        assert((q + 1) * d == q * d + d) by (nonlinear_arith);
    }
}

} // verus!
