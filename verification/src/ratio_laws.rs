//! What ratios do to a span: shares are held between limits, and a step is a
//! twentieth of the span.

use crate::single::{
    held, is_nan, lemma_sig24, nearest, pattern, rank, sig24, units, LEAST, MOST, R_0_15, R_0_85,
    Ratio, STEP,
};
use vstd::prelude::*;

verus! {

/// A share below 0.15 is held at 0.15, and one above 0.85 at 0.85.
pub proof fn law_shares_are_limited(part: int, span: int)
    requires
        2 <= span < 0x100_0000,
        part < span,
    ensures
        20 * part <= 3 * span ==> Ratio::of_parts(part, span).bits == 0x3E19_999A,
        20 * part >= 17 * span ==> Ratio::of_parts(part, span).bits == 0x3F59_999A,
{
    if part > 0 {
        lemma_sig24(part as nat);
        lemma_sig24(span as nat);
        let (n, d) = (part, span);
        if 20 * n <= 3 * d && 8 * n >= d {
            let q = nearest(n * 0x400_0000, d);
            lemma_nearest_most(n * 0x400_0000, d, 10066330);
            assert(q <= 10066330);
            assert(pattern(40265320) == 0x3E19_999A);
        }
        if 20 * n >= 17 * d {
            let q = nearest(n * 0x100_0000, d);
            assert(2 * (n * 0x100_0000) > 28521267 * d);
            assert((2 * 14260634 - 1) * d == 28521267 * d);
            lemma_nearest_least(n * 0x100_0000, d, 14260634);
            assert(q >= 14260634);
            assert(pattern(228170144) == 0x3F59_999A);
        }
    }
}

/// One step moves a divider by a twentieth of the span, up to two pixels:
/// forward as the near part grows, back as it shrinks, where the ratio stays
/// between 0.15 and 0.85.
pub proof fn law_step_is_a_twentieth(r: Ratio, span: int)
    requires
        2 <= span < 0x1_0000,
    ensures
        0x3E19_999A <= r.bits <= 0x3F4C_CCCC ==> -40 <= 20 * (r.stepped(true).kept(span) - r.kept(span))
            - span <= 40,
        0x3E4C_CCCE <= r.bits <= 0x3F59_999A ==> -40 <= 20 * (r.kept(span) - r.stepped(false).kept(
            span,
        )) - span <= 40,
{
    if 0x3E19_999A <= r.bits <= 0x3F59_999A {
        let u = units(r.bits);
        lemma_units_in(r.bits);
        lemma_kept(r, span);
        if r.bits <= 0x3F4C_CCCC {
            let v = (u + STEP) as nat;
            lemma_sig24(v);
            lemma_held(v);
            lemma_kept(r.stepped(true), span);
            let w = units(r.stepped(true).bits);
            assert(-16 <= w - u - 13421773 <= 16);
            lemma_spread(span, u, w, r.kept(span), r.stepped(true).kept(span));
        }
        if r.bits >= 0x3E4C_CCCE {
            let v = (u - STEP) as nat;
            lemma_sig24(v);
            lemma_held(v);
            lemma_kept(r.stepped(false), span);
            let w = units(r.stepped(false).bits);
            assert(-16 <= u - w - 13421773 <= 16);
            lemma_spread(span, w, u, r.stepped(false).kept(span), r.kept(span));
        }
    }
}

/// A ratio at its limit, or beyond it, does not step over it.
pub proof fn law_steps_are_limited(r: Ratio)
    requires
        !is_nan(r.bits),
    ensures
        r.bits < 0x8000_0000 && r.bits >= 0x3F59_999A ==> r.stepped(true).bits == 0x3F59_999A,
        r.bits >= 0x8000_0000 || r.bits <= 0x3E19_999A ==> r.stepped(false).bits == 0x3E19_999A,
        0x3E19_999A <= r.stepped(true).bits <= 0x3F59_999A,
        0x3E19_999A <= r.stepped(false).bits <= 0x3F59_999A,
{
    if 0x3D00_0000 <= rank(r.bits) < 0x4000_0000 {
        let u = units(r.bits);
        let e = r.bits / 0x80_0000;
        assert(122 <= e <= 127);
        assert(0x80_0000 <= u < 0x2000_0000);
        lemma_sig24((u + STEP) as nat);
        if u > STEP {
            lemma_sig24((u - STEP) as nat);
        }
        if r.bits >= 0x3F59_999A {
            assert(u >= 228170144);
            assert(sig24((u + STEP) as nat) > MOST);
        }
        if r.bits <= 0x3E19_999A {
            assert(u <= 40265320);
            assert(u > STEP ==> sig24((u - STEP) as nat) < LEAST);
        }
        lemma_pattern_between(sig24((u + STEP) as nat));
        if u > STEP {
            lemma_pattern_between(sig24((u - STEP) as nat));
        }
    }
}

proof fn lemma_pattern_between(v: int)
    ensures
        LEAST <= v <= MOST ==> 0x3E19_999A <= pattern(v) <= 0x3F59_999A,
{
}

proof fn lemma_units_in(b: u32)
    requires
        0x3E19_999A <= b <= 0x3F59_999A,
    ensures
        40265320 <= units(b) <= 228170144,
        b <= 0x3F4C_CCCC ==> units(b) <= 214748352,
        b >= 0x3E4C_CCCE ==> units(b) >= 53687096,
{
    let e = b / 0x80_0000;
    assert(124 <= e <= 126);
}

/// A value between the limits is held up to the rounding of its pattern.
proof fn lemma_held(v: nat)
    requires
        40265323 <= v <= 228170141,
    ensures
        ({
            let b = held(sig24(v));
            &&& 0x3E19_999A <= b <= 0x3F59_999A
            &&& -16 <= units(b) - v <= 16
        }),
{
    lemma_sig24(v);
    let s = sig24(v);
    assert(-14 <= s - v <= 14);
    if LEAST <= s <= MOST {
        let p = pattern(s);
        lemma_digits(v);
        if s < 0x400_0000 {
            assert(p / 0x80_0000 == 124 && p % 0x80_0000 == s / 4 - 0x80_0000);
        } else if s < 0x800_0000 {
            assert(p / 0x80_0000 == 125 && p % 0x80_0000 == s / 8 - 0x80_0000);
        } else {
            assert(p / 0x80_0000 == 126 && p % 0x80_0000 == s / 16 - 0x80_0000);
        }
    } else {
        assert(units(R_0_15) == LEAST);
        assert(units(R_0_85) == MOST);
    }
}

/// A rounded value of that size has zeros at its end.
proof fn lemma_digits(v: nat)
    requires
        40265316 <= v <= 228170160,
    ensures
        ({
            let s = sig24(v);
            &&& s < 0x400_0000 ==> s % 4 == 0
            &&& 0x400_0000 <= s < 0x800_0000 ==> s % 8 == 0
            &&& 0x800_0000 <= s ==> s % 16 == 0
        }),
{
    reveal_with_fuel(crate::single::excess, 6);
    vstd::arithmetic::power2::lemma2_to64();
    let e = crate::single::excess(v);
    assert(v < 0x400_0000 ==> e == 2);
    assert(0x400_0000 <= v < 0x800_0000 ==> e == 3);
    assert(0x800_0000 <= v ==> e == 4);
}

/// What a ratio between the limits keeps, as against the exact product.
proof fn lemma_kept(r: Ratio, span: int)
    requires
        2 <= span < 0x1_0000,
        0x3E19_999A <= r.bits <= 0x3F59_999A,
    ensures
        ({
            let x = span * units(r.bits);
            let k = r.kept(span) * 0x1000_0000;
            x - 0x1100_0000 <= k <= x + 0x100_0000
        }),
{
    lemma_units_in(r.bits);
    let u = units(r.bits);
    assert(r.clamped() == Some(u));
    lemma_sig24(span as nat);
    let x = span * u;
    assert(0 <= x <= 0x1_0000 * 0x1000_0000) by (nonlinear_arith)
        requires
            x == span * u,
            0 <= span <= 0x1_0000,
            0 <= u <= 0x1000_0000,
    ;
    lemma_sig24(x as nat);
    let y = sig24(x as nat);
    assert(x - 0x10_0000 <= y <= x + 0x10_0000);
    assert(r.kept(span) == y / 0x1000_0000);
}

proof fn lemma_spread(span: int, u: int, w: int, a: int, b: int)
    requires
        2 <= span < 0x1_0000,
        -16 <= w - u - 13421773 <= 16,
        span * u - 0x1100_0000 <= a * 0x1000_0000 <= span * u + 0x100_0000,
        span * w - 0x1100_0000 <= b * 0x1000_0000 <= span * w + 0x100_0000,
    ensures
        -40 <= 20 * (b - a) - span <= 40,
{
    let d = w - u - 13421773;
    assert(span * w == span * u + span * 13421773 + span * d) by (nonlinear_arith)
        requires
            w == u + 13421773 + d,
    ;
    assert(-16 * span <= span * d <= 16 * span) by (nonlinear_arith)
        requires
            -16 <= d <= 16,
            span >= 0,
    ;
}

proof fn lemma_nearest_most(n: int, d: int, m: int)
    requires
        0 <= n,
        d > 0,
        2 * n <= (2 * m - 1) * d || n <= m * d,
    ensures
        nearest(n, d) <= m,
{
    let q = n / d;
    let r = n % d;
    vstd::arithmetic::div_mod::lemma_fundamental_div_mod(n, d);
    assert(q * d == n - r) by (nonlinear_arith)
        requires
            n == d * q + r,
    ;
    assert(n <= m * d) by (nonlinear_arith)
        requires
            2 * n <= (2 * m - 1) * d || n <= m * d,
            d > 0,
    ;
    assert(q <= m) by (nonlinear_arith)
        requires
            q * d <= n,
            n <= m * d,
            d > 0,
    ;
    if q == m {
        assert(r == 0) by (nonlinear_arith)
            requires
                q * d == n - r,
                n <= m * d,
                q == m,
                r >= 0,
        ;
    }
}

proof fn lemma_nearest_least(n: int, d: int, m: int)
    requires
        0 <= n,
        d > 0,
        2 * n > (2 * m - 1) * d,
    ensures
        nearest(n, d) >= m,
{
    let q = n / d;
    let r = n % d;
    vstd::arithmetic::div_mod::lemma_fundamental_div_mod(n, d);
    assert(q * d == n - r) by (nonlinear_arith)
        requires
            n == d * q + r,
    ;
    assert(q >= m - 1) by (nonlinear_arith)
        requires
            2 * n > (2 * m - 1) * d,
            q * d == n - r,
            r < d,
            d > 0,
    ;
    if q == m - 1 {
        assert(2 * r > d) by (nonlinear_arith)
            requires
                2 * n > (2 * m - 1) * d,
                q * d == n - r,
                q == m - 1,
        ;
    }
}

} // verus!
