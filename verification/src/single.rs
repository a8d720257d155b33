//! Single-precision arithmetic on integers.
//!
//! Split ratios and the DPI scale are single-precision numbers: a sign, an
//! eight-bit exponent and a significand of 24 binary digits, each operation
//! rounded to the nearest such number, ties to the even one. The functions
//! here carry out the few operations the layout needs, on bit patterns and
//! exact integers.
use vstd::prelude::*;
use vstd::arithmetic::power2::*;
use vstd::arithmetic::div_mod::*;
use vstd::arithmetic::mul::*;

verus! {

// --------------------------------------------------------------- rounding

/// `n / d` rounded to the nearest integer, a tie to the even one.
pub open spec fn nearest(n: int, d: int) -> int {
    let q = n / d;
    let r = n % d;
    if 2 * r < d || (2 * r == d && q % 2 == 0) {
        q
    } else {
        q + 1
    }
}

/// By how many binary digits `x` exceeds 24.
pub open spec fn excess(x: nat) -> nat
    decreases x,
{
    if x < 0x100_0000 {
        0
    } else {
        1 + excess(x / 2)
    }
}

/// `x` rounded to 24 significant binary digits.
pub open spec fn sig24(x: nat) -> int {
    nearest(x as int, pow2(excess(x)) as int) * pow2(excess(x))
}

fn round_nearest(n: u128, d: u128) -> (r: u128)
    requires
        d > 0,
        n < 0x8000_0000_0000_0000_0000_0000_0000_0000,
        d < 0x8000_0000_0000_0000_0000_0000_0000_0000,
    ensures
        r == nearest(n as int, d as int),
        r <= n / d + 1,
{
    let q: u128 = n / d;
    let m: u128 = n % d;
    proof {
        assert(q <= n) by (nonlinear_arith)
            requires
                q == n / d,
                d > 0,
        ;
    }
    if 2 * m < d || (2 * m == d && q % 2 == 0) {
        q
    } else {
        q + 1
    }
}

/// Where the digits beyond 24 begin: the power of two that is the weight of
/// the last of 24 significant digits of `x`.
proof fn lemma_excess(x: nat)
    ensures
        pow2(excess(x)) > 0,
        x < 0x100_0000 * pow2(excess(x)),
        x >= 0x100_0000 ==> x >= 0x80_0000 * pow2(excess(x)),
        x < 0x100_0000 ==> pow2(excess(x)) == 1,
    decreases x,
{
    lemma_pow2_pos(excess(x));
    lemma2_to64();
    if x >= 0x100_0000 {
        lemma_excess(x / 2);
        lemma_pow2_unfold(excess(x));
    }
}

fn to_24_digits(x: u128) -> (r: u128)
    requires
        x < 0x100_0000_0000_0000_0000_0000_0000_0000,
    ensures
        r == sig24(x as nat),
        r < 0x200_0000_0000_0000_0000_0000_0000_0000,
{
    let mut y: u128 = x;
    let mut p: u128 = 1;
    let ghost mut k: nat = 0;
    proof {
        lemma2_to64();
        assert(x as int / 1 == x);
    }
    while y >= 0x100_0000
        invariant
            x < 0x100_0000_0000_0000_0000_0000_0000_0000,
            p == pow2(k),
            p > 0,
            y == x as int / p as int,
            p * y <= x,
            excess(x as nat) == k + excess(y as nat),
        decreases y,
    {
        proof {
            let (xi, pi, yi) = (x as int, p as int, y as int);
            lemma_div_denominator(xi, pi, 2);
            lemma_pow2_unfold((k + 1) as nat);
            assert(2 * pi * (yi / 2) <= xi) by (nonlinear_arith)
                requires
                    pi * yi <= xi,
                    pi > 0,
            ;
            assert(2 * pi <= xi) by (nonlinear_arith)
                requires
                    pi * yi <= xi,
                    yi >= 2,
                    pi > 0,
            ;
            assert(pi * 2 == 2 * pi);
            k = k + 1;
        }
        y = y / 2;
        p = p * 2;
    }
    proof {
        assert(excess(y as nat) == 0);
        assert(k == excess(x as nat));
        lemma_excess(x as nat);
    }
    let q: u128 = round_nearest(x, p);
    proof {
        let (xi, pi, qi) = (x as int, p as int, q as int);
        assert(p <= x || p == 1) by {
            if x < 0x100_0000 {
                assert(p == 1);
            } else {
                assert(0x80_0000 * pi >= pi) by (nonlinear_arith)
                    requires
                        pi > 0,
                ;
            }
        }
        assert(qi * pi <= xi + pi) by (nonlinear_arith)
            requires
                qi <= xi / pi + 1,
                pi > 0,
                xi >= 0,
        ;
    }
    q * p
}

/// Rounding to 24 digits is off by at most one part in 2^24, and leaves
/// numbers below 2^24 alone.
pub proof fn lemma_sig24(x: nat)
    ensures
        x < 0x100_0000 ==> sig24(x) == x,
        -(x as int) <= 0x100_0000 * (sig24(x) - x) <= x,
        x > 0 ==> sig24(x) > 0,
{
    lemma_excess(x);
    let p = pow2(excess(x)) as int;
    let q = x as int / p;
    let r = x as int % p;
    let n = nearest(x as int, p);
    lemma_fundamental_div_mod(x as int, p);
    if x < 0x100_0000 {
        assert(p == 1);
        assert(n == x);
    } else {
        assert(n == q || n == q + 1);
        if n == q {
            assert(n * p == x - r) by (nonlinear_arith)
                requires
                    x == p * q + r,
                    n == q,
            ;
            assert(2 * r <= p);
        } else {
            assert(n * p == x - r + p) by (nonlinear_arith)
                requires
                    x == p * q + r,
                    n == q + 1,
            ;
            assert(2 * (p - r) <= p);
        }
    }
}

// ------------------------------------------------------------ bit patterns

/// A split ratio: the bit pattern of a single-precision number.
#[derive(Clone, Copy, Debug, PartialEq, Eq, Structural)]
pub struct Ratio {
    pub bits: u32,
}

proof fn lemma_excess_shifted(n: nat, k: nat)
    requires
        n < 0x100_0000,
    ensures
        excess(n * pow2(k)) <= k,
    decreases k,
{
    lemma2_to64();
    let x = n * pow2(k);
    if k == 0 {
        assert(x == n) by (nonlinear_arith)
            requires
                x == n * pow2(k),
                pow2(k) == 1,
        ;
    } else if x >= 0x100_0000 {
        lemma_pow2_unfold(k);
        let h = (k - 1) as nat;
        assert(x == 2 * (n * pow2(h))) by (nonlinear_arith)
            requires
                x == n * pow2(k),
                pow2(k) == 2 * pow2(h),
        ;
        assert(x / 2 == n * pow2(h));
        lemma_excess_shifted(n, h);
    }
}

proof fn lemma_excess_grows(x: nat, y: nat)
    requires
        x <= y,
    ensures
        excess(x) <= excess(y),
    decreases y,
{
    if x >= 0x100_0000 {
        lemma_excess_grows(x / 2, y / 2);
    }
}

/// Rounding does not lead past a number with few digits followed by zeros.
pub proof fn lemma_sig24_below(x: nat, n: nat, k: nat)
    requires
        n < 0x100_0000,
        x <= n * pow2(k),
    ensures
        0 <= sig24(x) <= n * pow2(k),
{
    let limit = (n * pow2(k)) as int;
    lemma_excess_grows(x, limit as nat);
    lemma_excess_shifted(n, k);
    let e = excess(x);
    lemma_pow2_pos(e);
    lemma_pow2_adds(e, (k - e) as nat);
    let p = pow2(e) as int;
    let m = (n * pow2((k - e) as nat)) as int;
    assert(limit == m * p) by (nonlinear_arith)
        requires
            limit == n * pow2(k),
            pow2(k) == pow2(e) * pow2((k - e) as nat),
            m == n * pow2((k - e) as nat),
            p == pow2(e),
    ;
    let q = x as int / p;
    let r = x as int % p;
    lemma_fundamental_div_mod(x as int, p);
    let near = nearest(x as int, p);
    assert(0 <= q) by (nonlinear_arith)
        requires
            q == x as int / p,
            p > 0,
            x >= 0,
    ;
    assert(0 <= near <= m) by {
        if r == 0 {
            assert(near == q);
            assert(q <= m) by (nonlinear_arith)
                requires
                    x == p * q + r,
                    r == 0,
                    x <= m * p,
                    p > 0,
            ;
        } else {
            assert(near <= q + 1);
            assert(q < m) by (nonlinear_arith)
                requires
                    x == p * q + r,
                    r > 0,
                    x <= m * p,
                    p > 0,
            ;
        }
    }
    assert(0 <= near * p <= m * p) by (nonlinear_arith)
        requires
            0 <= near <= m,
            p > 0,
    ;
}

/// A rounded number has few digits, followed by zeros.
pub proof fn lemma_sig24_form(x: nat) -> (r: (nat, nat))
    ensures
        r.0 < 0x100_0000,
        sig24(x) == r.0 * pow2(r.1),
{
    lemma_excess(x);
    let e = excess(x);
    let p = pow2(e) as int;
    let q = x as int / p;
    let near = nearest(x as int, p);
    lemma_fundamental_div_mod(x as int, p);
    assert(0 <= q < 0x100_0000) by (nonlinear_arith)
        requires
            q == x as int / p,
            0 <= x < 0x100_0000 * p,
            p > 0,
    ;
    if near < 0x100_0000 {
        (near as nat, e)
    } else {
        lemma_pow2_unfold(e + 1);
        assert(near == 0x100_0000);
        assert(0x100_0000 * p == 0x80_0000 * (2 * p));
        (0x80_0000, e + 1)
    }
}

/// Numbers with few digits followed by zeros are not rounded.
pub proof fn lemma_sig24_shifted(n: nat, k: nat)
    requires
        n < 0x100_0000,
    ensures
        sig24(n * pow2(k)) == n * pow2(k),
{
    lemma_excess_shifted(n, k);
    let x = n * pow2(k);
    let e = excess(x);
    lemma_pow2_pos(e);
    lemma_pow2_adds(e, (k - e) as nat);
    let p = pow2(e) as int;
    let m = n * pow2((k - e) as nat);
    assert(x == m * p) by (nonlinear_arith)
        requires
            x == n * pow2(k),
            pow2(k) == pow2(e) * pow2((k - e) as nat),
            m == n * pow2((k - e) as nat),
            p == pow2(e),
    ;
    lemma_fundamental_div_mod_converse(x as int, p, m as int, 0);
}

/// One half, the even split.
pub const R_0_50: u32 = 0x3F00_0000;

pub const R_0_10: u32 = 0x3DCC_CCCD;

pub const R_0_15: u32 = 0x3E19_999A;

pub const R_0_85: u32 = 0x3F59_999A;

pub const R_0_90: u32 = 0x3F66_6666;

/// 0.05 in units of 2^-28.
pub const STEP: u32 = 13421773;

/// 0.15 in units of 2^-28.
pub const LEAST: u32 = 40265320;

/// 0.85 in units of 2^-28.
pub const MOST: u32 = 228170144;

/// Is `b` the pattern of "not a number"?
pub open spec fn is_nan(b: u32) -> bool {
    b % 0x8000_0000 > 0x7F80_0000
}

/// Order of the numbers behind two patterns, as integers.
pub open spec fn rank(b: u32) -> int {
    if b >= 0x8000_0000 {
        0x8000_0000 - b
    } else {
        b as int
    }
}

/// The value of a number of at least 2^-5 and below 2, in units of 2^-28.
pub open spec fn units(b: u32) -> int {
    let e = b / 0x80_0000;
    let m = 0x80_0000 + b % 0x80_0000;
    if e == 122 {
        m
    } else if e == 123 {
        m * 2
    } else if e == 124 {
        m * 4
    } else if e == 125 {
        m * 8
    } else if e == 126 {
        m * 16
    } else {
        m * 32
    }
}

/// The pattern of a value given in units of 2^-28, at least 2^-3 and below 1.
pub open spec fn pattern(u: int) -> int {
    if u < 0x400_0000 {
        124 * 0x80_0000 + (u / 4 - 0x80_0000)
    } else if u < 0x800_0000 {
        125 * 0x80_0000 + (u / 8 - 0x80_0000)
    } else {
        126 * 0x80_0000 + (u / 16 - 0x80_0000)
    }
}

fn nan(b: u32) -> (r: bool)
    ensures
        r == is_nan(b),
{
    b % 0x8000_0000 > 0x7F80_0000
}

fn rank_of(b: u32) -> (r: i64)
    ensures
        r == rank(b),
{
    if b >= 0x8000_0000 {
        0x8000_0000 - b as i64
    } else {
        b as i64
    }
}

fn units_of(b: u32) -> (r: u32)
    requires
        0x3D00_0000 <= b < 0x4000_0000,
    ensures
        r == units(b),
        0x80_0000 <= r < 0x2000_0000,
{
    let e: u32 = b / 0x80_0000;
    let m: u32 = 0x80_0000 + b % 0x80_0000;
    if e == 122 {
        m
    } else if e == 123 {
        m * 2
    } else if e == 124 {
        m * 4
    } else if e == 125 {
        m * 8
    } else if e == 126 {
        m * 16
    } else {
        m * 32
    }
}

/// A value held between 0.15 and 0.85, as a pattern; `u` is in units of
/// 2^-28.
pub open spec fn held(u: int) -> u32 {
    if u < LEAST {
        R_0_15
    } else if u > MOST {
        R_0_85
    } else {
        pattern(u) as u32
    }
}

fn hold(u: u64) -> (r: u32)
    ensures
        r == held(u as int),
{
    if u < LEAST as u64 {
        R_0_15
    } else if u > MOST as u64 {
        R_0_85
    } else {
        let v: u32 = u as u32;
        if v < 0x400_0000 {
            124 * 0x80_0000 + (v / 4 - 0x80_0000)
        } else if v < 0x800_0000 {
            125 * 0x80_0000 + (v / 8 - 0x80_0000)
        } else {
            126 * 0x80_0000 + (v / 16 - 0x80_0000)
        }
    }
}

impl Ratio {
    /// The ratio held between 0.1 and 0.9, in units of 2^-28; none for "not
    /// a number".
    pub open spec fn clamped(self) -> Option<int> {
        if is_nan(self.bits) {
            None
        } else if rank(self.bits) < R_0_10 {
            Some(units(R_0_10))
        } else if rank(self.bits) > R_0_90 {
            Some(units(R_0_90))
        } else {
            Some(units(self.bits))
        }
    }

    /// How many whole pixels of `span` the ratio keeps: the ratio is held
    /// between 0.1 and 0.9, the product rounded, then cut off.
    pub open spec fn kept(self, span: int) -> int {
        match self.clamped() {
            Some(u) => sig24((sig24(span as nat) * u) as nat) / 0x1000_0000,
            None => 0,
        }
    }

    /// How many whole pixels of `span` the ratio keeps.
    pub fn keep(self, span: i32) -> (r: i32)
        requires
            span >= 2,
        ensures
            r == self.kept(span as int),
            0 <= r < span,
    {
        if nan(self.bits) {
            return 0;
        }
        let rank: i64 = rank_of(self.bits);
        let b: u32 = if rank < R_0_10 as i64 {
            R_0_10
        } else if rank > R_0_90 as i64 {
            R_0_90
        } else {
            self.bits
        };
        let u: u32 = units_of(b);
        let s: u128 = to_24_digits(span as u128);
        proof {
            lemma_sig24(span as nat);
            assert(s * u < 0x1_0000_0000 * 0x2000_0000) by (nonlinear_arith)
                requires
                    0 <= s < 0x1_0000_0000,
                    0 <= u < 0x2000_0000,
            ;
        }
        let x: u128 = to_24_digits(s * (u as u128));
        proof {
            law_keep_below_span(self, span as int);
        }
        (x / 0x1000_0000) as i32
    }

    /// The ratio after one step: 0.05 more or less, held between 0.15 and
    /// 0.85.
    pub open spec fn stepped(self, grow: bool) -> Ratio {
        if is_nan(self.bits) {
            self
        } else if rank(self.bits) < 0x3D00_0000 {
            Ratio { bits: R_0_15 }
        } else if rank(self.bits) >= 0x4000_0000 {
            Ratio { bits: R_0_85 }
        } else {
            let u = units(self.bits);
            let v = if grow {
                u + STEP
            } else {
                u - STEP
            };
            if v <= 0 {
                Ratio { bits: R_0_15 }
            } else {
                Ratio { bits: held(sig24(v as nat)) }
            }
        }
    }

    /// One step up or down.
    pub fn step(self, grow: bool) -> (r: Ratio)
        ensures
            r == self.stepped(grow),
    {
        if nan(self.bits) {
            return self;
        }
        let rank: i64 = rank_of(self.bits);
        if rank < 0x3D00_0000 {
            return Ratio { bits: R_0_15 };
        }
        if rank >= 0x4000_0000 {
            return Ratio { bits: R_0_85 };
        }
        let u: u32 = units_of(self.bits);
        if !grow && u <= STEP {
            return Ratio { bits: R_0_15 };
        }
        let v: u32 = if grow {
            u + STEP
        } else {
            u - STEP
        };
        proof {
            lemma_sig24(v as nat);
        }
        let s: u128 = to_24_digits(v as u128);
        Ratio { bits: hold(s as u64) }
    }

    /// The share `part / span`, held between 0.15 and 0.85: both operands
    /// and the quotient are rounded.
    pub open spec fn of_parts(part: int, span: int) -> Ratio {
        if part <= 0 {
            Ratio { bits: R_0_15 }
        } else {
            let n = sig24(part as nat);
            let d = sig24(span as nat);
            if 8 * n < d {
                Ratio { bits: R_0_15 }
            } else if n >= d {
                Ratio { bits: R_0_85 }
            } else if 4 * n < d {
                Ratio { bits: held(nearest(n * 0x400_0000, d) * 4) }
            } else if 2 * n < d {
                Ratio { bits: held(nearest(n * 0x200_0000, d) * 8) }
            } else {
                Ratio { bits: held(nearest(n * 0x100_0000, d) * 16) }
            }
        }
    }

    /// The share `part / span`, held between 0.15 and 0.85.
    pub fn share(part: i32, span: i32) -> (r: Ratio)
        requires
            span >= 2,
        ensures
            r == Ratio::of_parts(part as int, span as int),
    {
        if part <= 0 {
            return Ratio { bits: R_0_15 };
        }
        proof {
            lemma_sig24(part as nat);
            lemma_sig24(span as nat);
        }
        let n: u128 = to_24_digits(part as u128);
        let d: u128 = to_24_digits(span as u128);
        if 8 * n < d {
            return Ratio { bits: R_0_15 };
        }
        if n >= d {
            return Ratio { bits: R_0_85 };
        }
        let (up, weight): (u128, u64) = if 4 * n < d {
            (0x400_0000, 4)
        } else if 2 * n < d {
            (0x200_0000, 8)
        } else {
            (0x100_0000, 16)
        };
        let q: u128 = round_nearest(n * up, d);
        proof {
            let (ni, di, ui, qi) = (n as int, d as int, up as int, q as int);
            assert(qi <= ui + 1) by (nonlinear_arith)
                requires
                    qi <= (ni * ui) / di + 1,
                    0 < ni < di,
                    ui > 0,
            ;
        }
        Ratio { bits: hold(q as u64 * weight) }
    }
}

// ----------------------------------------------------------------- factors

/// How often `d` must be doubled to exceed `n`.
pub open spec fn doublings(n: nat, d: nat) -> nat
    decreases (if d > n { 0 } else { n - d + 1 }),
{
    if d == 0 || n < d {
        0
    } else {
        1 + doublings(n, 2 * d)
    }
}

/// `n / d` rounded to 24 significant binary digits, in units of 2^-54.
pub open spec fn quotient(n: nat, d: nat) -> int {
    let p = pow2(doublings(n * 0x4000_0000, d));
    nearest((n * 0x40_0000_0000_0000) as int, (d * p) as int) * p
}

/// A non-negative single-precision factor, in units of 2^-54.
#[derive(Clone, Copy, Debug, PartialEq, Eq, Structural)]
pub struct Factor {
    pub units: u128,
}

/// The product of an integer and a factor: both operands and the product are
/// rounded to single precision, then the fraction is cut off, and the result
/// held to the range of 32-bit integers.
pub open spec fn scaled(v: int, units: int) -> int {
    let n = if v < 0 {
        -v
    } else {
        v
    };
    let x = sig24((sig24(n as nat) * units) as nat) / 0x40_0000_0000_0000;
    if v < 0 {
        if x > 0x8000_0000 {
            -0x8000_0000
        } else {
            -x
        }
    } else {
        if x > 0x7FFF_FFFF {
            0x7FFF_FFFF
        } else {
            x
        }
    }
}

impl Factor {
    /// Within the range of quotients of 32-bit integers.
    pub open spec fn wf(self) -> bool {
        self.units < 0x80_0000_0000_0000_0000_0000
    }

    /// The quotient of two positive integers, both rounded first.
    pub fn ratio(n: u32, d: u32) -> (r: Factor)
        requires
            d > 0,
        ensures
            r.units == quotient(sig24(n as nat) as nat, sig24(d as nat) as nat),
            r.wf(),
    {
        proof {
            lemma_sig24(n as nat);
            lemma_sig24(d as nat);
        }
        let a: u128 = to_24_digits(n as u128);
        let b: u128 = to_24_digits(d as u128);
        let lifted: u128 = a * 0x4000_0000;
        let mut dd: u128 = b;
        let mut p: u128 = 1;
        let ghost mut k: nat = 0;
        proof {
            lemma2_to64();
        }
        while lifted >= dd
            invariant
                lifted <= 0x1_0000_0100 * 0x4000_0000,
                b > 0,
                b <= 0x1_0000_0100,
                dd == b * p,
                p == pow2(k),
                0 < p <= 2 * lifted + 1,
                0 < dd <= 2 * lifted + b,
                doublings(lifted as nat, b as nat) == k + doublings(lifted as nat, dd as nat),
            decreases 2 * lifted + b - dd,
        {
            proof {
                lemma_pow2_unfold((k + 1) as nat);
                k = k + 1;
                let (bi, pi) = (b as int, p as int);
                assert(bi * (2 * pi) == 2 * (bi * pi)) by (nonlinear_arith);
                assert(pi <= bi * pi) by (nonlinear_arith)
                    requires
                        bi >= 1,
                        pi > 0,
                ;
            }
            dd = dd * 2;
            p = p * 2;
        }
        proof {
            assert(doublings(lifted as nat, dd as nat) == 0);
        }
        let top: u128 = a * 0x40_0000_0000_0000;
        let q: u128 = round_nearest(top, dd);
        proof {
            let (ti, di, pi, qi, bi) = (top as int, dd as int, p as int, q as int, b as int);
            assert(di >= pi) by (nonlinear_arith)
                requires
                    di == bi * pi,
                    bi >= 1,
                    pi > 0,
            ;
            assert(qi * pi <= ti + pi) by (nonlinear_arith)
                requires
                    qi <= ti / di + 1,
                    di >= pi,
                    pi > 0,
                    ti >= 0,
            ;
        }
        Factor { units: q * p }
    }

    /// `v` times the factor, in whole pixels.
    pub fn times(self, v: i32) -> (r: i32)
        requires
            self.wf(),
        ensures
            r == scaled(v as int, self.units as int),
    {
        let n: u128 = if v < 0 {
            (-(v as i64)) as u128
        } else {
            v as u128
        };
        proof {
            lemma_sig24(n as nat);
        }
        let s: u128 = to_24_digits(n);
        proof {
            let (si, ui) = (s as int, self.units as int);
            assert(0 <= si * ui <= 0x8000_0080 * 0x80_0000_0000_0000_0000_0000) by (nonlinear_arith)
                requires
                    0 <= si <= 0x8000_0080,
                    0 <= ui <= 0x80_0000_0000_0000_0000_0000,
            ;
        }
        let x: u128 = to_24_digits(s * self.units) / 0x40_0000_0000_0000;
        if v < 0 {
            if x >= 0x8000_0000 {
                i32::MIN
            } else {
                -(x as i32)
            }
        } else {
            if x > 0x7FFF_FFFF {
                i32::MAX
            } else {
                x as i32
            }
        }
    }
}

/// 1.08 in units of 2^-54.
pub const GROW: u128 = 19455551163334656;

/// The reciprocal of 1.08 in units of 2^-54.
pub const SHRINK: u128 = 16679998341513216;

// ------------------------------------------------------------------- laws

/// A ratio keeps less than the whole span.
pub proof fn law_keep_below_span(r: Ratio, span: int)
    requires
        2 <= span < 0x8000_0000,
    ensures
        0 <= r.kept(span) < span,
{
    match r.clamped() {
        Some(u) => {
            let s = sig24(span as nat);
            lemma_sig24(span as nat);
            assert(units(R_0_90) == 241591904);
            assert(units(R_0_10) == 26843546);
            assert(26843546 <= u <= 241591904) by {
                lemma_units_between(r.bits);
            }
            let x = (s * u) as nat;
            assert(0 <= s * u <= s * 241591904) by (nonlinear_arith)
                requires
                    0 <= u <= 241591904,
                    s >= 0,
            ;
            lemma_sig24(x);
            let y = sig24(x);
            assert(0x100_0000 * y <= 0x100_0001 * x);
            assert(0x100_0000 * s <= 0x100_0001 * span);
            assert(y < span * 0x1000_0000);
            assert(y >= 0);
            assert(0 <= y / 0x1000_0000 < span);
        },
        None => {},
    }
}

/// A share between 0.15 and 0.85 keeps what it was made from, up to two
/// pixels of rounding.
pub proof fn law_share_is_kept(part: int, span: int)
    requires
        2 <= span < 0x100_0000,
        3 * span <= 20 * part,
        20 * part <= 17 * span,
    ensures
        -2 <= Ratio::of_parts(part, span).kept(span) - part <= 1,
{
    let n = part;
    let d = span;
    lemma_sig24(n as nat);
    lemma_sig24(d as nat);
    let (up, w) = if 4 * n < d {
        (0x400_0000int, 4int)
    } else if 2 * n < d {
        (0x200_0000int, 8int)
    } else {
        (0x100_0000int, 16int)
    };
    let q = nearest(n * up, d);
    let u = q * w;
    lemma_nearest_close(n * up, d);
    assert(-d <= 2 * (q * d - n * up) <= d);
    assert(-8 * d <= u * d - n * 0x1000_0000 <= 8 * d) by (nonlinear_arith)
        requires
            -d <= 2 * (q * d - n * up) <= d,
            u == q * w,
            up * w == 0x1000_0000,
            0 < w <= 16,
            d > 0,
    ;
    let r = Ratio::of_parts(n, d);
    assert(r.bits == held(u));
    let v = units(r.bits);
    assert(units(R_0_15) == LEAST);
    assert(units(R_0_85) == MOST);
    assert(u < 0x1000_0000 + 16) by (nonlinear_arith)
        requires
            u * d <= n * 0x1000_0000 + 8 * d,
            n < d,
            d > 0,
    ;
    if u < LEAST {
        assert(u * d <= LEAST * d) by (nonlinear_arith)
            requires
                u <= LEAST,
                d > 0,
        ;
    } else if u > MOST {
        assert(u * d >= MOST * d) by (nonlinear_arith)
            requires
                u >= MOST,
                d > 0,
        ;
    } else {
        if w == 16 {
            assert(q >= 0x80_0000) by (nonlinear_arith)
                requires
                    -d <= 2 * (q * d - n * 0x100_0000),
                    2 * n >= d,
                    d > 0,
            ;
        } else if w == 8 {
            assert(0x80_0000 <= q <= 0x100_0000) by (nonlinear_arith)
                requires
                    -d <= 2 * (q * d - n * 0x200_0000) <= d,
                    4 * n >= d,
                    2 * n < d,
                    d > 0,
            ;
        } else {
            assert(q <= 0x100_0000) by (nonlinear_arith)
                requires
                    2 * (q * d - n * 0x400_0000) <= d,
                    4 * n < d,
                    d > 0,
            ;
        }
        assert(w == 4 ==> u == q * 4);
        assert(w == 8 ==> u == q * 8);
        assert(w == 16 ==> u == q * 16);
        assert(v == u);
    }
    assert(-8 * d <= v * d - n * 0x1000_0000 <= 8 * d);
    assert(LEAST <= v <= MOST);
    assert(r.clamped() == Some(v)) by {
        assert(R_0_10 <= rank(r.bits) <= R_0_90);
        assert(!is_nan(r.bits));
    }
    let x = d * v;
    assert(x == v * d) by (nonlinear_arith)
        requires
            x == d * v,
    ;
    lemma_sig24(x as nat);
}

/// Rounding to the nearest integer is off by half at most.
proof fn lemma_nearest_close(n: int, d: int)
    requires
        n >= 0,
        d > 0,
    ensures
        -d <= 2 * (nearest(n, d) * d - n) <= d,
{
    let q = n / d;
    let r = n % d;
    lemma_fundamental_div_mod(n, d);
    assert(q * d == n - r) by (nonlinear_arith)
        requires
            n == d * q + r,
    ;
    assert((q + 1) * d == q * d + d) by (nonlinear_arith);
}

/// Patterns between those of 0.1 and 0.9 stand for values between them.
proof fn lemma_units_between(b: u32)
    requires
        !is_nan(b),
    ensures
        R_0_10 <= rank(b) <= R_0_90 ==> units(R_0_10) <= units(b) <= units(R_0_90),
{
    if R_0_10 <= rank(b) <= R_0_90 {
        let e = b / 0x80_0000;
        assert(123 <= e <= 126);
    }
}

} // verus!
