//! Ratios of counts in single precision, computed with whole numbers.
//!
//! A ratio is the quotient of two counts as IEEE 754 binary32 arithmetic has
//! it: both counts are first rounded to 24 significant bits, and so is their
//! quotient, each time to the nearest value and to the even one of two that are
//! equally near.

use vstd::prelude::*;
use vstd::arithmetic::power2::pow2;
use crate::number::{decimal, digits_value, push_decimal};
use crate::text_laws::law_decimal_stands_for_its_number;

verus! {

/// A significand has 24 bits: it lies below this bound.
pub const SIGNIFICAND_BOUND: u32 = 0x100_0000;

/// A significand has its highest bit set: it is at least this, unless it is 0.
pub const SIGNIFICAND_MIN: u32 = 0x80_0000;

/// A ratio that is not negative, in single precision.
#[derive(Debug, Clone, Copy, PartialEq, Eq, Structural)]
pub enum Ratio {
    /// Larger than every number.
    Infinite,
    /// `significand * 2^exponent`.
    Finite { significand: u32, exponent: i32 },
}

/// The whole number nearest to `n / d`, the even one of two equally near.
pub open spec fn nearest(n: nat, d: nat) -> nat {
    if 2 * (n % d) > d || (2 * (n % d) == d && (n / d) % 2 == 1) {
        n / d + 1
    } else {
        n / d
    }
}

/// The distance between the values with 24 significant bits around `n`: the
/// least power of two of which `n` holds fewer than 2^24.
pub open spec fn spacing(n: nat) -> nat
    decreases n,
{
    if n < SIGNIFICAND_BOUND {
        1
    } else {
        2 * spacing(n / 2)
    }
}

/// A count in single precision: `n` rounded to 24 significant bits.
pub open spec fn rounded(n: nat) -> nat {
    nearest(n, spacing(n)) * spacing(n)
}

/// `significand * 2^exponent`, with a significand that rounding has carried up
/// to its bound brought back into range.
pub open spec fn finite(significand: nat, exponent: int) -> Ratio {
    if significand == SIGNIFICAND_BOUND {
        Ratio::Finite { significand: SIGNIFICAND_MIN, exponent: (exponent + 1) as i32 }
    } else {
        Ratio::Finite { significand: significand as u32, exponent: exponent as i32 }
    }
}

/// `n / d * 2^exponent` in single precision, for positive `n` and `d`: the
/// quotient is first scaled by powers of two to 24 bits before the point, then
/// rounded.
pub open spec fn scaled_quotient(n: nat, d: nat, exponent: int) -> Ratio
    decreases
            (if n >= SIGNIFICAND_BOUND * d {
                (n / d) as int
            } else if n < SIGNIFICAND_MIN * d {
                SIGNIFICAND_MIN * d - n
            } else {
                0
            }),
        when n > 0 && d > 0
{
    if n >= SIGNIFICAND_BOUND * d {
        proof {
            lemma_halved(n, d);
        }
        scaled_quotient(n, 2 * d, exponent + 1)
    } else if n < SIGNIFICAND_MIN * d {
        scaled_quotient(2 * n, d, exponent - 1)
    } else {
        finite(nearest(n, d), exponent)
    }
}

/// `n / d` in single precision, for positive `d`.
pub open spec fn quotient(n: nat, d: nat) -> Ratio {
    if n == 0 {
        Ratio::Finite { significand: 0, exponent: 0 }
    } else {
        scaled_quotient(n, d, 0)
    }
}

pub proof fn lemma_halved(n: nat, d: nat)
    requires
        d > 0,
        n >= SIGNIFICAND_BOUND * d,
    ensures
        0 <= n / (2 * d) < n / d,
{
    assert(n / d >= SIGNIFICAND_BOUND) by (nonlinear_arith)
        requires
            d > 0,
            n >= 0x100_0000 * d,
    ;
    assert(n / (2 * d) == (n / d) / 2) by {
        vstd::arithmetic::div_mod::lemma_div_denominator(n as int, d as int, 2);
        assert(d * 2 == 2 * d);
    }
}

impl Ratio {
    /// The significand is 0, or has its highest bit set, and the exponent is
    /// one that the ratio of two counts can have.
    pub open spec fn wf(self) -> bool {
        match self {
            Ratio::Infinite => true,
            Ratio::Finite { significand, exponent } => {
                ||| significand == 0 && exponent == 0
                ||| SIGNIFICAND_MIN <= significand < SIGNIFICAND_BOUND && -100 <= exponent <= 50
            },
        }
    }

    /// The ratio is at least the whole number `n`.
    pub open spec fn at_least(self, n: nat) -> bool {
        match self {
            Ratio::Infinite => true,
            Ratio::Finite { significand, exponent } => if exponent >= 0 {
                significand * pow2(exponent as nat) >= n
            } else {
                significand >= n * pow2((-exponent) as nat)
            },
        }
    }

    /// Ten times the ratio, rounded to a whole number; for a finite ratio.
    pub open spec fn tenths(self) -> nat {
        match self {
            Ratio::Infinite => 0,
            Ratio::Finite { significand, exponent } => if exponent >= 0 {
                10 * significand as nat * pow2(exponent as nat)
            } else {
                nearest(10 * significand as nat, pow2((-exponent) as nat))
            },
        }
    }

    /// The ratio in decimal with one digit after the point, or `inf`.
    pub open spec fn rendered(self) -> Seq<char> {
        match self {
            Ratio::Infinite => "inf"@,
            Ratio::Finite { .. } => decimal(self.tenths() / 10) + "."@ + decimal(self.tenths() % 10),
        }
    }

    /// The IEEE 754 binary32 encoding of the ratio.
    pub open spec fn encoded(self) -> nat {
        match self {
            Ratio::Infinite => 0x7f80_0000,
            Ratio::Finite { significand, exponent } => if significand == 0 {
                0
            } else {
                ((exponent + 150) * 0x80_0000 + (significand - 0x80_0000)) as nat
            },
        }
    }

    /// `actual / expected` in single precision, infinite where `expected` is 0.
    pub fn of(actual: usize, expected: usize) -> (r: Ratio)
        ensures
            r.wf(),
            r == measured(actual as nat, expected as nat),
    {
        if expected == 0 {
            return Ratio::Infinite;
        }
        proof {
            lemma_rounded_bounds(actual as nat);
            lemma_rounded_bounds(expected as nat);
        }
        let n: u128 = round_count(actual);
        let d: u128 = round_count(expected);
        if n == 0 {
            return Ratio::Finite { significand: 0, exponent: 0 };
        }
        divide(n, d)
    }

    /// Whether the ratio is at least the whole number `n`.
    pub fn is_at_least(&self, n: u8) -> (r: bool)
        requires
            self.wf(),
        ensures
            r == self.at_least(n as nat),
    {
        match *self {
            Ratio::Infinite => true,
            Ratio::Finite { significand, exponent } => {
                if exponent >= 0 {
                    let power: u128 = power_of_two(exponent as u32);
                    assert(significand * power <= 0x100_0000 * 0x4_0000_0000_0000) by (nonlinear_arith)
                        requires
                            significand <= 0x100_0000,
                            power <= 0x4_0000_0000_0000,
                    ;
                    significand as u128 * power >= n as u128
                } else {
                    let power: u128 = power_of_two((-exponent) as u32);
                    assert(n * power <= 0xff * 0x10_0000_0000_0000_0000_0000_0000) by (nonlinear_arith)
                        requires
                            n <= 0xff,
                            power <= 0x10_0000_0000_0000_0000_0000_0000,
                    ;
                    significand as u128 >= n as u128 * power
                }
            },
        }
    }

    /// Adds the ratio at the end of `out`, in decimal with one digit after the
    /// point, or as `inf`.
    pub fn push_to(&self, out: &mut String)
        requires
            self.wf(),
        ensures
            final(out)@ == old(out)@ + self.rendered(),
    {
        match *self {
            Ratio::Infinite => {
                out.append("inf");
            },
            Ratio::Finite { significand, exponent } => {
                let ten: u128 = 10 * significand as u128;
                let tenths: u128 = if exponent >= 0 {
                    let power: u128 = power_of_two(exponent as u32);
                    assert(ten * power <= 0xa00_0000 * 0x4_0000_0000_0000) by (nonlinear_arith)
                        requires
                            ten <= 0xa00_0000,
                            power <= 0x4_0000_0000_0000,
                    ;
                    ten * power
                } else {
                    divide_to_nearest(ten, power_of_two((-exponent) as u32))
                };
                push_decimal(out, tenths / 10);
                out.append(".");
                push_decimal(out, tenths % 10);
            },
        }
    }

    /// The IEEE 754 binary32 encoding of the ratio.
    pub fn to_bits(&self) -> (r: u32)
        requires
            self.wf(),
        ensures
            r == self.encoded(),
    {
        match *self {
            Ratio::Infinite => 0x7f80_0000,
            Ratio::Finite { significand, exponent } => {
                if significand == 0 {
                    0
                } else {
                    (exponent + 150) as u32 * 0x80_0000 + (significand - 0x80_0000)
                }
            },
        }
    }
}

/// 2^k.
fn power_of_two(k: u32) -> (r: u128)
    requires
        k <= 100,
    ensures
        r == pow2(k as nat),
        1 <= r <= 0x10_0000_0000_0000_0000_0000_0000,
        k <= 50 ==> r <= 0x4_0000_0000_0000,
{
    let mut power: u128 = 1;
    let mut i: u32 = 0;
    proof {
        vstd::arithmetic::power2::lemma2_to64();
    }
    while i < k
        invariant
            i <= k <= 100,
            power == pow2(i as nat),
            power <= 0x10_0000_0000_0000_0000_0000_0000,
        decreases k - i,
    {
        proof {
            lemma_pow2_100();
            if i + 1 < 100 {
                vstd::arithmetic::power2::lemma_pow2_strictly_increases((i + 1) as nat, 100);
            }
            vstd::arithmetic::power2::lemma_pow2_unfold((i + 1) as nat);
        }
        power = 2 * power;
        i += 1;
    }
    proof {
        vstd::arithmetic::power2::lemma_pow2_pos(k as nat);
        vstd::arithmetic::power2::lemma2_to64_rest();
        if k < 50 {
            vstd::arithmetic::power2::lemma_pow2_strictly_increases(k as nat, 50);
        }
    }
    power
}

proof fn lemma_pow2_100()
    ensures
        pow2(100) == 0x10_0000_0000_0000_0000_0000_0000,
{
    vstd::arithmetic::power2::lemma2_to64();
    vstd::arithmetic::power2::lemma2_to64_rest();
    vstd::arithmetic::power2::lemma_pow2_adds(64, 36);
}

/// `actual / expected` in single precision, infinite where `expected` is 0.
pub open spec fn measured(actual: nat, expected: nat) -> Ratio {
    if expected == 0 {
        Ratio::Infinite
    } else {
        quotient(rounded(actual), rounded(expected))
    }
}

/// `n / d`, rounded to the nearest whole number, to even on a tie.
fn divide_to_nearest(n: u128, d: u128) -> (r: u128)
    requires
        d > 0,
        n < u128::MAX,
    ensures
        r == nearest(n as nat, d as nat),
{
    let q: u128 = n / d;
    let rest: u128 = n % d;
    if rest > d - rest || (rest == d - rest && q % 2 == 1) {
        assert(q <= n) by (nonlinear_arith)
            requires
                q == n / d,
                d > 0,
        ;
        q + 1
    } else {
        q
    }
}

proof fn lemma_spacing(n: nat)
    ensures
        spacing(n) >= 1,
        n < SIGNIFICAND_BOUND * spacing(n),
        spacing(n) == 1 || SIGNIFICAND_MIN * spacing(n) <= n,
    decreases n,
{
    if n >= SIGNIFICAND_BOUND {
        lemma_spacing(n / 2);
    }
}

proof fn lemma_nearest_bounds(n: nat, d: nat, low: nat, high: nat)
    requires
        d > 0,
        low * d <= n < high * d,
    ensures
        low <= nearest(n, d) <= high,
{
    assert(low <= n / d < high) by (nonlinear_arith)
        requires
            d > 0,
            low * d <= n < high * d,
    ;
}

/// A count and its rounding to single precision lie within a factor of two of
/// each other, and are the same below 2^24.
proof fn lemma_rounded_bounds(n: nat)
    ensures
        rounded(n) <= 2 * n,
        n <= 2 * rounded(n),
        n < SIGNIFICAND_BOUND ==> rounded(n) == n,
{
    let s = spacing(n);
    lemma_spacing(n);
    if n < SIGNIFICAND_BOUND {
        assert(nearest(n, 1) == n);
    } else {
        assert(s >= 2) by {
            lemma_spacing(n / 2);
        }
        lemma_nearest_bounds(n, s, SIGNIFICAND_MIN as nat, SIGNIFICAND_BOUND as nat);
        let q = nearest(n, s);
        assert(0x80_0000 * s <= q * s <= 0x100_0000 * s) by (nonlinear_arith)
            requires
                0x80_0000 <= q <= 0x100_0000,
        ;
    }
}

/// A count in single precision.
fn round_count(n: usize) -> (r: u128)
    ensures
        r == rounded(n as nat),
{
    let wide: u128 = n as u128;
    let bound: u128 = SIGNIFICAND_BOUND as u128;
    let mut s: u128 = 1;
    assert(n as nat / 1 == n);
    while wide >= bound * s
        invariant
            wide == n,
            bound == SIGNIFICAND_BOUND,
            1 <= s,
            bound * s <= 2 * wide + bound,
            spacing(n as nat) == s * spacing(n as nat / s as nat),
        decreases 2 * wide + bound - s,
    {
        proof {
            lemma_halved(n as nat, s as nat);
            let half = spacing(n as nat / (2 * s) as nat);
            vstd::arithmetic::div_mod::lemma_div_denominator(n as int, s as int, 2);
            assert(s * (2 * half) == (2 * s) * half) by (nonlinear_arith);
            assert(n as nat / s as nat >= 0x100_0000) by (nonlinear_arith)
                requires
                    n >= 0x100_0000 * s,
                    s >= 1,
            ;
            assert(s * 2 == 2 * s);
        }
        s = 2 * s;
    }
    proof {
        lemma_rounded_bounds(n as nat);
        assert((n as nat) / (s as nat) < 0x100_0000) by (nonlinear_arith)
            requires
                n < 0x100_0000 * s,
                s >= 1,
        ;
        assert(s * 1 == s);
    }
    divide_to_nearest(wide, s) * s
}

/// `n / d` in single precision.
fn divide(n: u128, d: u128) -> (r: Ratio)
    requires
        0 < n <= 0x2_0000_0000_0000_0000,
        0 < d <= 0x2_0000_0000_0000_0000,
    ensures
        r.wf(),
        r == quotient(n as nat, d as nat),
{
    let low: u128 = SIGNIFICAND_MIN as u128;
    let bound: u128 = SIGNIFICAND_BOUND as u128;
    let mut top: u128 = n;
    let mut bottom: u128 = d;
    let mut exponent: i32 = 0;
    proof {
        vstd::arithmetic::power2::lemma2_to64();
        assert(n * 1 == n && d * 1 == d);
    }
    while top >= bound * bottom
        invariant
            bound == SIGNIFICAND_BOUND,
            0 < top == n <= 0x2_0000_0000_0000_0000,
            0 < d <= bottom <= 0x2_0000_0000_0000_0000,
            0 <= exponent <= 42,
            scaling(top as nat, bottom as nat, exponent as int, n as nat, d as nat),
            quotient(n as nat, d as nat) == scaled_quotient(
                top as nat,
                bottom as nat,
                exponent as int,
            ),
        decreases top - bottom,
    {
        proof {
            lemma_scaling_bounds(top as nat, bottom as nat, exponent as int, n as nat, d as nat);
            lemma_scaling_up(top as nat, bottom as nat, exponent as int, n as nat, d as nat);
        }
        bottom = 2 * bottom;
        exponent += 1;
    }
    while top < low * bottom
        invariant
            low == SIGNIFICAND_MIN,
            bound == SIGNIFICAND_BOUND,
            0 < n <= 0x2_0000_0000_0000_0000,
            0 < d <= 0x2_0000_0000_0000_0000,
            0 < top < bound * bottom,
            0 < bottom <= 0x2_0000_0000_0000_0000,
            -89 <= exponent <= 42,
            scaling(top as nat, bottom as nat, exponent as int, n as nat, d as nat),
            quotient(n as nat, d as nat) == scaled_quotient(
                top as nat,
                bottom as nat,
                exponent as int,
            ),
        decreases bound * bottom - top,
    {
        proof {
            lemma_scaling_bounds(top as nat, bottom as nat, exponent as int, n as nat, d as nat);
            lemma_scaling_down(top as nat, bottom as nat, exponent as int, n as nat, d as nat);
        }
        top = 2 * top;
        exponent -= 1;
    }
    proof {
        lemma_nearest_bounds(top as nat, bottom as nat, low as nat, bound as nat);
    }
    let significand: u32 = divide_to_nearest(top, bottom) as u32;
    if significand == SIGNIFICAND_BOUND {
        Ratio::Finite { significand: SIGNIFICAND_MIN, exponent: exponent + 1 }
    } else {
        Ratio::Finite { significand, exponent }
    }
}

/// `top / bottom * 2^exponent` is `n / d`, and only one of `n` and `d` has been
/// scaled, and no further than it takes.
spec fn scaling(top: nat, bottom: nat, exponent: int, n: nat, d: nat) -> bool {
    &&& exponent >= 0 ==> top == n && bottom == d * pow2(exponent as nat)
    &&& exponent <= 0 ==> bottom == d && top == n * pow2((-exponent) as nat)
    &&& exponent > 0 ==> top >= SIGNIFICAND_MIN * bottom
    &&& exponent < 0 ==> top < SIGNIFICAND_BOUND * bottom
}

proof fn lemma_scaling_up(top: nat, bottom: nat, exponent: int, n: nat, d: nat)
    requires
        scaling(top, bottom, exponent, n, d),
        top >= SIGNIFICAND_BOUND * bottom,
    ensures
        scaling(top, 2 * bottom, exponent + 1, n, d),
{
    vstd::arithmetic::power2::lemma_pow2_unfold((exponent + 1) as nat);
    let p = pow2(exponent as nat);
    assert(d * (2 * p) == 2 * (d * p)) by (nonlinear_arith);
    assert(pow2(0) == 1) by {
        vstd::arithmetic::power2::lemma2_to64();
    }
    assert(n * 1 == n && d * 1 == d);
}

proof fn lemma_scaling_down(top: nat, bottom: nat, exponent: int, n: nat, d: nat)
    requires
        scaling(top, bottom, exponent, n, d),
        top < SIGNIFICAND_MIN * bottom,
    ensures
        scaling(2 * top, bottom, exponent - 1, n, d),
{
    assert(pow2(0) == 1) by {
        vstd::arithmetic::power2::lemma2_to64();
    }
    assert(n * 1 == n && d * 1 == d);
    vstd::arithmetic::power2::lemma_pow2_unfold((1 - exponent) as nat);
    let p = pow2((-exponent) as nat);
    assert(n * (2 * p) == 2 * (n * p)) by (nonlinear_arith);
}

/// Where scaling ends.
proof fn lemma_scaled(top: nat, bottom: nat, exponent: int, n: nat, d: nat) -> (end: (nat, nat, int))
    requires
        scaling(top, bottom, exponent, n, d),
        0 < n <= 0x2_0000_0000_0000_0000,
        0 < d <= 0x2_0000_0000_0000_0000,
        top > 0,
        bottom > 0,
        -89 <= exponent <= 42,
    ensures
        scaling(end.0, end.1, end.2, n, d),
        SIGNIFICAND_MIN * end.1 <= end.0 < SIGNIFICAND_BOUND * end.1,
        end.1 > 0,
        -89 <= end.2 <= 42,
        scaled_quotient(top, bottom, exponent) == finite(nearest(end.0, end.1), end.2),
    decreases
            (if top >= SIGNIFICAND_BOUND * bottom {
                (top / bottom) as int
            } else if top < SIGNIFICAND_MIN * bottom {
                SIGNIFICAND_MIN * bottom - top
            } else {
                0
            }),
{
    lemma_scaling_bounds(top, bottom, exponent, n, d);
    if top >= SIGNIFICAND_BOUND * bottom {
        lemma_halved(top, bottom);
        lemma_scaling_up(top, bottom, exponent, n, d);
        lemma_scaled(top, 2 * bottom, exponent + 1, n, d)
    } else if top < SIGNIFICAND_MIN * bottom {
        lemma_scaling_down(top, bottom, exponent, n, d);
        lemma_scaled(2 * top, bottom, exponent - 1, n, d)
    } else {
        (top, bottom, exponent)
    }
}

/// Rounding reaches an even number from half a step below it on.
proof fn lemma_nearest_reaches(n: nat, d: nat, m: nat)
    requires
        d > 0,
        m > 0,
        m % 2 == 0,
    ensures
        nearest(n, d) >= m <==> 2 * n >= d * (2 * m - 1),
{
    let q = n / d;
    let r = n % d;
    assert(n == q * d + r && 0 <= r < d) by (nonlinear_arith)
        requires
            d > 0,
            q == n / d,
            r == n % d,
    ;
    if q >= m {
        assert(2 * (q * d) >= d * (2 * m - 1)) by (nonlinear_arith)
            requires
                q >= m,
                d > 0,
        ;
    } else if q == m - 1 {
        assert(d * (2 * m - 1) == 2 * (q * d) + d) by (nonlinear_arith)
            requires
                q == m - 1,
        ;
    } else {
        assert(2 * (q * d) + 2 * d < d * (2 * m - 1)) by (nonlinear_arith)
            requires
                q + 2 <= m,
                d > 0,
        ;
    }
}

/// A ratio reaches the whole number `n` from half a step below it on, where a
/// step is the distance between the values in single precision just below `n`.
/// Here `n` has `bits` bits after its first one, and `steps` steps make 1.
proof fn lemma_reaches(x: nat, y: nat, n: nat, bits: nat, steps: nat)
    requires
        0 < x <= 0x2_0000_0000_0000_0000,
        0 < y <= 0x2_0000_0000_0000_0000,
        bits == 1 && n == 3 && steps == 0x40_0000 || bits == 2 && n == 5 && steps == 0x20_0000,
    ensures
        quotient(x, y).at_least(n) <==> 2 * steps * x >= y * (2 * n * steps - 1),
{
    vstd::arithmetic::power2::lemma2_to64();
    assert(x * 1 == x && y * 1 == y);
    let end = lemma_scaled(x, y, 0, x, y);
    let (top, bottom, exponent) = end;
    lemma_nearest_bounds(top, bottom, SIGNIFICAND_MIN as nat, SIGNIFICAND_BOUND as nat);
    let s = nearest(top, bottom);
    let r = quotient(x, y);
    assert(r == finite(s, exponent));
    let critical = (23 - bits) as nat;
    assert(pow2(critical) == steps);
    assert(pow2((critical - 1) as nat) == steps / 2);
    assert(pow2((critical + 1) as nat) == 2 * steps);
    if exponent == -critical {
        lemma_nearest_reaches(top, bottom, n * steps);
        assert(2 * (x * steps) == 2 * steps * x) by (nonlinear_arith);
        assert(y * (2 * (n * steps) - 1) == y * (2 * n * steps - 1)) by (nonlinear_arith);
    } else if exponent > -critical {
        if exponent >= 0 {
            let p = pow2(exponent as nat);
            vstd::arithmetic::power2::lemma_pow2_pos(exponent as nat);
            vstd::arithmetic::power2::lemma_pow2_pos((exponent + 1) as nat);
            assert(2 * steps * x >= y * (2 * n * steps - 1)) by (nonlinear_arith)
                requires
                    x >= 0x80_0000 * (y * p),
                    p >= 1,
                    steps >= 1,
                    y > 0,
                    n <= 5,
            ;
            let q = pow2((exponent + 1) as nat);
            assert(s * p >= n) by (nonlinear_arith)
                requires
                    s >= 0x80_0000,
                    p >= 1,
                    n <= 5,
            ;
            assert(0x80_0000 * q >= n) by (nonlinear_arith)
                requires
                    q >= 1,
                    n <= 5,
            ;
        } else {
            let p = pow2((-exponent) as nat);
            if -exponent < critical - 1 {
                vstd::arithmetic::power2::lemma_pow2_strictly_increases(
                    (-exponent) as nat,
                    (critical - 1) as nat,
                );
            }
            assert(p <= steps / 2);
            assert(top == x * p && bottom == y);
            assert(4 * (x * p) <= 2 * steps * x) by (nonlinear_arith)
                requires
                    2 * p <= steps,
            ;
            assert(2 * steps * x >= y * (2 * n * steps - 1)) by (nonlinear_arith)
                requires
                    2 * steps * x >= 0x200_0000 * y,
                    2 * n * steps <= 0x200_0000,
            ;
            vstd::arithmetic::power2::lemma_pow2_unfold((-exponent) as nat);
        }
    } else {
        let p = pow2((-exponent) as nat);
        if -exponent > critical + 1 {
            vstd::arithmetic::power2::lemma_pow2_strictly_increases(
                (critical + 1) as nat,
                (-exponent) as nat,
            );
        }
        assert(p >= 2 * steps);
        vstd::arithmetic::power2::lemma_pow2_unfold((-exponent) as nat);
        assert(x * p >= x * (2 * steps)) by (nonlinear_arith)
            requires
                p >= 2 * steps,
        ;
        assert(x * (2 * steps) == 2 * steps * x) by (nonlinear_arith);
        assert(2 * steps * x < y * (2 * n * steps - 1)) by (nonlinear_arith)
            requires
                2 * steps * x < 0x100_0000 * y,
                0x100_0000 <= 2 * n * steps - 1,
                y > 0,
        ;
        assert(n * p >= n * (2 * steps)) by (nonlinear_arith)
            requires
                p >= 2 * steps,
        ;
    }
}

/// Scaling stops before the exponent leaves the range that counts call for.
proof fn lemma_scaling_bounds(top: nat, bottom: nat, exponent: int, n: nat, d: nat)
    requires
        scaling(top, bottom, exponent, n, d),
        0 < n <= 0x2_0000_0000_0000_0000,
        0 < d <= 0x2_0000_0000_0000_0000,
    ensures
        top >= SIGNIFICAND_BOUND * bottom ==> exponent < 42,
        top < SIGNIFICAND_MIN * bottom ==> exponent > -89,
{
    vstd::arithmetic::power2::lemma2_to64();
    vstd::arithmetic::power2::lemma2_to64_rest();
    if exponent >= 42 {
        if exponent > 42 {
            vstd::arithmetic::power2::lemma_pow2_strictly_increases(42, exponent as nat);
        }
        let p = pow2(exponent as nat);
        assert(d * p >= 0x400_0000_0000) by (nonlinear_arith)
            requires
                d > 0,
                p >= 0x400_0000_0000,
        ;
    }
    if exponent <= -89 {
        vstd::arithmetic::power2::lemma_pow2_adds(64, 25);
        if exponent < -89 {
            vstd::arithmetic::power2::lemma_pow2_strictly_increases(89, (-exponent) as nat);
        }
        let p = pow2((-exponent) as nat);
        assert(n * p >= 0x1_0000_0000_0000_0000 * 0x200_0000) by (nonlinear_arith)
            requires
                n > 0,
                p >= 0x1_0000_0000_0000_0000 * 0x200_0000,
        ;
    }
}

/// The distance between two numbers.
pub open spec fn distance(a: int, b: int) -> int {
    if a >= b {
        a - b
    } else {
        b - a
    }
}

proof fn lemma_nearest(n: nat, d: nat)
    requires
        d > 0,
    ensures
        2 * distance(nearest(n, d) * d as int, n as int) <= d,
        2 * distance(nearest(n, d) * d as int, n as int) == d ==> nearest(n, d) % 2 == 0,
{
    let q = n / d;
    let r = n % d;
    assert(n == q * d + r && 0 <= r < d) by (nonlinear_arith)
        requires
            d > 0,
            q == n / d,
            r == n % d,
    ;
    assert((q + 1) * d == q * d + d) by (nonlinear_arith);
}

/// A count in single precision is off by at most half the distance between the
/// values around it.
pub proof fn law_rounding_is_to_nearest(n: nat)
    ensures
        2 * distance(rounded(n) as int, n as int) <= spacing(n),
{
    lemma_spacing(n);
    lemma_nearest(n, spacing(n));
}

/// `r` is `x / y` in single precision, for positive `y`: a significand of 24
/// bits times a power of two, off from `x / y` by at most half a unit in the
/// last place, and even where it is off by just that. Below a power of two the
/// unit is half as large.
pub open spec fn is_nearest_quotient(r: Ratio, x: int, y: int) -> bool {
    match r {
        Ratio::Infinite => false,
        Ratio::Finite { significand, exponent } => if x == 0 {
            significand == 0 && exponent == 0
        } else {
            let unit = if exponent >= 0 {
                y * pow2(exponent as nat)
            } else {
                y
            };
            let target = if exponent >= 0 {
                x
            } else {
                x * pow2((-exponent) as nat)
            };
            &&& 0x80_0000 <= significand < 0x100_0000
            &&& 2 * distance(significand * unit, target) <= unit
            &&& 2 * distance(significand * unit, target) == unit ==> significand % 2 == 0
            &&& target < 0x80_0000 * unit ==> significand == 0x80_0000 && 4 * distance(
                significand * unit,
                target,
            ) <= unit
        },
    }
}

/// A ratio is the quotient of the rounded counts in single precision, and
/// infinite where the count that it is taken to is 0.
pub proof fn law_ratio_is_nearest(actual: usize, expected: usize)
    ensures
        expected > 0 ==> is_nearest_quotient(
            measured(actual as nat, expected as nat),
            rounded(actual as nat) as int,
            rounded(expected as nat) as int,
        ),
        expected == 0 ==> measured(actual as nat, expected as nat) == Ratio::Infinite,
{
    if expected > 0 {
        let x = rounded(actual as nat);
        let y = rounded(expected as nat);
        lemma_rounded_bounds(actual as nat);
        lemma_rounded_bounds(expected as nat);
        vstd::arithmetic::power2::lemma2_to64();
        assert(x * 1 == x && y * 1 == y);
        if x > 0 {
            let end = lemma_scaled(x, y, 0, x, y);
            let (top, bottom, exponent) = end;
            lemma_nearest_bounds(top, bottom, SIGNIFICAND_MIN as nat, SIGNIFICAND_BOUND as nat);
            lemma_nearest(top, bottom);
            let s = nearest(top, bottom);
            assert(quotient(x, y) == finite(s, exponent));
            if s == SIGNIFICAND_BOUND {
                if exponent >= 0 {
                    let p = pow2(exponent as nat);
                    vstd::arithmetic::power2::lemma_pow2_unfold((exponent + 1) as nat);
                    assert(y * (2 * p) == 2 * (y * p)) by (nonlinear_arith);
                } else {
                    let p = pow2((-exponent - 1) as nat);
                    vstd::arithmetic::power2::lemma_pow2_unfold((-exponent) as nat);
                    assert(x * (2 * p) == 2 * (x * p)) by (nonlinear_arith);
                }
            }
        }
    }
}

proof fn lemma_spacing_is_power(n: nat) -> (k: nat)
    ensures
        spacing(n) == pow2(k),
    decreases n,
{
    vstd::arithmetic::power2::lemma2_to64();
    if n < SIGNIFICAND_BOUND {
        0
    } else {
        let k = lemma_spacing_is_power(n / 2);
        vstd::arithmetic::power2::lemma_pow2_unfold(k + 1);
        k + 1
    }
}

/// A count in single precision has 24 bits before a power of two, is off by at
/// most half that power, and is even where it is off by just that.
pub proof fn law_rounding_keeps_24_bits(n: nat)
    ensures
        exists|k: nat, q: nat|
            rounded(n) == q * #[trigger] pow2(k) && (k == 0 || 0x80_0000 * pow2(k) <= n) && n
                < 0x100_0000 * pow2(k) && 2 * distance(rounded(n) as int, n as int) <= pow2(k) && (2
                * distance(rounded(n) as int, n as int) == pow2(k) ==> q % 2 == 0)
                && #[trigger] is_significand(q),
{
    vstd::arithmetic::power2::lemma2_to64();
    let k = lemma_spacing_is_power(n);
    lemma_spacing(n);
    lemma_nearest(n, spacing(n));
    let q = nearest(n, spacing(n));
    if n < SIGNIFICAND_BOUND {
        assert(spacing(n) == 1);
        assert(nearest(n, 1) == n);
        assert(q * pow2(0) == rounded(n));
        assert(is_significand(q));
    } else {
        lemma_nearest_bounds(n, spacing(n), 0, SIGNIFICAND_BOUND as nat);
        assert(spacing(n) != 1);
        assert(is_significand(q));
        assert(rounded(n) == q * pow2(k));
    }
}

/// `q` fits in 24 bits, or is the next power of two.
pub open spec fn is_significand(q: nat) -> bool {
    q <= 0x100_0000
}

/// The text of a ratio: a whole number, a point and one digit, which together
/// are the ratio to the nearest tenth, to the even one of two equally near; or
/// `inf` for the infinite ratio.
pub proof fn law_ratio_text(r: Ratio)
    ensures
        r == Ratio::Infinite ==> r.rendered() == seq!['i', 'n', 'f'],
        r matches Ratio::Finite { significand, exponent } ==> {
            let text = r.rendered();
            let n = text.len() - 2;
            let tenths = 10 * digits_value(text.take(n)) + (text[n + 1] as int - '0' as int);
            &&& n > 0
            &&& text[n] == '.'
            &&& '0' <= text[n + 1] <= '9'
            &&& text.take(n) == decimal(digits_value(text.take(n)))
            &&& exponent >= 0 ==> tenths == 10 * significand * pow2(exponent as nat)
            &&& exponent < 0 ==> {
                let d = pow2((-exponent) as nat);
                &&& 2 * distance(tenths * d, 10 * significand) <= d
                &&& 2 * distance(tenths * d, 10 * significand) == d ==> tenths % 2 == 0
            }
        },
{
    reveal_strlit("inf");
    reveal_strlit(".");
    assert("inf"@ =~= seq!['i', 'n', 'f']);
    if let Ratio::Finite { significand, exponent } = r {
        let t = r.tenths();
        let text = r.rendered();
        let n = text.len() - 2;
        law_decimal_stands_for_its_number(t / 10);
        law_decimal_stands_for_its_number(t % 10);
        assert(decimal(t % 10).len() == 1);
        assert(text.take(n) =~= decimal(t / 10));
        assert(text[n + 1] == decimal(t % 10)[0]);
        if exponent < 0 {
            let d = pow2((-exponent) as nat);
            vstd::arithmetic::power2::lemma_pow2_pos((-exponent) as nat);
            lemma_nearest(10 * significand as nat, d);
            let tenths = 10 * digits_value(text.take(n)) + (text[n + 1] as int - '0' as int);
            assert(tenths == t);
        }
    }
}

/// The encoding of a ratio holds its exponent above 23 bits, with 150 added,
/// and in those bits its significand without the highest bit; 0 is 0, and the
/// infinite ratio has the largest exponent and nothing below it.
pub proof fn law_ratio_encoding(r: Ratio)
    requires
        r.wf(),
    ensures
        r.encoded() <= 0x7f80_0000,
        r == Ratio::Infinite ==> r.encoded() / 0x80_0000 == 0xff && r.encoded() % 0x80_0000 == 0,
        r matches Ratio::Finite { significand, exponent } ==> if significand == 0 {
            r.encoded() == 0
        } else {
            &&& r.encoded() / 0x80_0000 == exponent + 150
            &&& r.encoded() % 0x80_0000 == significand - 0x80_0000
        },
{
}

/// A finite ratio is at least a whole number exactly if it is after both are
/// multiplied by 2^100, which makes both whole.
pub proof fn law_at_least_compares_values(r: Ratio, n: nat)
    requires
        r.wf(),
    ensures
        r == Ratio::Infinite ==> r.at_least(n),
        r matches Ratio::Finite { significand, exponent } ==> (r.at_least(n) <==> significand * pow2(
            (exponent + 100) as nat,
        ) >= n * pow2(100)),
{
    if let Ratio::Finite { significand: s, exponent: e } = r {
        if e >= 0 {
            let p = pow2(e as nat);
            let c = pow2(100);
            vstd::arithmetic::power2::lemma_pow2_adds(e as nat, 100);
            vstd::arithmetic::power2::lemma_pow2_pos(100);
            assert(s * (p * c) >= n * c <==> s * p >= n) by (nonlinear_arith)
                requires
                    c > 0,
            ;
        } else {
            let p = pow2((-e) as nat);
            let c = pow2((e + 100) as nat);
            vstd::arithmetic::power2::lemma_pow2_adds((-e) as nat, (e + 100) as nat);
            vstd::arithmetic::power2::lemma_pow2_pos((e + 100) as nat);
            assert(s * c >= n * (p * c) <==> s >= n * p) by (nonlinear_arith)
                requires
                    c > 0,
            ;
        }
    }
}

/// The ratio of a count to a whole part of it is that whole number: it is at
/// least what the number is at least.
pub proof fn law_whole_ratios_are_exact(n: usize, k: usize, m: nat)
    requires
        k > 0,
        n * k < 0x80_0000,
    ensures
        measured((n * k) as nat, k as nat).at_least(m) <==> n >= m,
{
    let x = n * k;
    assert(k <= x || n == 0) by (nonlinear_arith)
        requires
            x == n * k,
            k > 0,
            n >= 0,
    ;
    if n == 0 {
        assert(x == 0) by (nonlinear_arith)
            requires
                x == n * k,
                n == 0,
        ;
        law_small_counts_are_exact(0);
        vstd::arithmetic::power2::lemma2_to64();
    } else {
        law_small_counts_are_exact(x as nat);
        law_small_counts_are_exact(k as nat);
        law_ratio_is_nearest(x as usize, k);
        if let Ratio::Finite { significand: s, exponent: e } = measured(x as nat, k as nat) {
            if e >= 0 {
                let p = pow2(e as nat);
                vstd::arithmetic::power2::lemma_pow2_pos(e as nat);
                let unit = k * p;
                assert(2 * (s * unit) - unit > 2 * x) by (nonlinear_arith)
                    requires
                        s >= 0x80_0000,
                        unit == k * p,
                        p >= 1,
                        k >= 1,
                        x < 0x80_0000,
                ;
            } else {
                let p = pow2((-e) as nat);
                vstd::arithmetic::power2::lemma_pow2_pos((-e) as nat);
                let d = s - n * p;
                assert(s * k - x * p == d * k) by (nonlinear_arith)
                    requires
                        x == n * k,
                        d == s - n * p,
                ;
                assert(d == 0) by (nonlinear_arith)
                    requires
                        2 * (d * k) <= k,
                        -2 * (d * k) <= k,
                        k > 0,
                ;
                assert(n >= m ==> n * p >= m * p) by (nonlinear_arith)
                    requires
                        p >= 1,
                ;
                assert(n < m ==> n * p < m * p) by (nonlinear_arith)
                    requires
                        p >= 1,
                ;
            }
        }
    }
}

proof fn lemma_nearest_monotone(a: nat, b: nat, d: nat)
    requires
        a <= b,
        d > 0,
    ensures
        nearest(a, d) <= nearest(b, d),
{
    assert(a / d <= b / d) by (nonlinear_arith)
        requires
            a <= b,
            d > 0,
    ;
    assert(a / d == b / d ==> a % d <= b % d) by (nonlinear_arith)
        requires
            a <= b,
            d > 0,
    ;
}

proof fn lemma_spacing_monotone(a: nat, b: nat)
    requires
        a <= b,
    ensures
        spacing(a) == spacing(b) || 2 * spacing(a) <= spacing(b),
    decreases b,
{
    if b >= SIGNIFICAND_BOUND {
        lemma_spacing(b / 2);
        if a >= SIGNIFICAND_BOUND {
            lemma_spacing_monotone(a / 2, b / 2);
        }
    }
}

/// Rounding counts to single precision keeps their order.
pub proof fn law_rounding_keeps_order(a: nat, b: nat)
    requires
        a <= b,
    ensures
        rounded(a) <= rounded(b),
{
    lemma_spacing(a);
    lemma_spacing(b);
    lemma_spacing_monotone(a, b);
    let sa = spacing(a);
    let sb = spacing(b);
    let qa = nearest(a, sa);
    let qb = nearest(b, sb);
    if sa == sb {
        lemma_nearest_monotone(a, b, sa);
        assert(qa * sa <= qb * sa) by (nonlinear_arith)
            requires
                qa <= qb,
        ;
    } else {
        assert(0 * sa == 0);
        lemma_nearest_bounds(a, sa, 0, SIGNIFICAND_BOUND as nat);
        lemma_nearest_bounds(b, sb, SIGNIFICAND_MIN as nat, SIGNIFICAND_BOUND as nat);
        assert(qa * sa <= qb * sb) by (nonlinear_arith)
            requires
                qa <= 0x100_0000,
                0x80_0000 <= qb,
                2 * sa <= sb,
        ;
    }
}

/// Counts up to 2^24 are exact in single precision.
pub proof fn law_small_counts_are_exact(n: nat)
    requires
        n <= SIGNIFICAND_BOUND,
    ensures
        rounded(n) == n,
{
    if n < SIGNIFICAND_BOUND {
        lemma_rounded_bounds(n);
    } else {
        assert(spacing(n / 2) == 1);
        assert(spacing(n) == 2);
        assert(nearest(n, 2) == 0x80_0000);
    }
}

/// The ratio of two counts reaches 3 exactly where the rounded counts' quotient
/// is at least 3 - 2^-23.
pub proof fn law_ratio_reaches_three(actual: usize, expected: usize)
    requires
        expected > 0,
    ensures
        measured(actual as nat, expected as nat).at_least(3) <==> 0x80_0000 * rounded(actual as nat)
            >= 0x17f_ffff * rounded(expected as nat),
{
    lemma_ratio_reaches(actual, expected, 3, 1, 0x40_0000);
    let x = rounded(actual as nat);
    let y = rounded(expected as nat);
    assert(2 * 0x40_0000 * x == 0x80_0000 * x) by (nonlinear_arith);
    assert(y * (2 * 3 * 0x40_0000 - 1) == 0x17f_ffff * y) by (nonlinear_arith);
}

/// The ratio of two counts reaches 5 exactly where the rounded counts' quotient
/// is at least 5 - 2^-22.
pub proof fn law_ratio_reaches_five(actual: usize, expected: usize)
    requires
        expected > 0,
    ensures
        measured(actual as nat, expected as nat).at_least(5) <==> 0x40_0000 * rounded(actual as nat)
            >= 0x13f_ffff * rounded(expected as nat),
{
    lemma_ratio_reaches(actual, expected, 5, 2, 0x20_0000);
    let x = rounded(actual as nat);
    let y = rounded(expected as nat);
    assert(2 * 0x20_0000 * x == 0x40_0000 * x) by (nonlinear_arith);
    assert(y * (2 * 5 * 0x20_0000 - 1) == 0x13f_ffff * y) by (nonlinear_arith);
}

proof fn lemma_ratio_reaches(actual: usize, expected: usize, n: nat, bits: nat, steps: nat)
    requires
        expected > 0,
        bits == 1 && n == 3 && steps == 0x40_0000 || bits == 2 && n == 5 && steps == 0x20_0000,
    ensures
        measured(actual as nat, expected as nat).at_least(n) <==> 2 * steps * rounded(actual as nat)
            >= rounded(expected as nat) * (2 * n * steps - 1),
{
    let x = rounded(actual as nat);
    let y = rounded(expected as nat);
    lemma_rounded_bounds(actual as nat);
    lemma_rounded_bounds(expected as nat);
    if x == 0 {
        assert(pow2(0) == 1) by {
            vstd::arithmetic::power2::lemma2_to64();
        }
        assert(y * (2 * n * steps - 1) > 0) by (nonlinear_arith)
            requires
                y > 0,
                2 * n * steps - 1 > 0,
        ;
        assert(2 * steps * 0 == 0);
    } else {
        lemma_reaches(x, y, n, bits, steps);
    }
}

} // verus!
