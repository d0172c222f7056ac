//! Double precision arithmetic on integers.
//!
//! Schematic coordinates are IEEE 754 binary64 numbers, and so are the volumes by which
//! the spatial index weighs its boxes: two boxes whose volumes round to the same number
//! are told apart by position, and what is drawn first depends on that. This module holds
//! the numbers and the operations that coordinates and volumes need. The contract of each
//! operation is its exact result, rounded once to the nearest number, ties to even.
//!
//! Infinities, NaN, negative zero and the gradual loss of precision near zero are left
//! out: the exponent has no lower or upper end.

use vstd::arithmetic::div_mod::lemma_fundamental_div_mod_converse;
use vstd::arithmetic::power2::lemma_pow2_adds;
use vstd::arithmetic::power2::lemma_pow2_pos;
use vstd::arithmetic::power2::lemma_pow2_unfold;
use vstd::prelude::*;

verus! {

/// The smallest mantissa of a number other than zero.
pub const UNIT: u64 = 0x10_0000_0000_0000;

/// One more than the largest mantissa.
pub const CARRY: u64 = 0x20_0000_0000_0000;

/// No exponent of a number that is added, multiplied or divided lies further from zero.
pub const LIMIT: i64 = 0x1_0000_0000_0000;

/// The number `mantissa * 2^exponent`, with its sign.
#[derive(Clone, Copy, PartialEq, Eq, Structural, Debug)]
pub struct Double {
    pub negative: bool,
    pub mantissa: u64,
    pub exponent: i64,
}

pub open spec fn two(n: nat) -> nat {
    vstd::arithmetic::power2::pow2(n)
}

/// How many low bits of `n` do not fit a mantissa.
pub open spec fn excess(n: nat) -> nat
    decreases n,
{
    if n < CARRY {
        0
    } else {
        1 + excess(n / 2)
    }
}

/// The mantissa and exponent of `n * 2^e`, rounded to nearest, ties to even.
pub open spec fn rounded(n: nat, e: int) -> (nat, int)
    decreases
            (if n < UNIT {
                UNIT - n
            } else {
                0
            }),
{
    if n == 0 {
        (0, 0)
    } else if n < UNIT {
        rounded(2 * n, e - 1)
    } else {
        let s = excess(n);
        let kept = n / two(s);
        let lost = n % two(s);
        let up = 2 * lost > two(s) || (2 * lost == two(s) && kept % 2 == 1);
        let m = if up {
            kept + 1
        } else {
            kept
        };
        if m == CARRY {
            (UNIT as nat, e + s + 1)
        } else {
            (m, e + s)
        }
    }
}

/// The number nearest to `v * 2^e`.
pub open spec fn nearest(v: int, e: int) -> Double {
    let r = rounded(
        (if v < 0 {
            -v
        } else {
            v
        }) as nat,
        e,
    );
    Double { negative: v < 0, mantissa: r.0 as u64, exponent: r.1 as i64 }
}

impl Double {
    /// Zero, or a number with a full mantissa.
    pub open spec fn wf(self) -> bool {
        if self.mantissa == 0 {
            !self.negative && self.exponent == 0
        } else {
            UNIT <= self.mantissa < CARRY
        }
    }

    /// `self` in multiples of `2^e`, exact where `e` is at most the exponent.
    pub open spec fn scaled(self, e: int) -> int {
        let magnitude = self.mantissa * two((self.exponent - e) as nat);
        if self.negative {
            -magnitude
        } else {
            magnitude
        }
    }

    pub open spec fn common(self, other: Self) -> int {
        if self.exponent <= other.exponent {
            self.exponent as int
        } else {
            other.exponent as int
        }
    }

    /// The exponent lies between `-bound` and `bound`.
    pub open spec fn within(self, bound: int) -> bool {
        -bound <= self.exponent <= bound
    }
}

proof fn lemma_excess_step(n: nat, k: nat, v: nat, rem: nat)
    requires
        n == v * two(k) + rem,
        rem < two(k),
        v >= CARRY,
    ensures
        excess(n) == k + excess(v),
    decreases k,
{
    lemma_pow2_pos(k);
    if k == 0 {
        assert(two(0) == 1) by {
            vstd::arithmetic::power2::lemma2_to64();
        }
        assert(v * 1 == v);
    } else {
        lemma_pow2_unfold(k);
        let half = two((k - 1) as nat);
        assert(two(k) == 2 * half);
        assert(v * (2 * half) == 2 * (v * half)) by (nonlinear_arith);
        assert(n / 2 == v * half + rem / 2);
        lemma_excess_step(n / 2, (k - 1) as nat, v, rem / 2);
        assert(n >= v) by (nonlinear_arith)
            requires
                n == v * two(k) + rem,
                two(k) >= 1,
        ;
    }
}

proof fn lemma_two_grows(a: nat, b: nat)
    requires
        a <= b,
    ensures
        two(a) <= two(b),
{
    if a < b {
        vstd::arithmetic::power2::lemma_pow2_strictly_increases(a, b);
    }
}

/// The number nearest to `n * 2^e`, with the given sign.
fn round(negative: bool, n: u128, e: i64) -> (r: Double)
    requires
        n < 0x1_0000_0000_0000_0000_0000_0000_0000,
        -0x4_0000_0000_0000 <= e <= 0x4_0000_0000_0000,
        n == 0 ==> !negative,
    ensures
        r == nearest(
            if negative {
                -(n as int)
            } else {
                n as int
            },
            e as int,
        ),
        r.wf(),
        n != 0 ==> r.mantissa != 0,
        n != 0 ==> e - 52 <= r.exponent <= e + 60,
        n != 0 ==> r.exponent <= e + excess(n as nat) + 1,
{
    if n == 0 {
        return Double { negative: false, mantissa: 0, exponent: 0 };
    }
    let mut v: u128 = n;
    let mut x: i64 = e;
    proof {
        vstd::arithmetic::power2::lemma2_to64();
        vstd::arithmetic::power2::lemma2_to64_rest();
    }
    while v < UNIT as u128
        invariant
            0 < v < 0x1_0000_0000_0000_0000_0000_0000_0000,
            rounded(v as nat, x as int) == rounded(n as nat, e as int),
            -0x4_0000_0000_0000 <= e <= 0x4_0000_0000_0000,
            e - 52 <= x <= e,
            x == e ==> v == n,
            x < e ==> v < CARRY,
            v >= two((e - x) as nat),
            two(52) == UNIT,
        decreases (if v < UNIT {
            UNIT - v
        } else {
            0
        }),
    {
        proof {
            assert(excess(v as nat) == 0);
            if e - x >= 52 {
                lemma_two_grows(52, (e - x) as nat);
            }
            lemma_pow2_unfold((e - x + 1) as nat);
        }
        v = v * 2;
        x = x - 1;
    }
    let ghost whole = v as nat;
    let ghost mut rem: nat = 0;
    let mut sticky: bool = false;
    let mut dropped: i64 = 0;
    assert(v * two(0) == v) by (nonlinear_arith)
        requires
            two(0) == 1,
    ;
    while v >= 2 * CARRY as u128
        invariant
            whole == v * two(dropped as nat) + rem,
            rem < two(dropped as nat),
            sticky == (rem > 0),
            v >= UNIT,
            dropped > 0 ==> v >= CARRY,
            whole < 0x1_0000_0000_0000_0000_0000_0000_0000,
            0 <= dropped <= 58,
            two(58) == 0x400_0000_0000_0000,
        decreases v,
    {
        let bit: bool = v % 2 == 1;
        proof {
            let b = (v % 2) as nat;
            let p = two(dropped as nat);
            lemma_pow2_unfold((dropped + 1) as nat);
            assert(v == 2 * (v / 2) + b);
            assert(v * p == (v / 2) * (2 * p) + b * p) by (nonlinear_arith)
                requires
                    v == 2 * (v / 2) + b,
            ;
            assert(b * p == (if b == 1 {
                p
            } else {
                0
            })) by (nonlinear_arith)
                requires
                    b == 0 || b == 1,
            ;
            lemma_pow2_pos(dropped as nat);
            rem = b * p + rem;
            if dropped == 58 {
                assert(v * p >= 2 * CARRY * p) by (nonlinear_arith)
                    requires
                        v >= 2 * CARRY,
                        p >= 0,
                ;
                assert(false);
            }
        }
        sticky = sticky || bit;
        v = v / 2;
        dropped = dropped + 1;
    }
    proof {
        lemma_pow2_pos(dropped as nat);
    }
    if v < CARRY as u128 {
        proof {
            assert(dropped == 0);
            assert(v * two(0) == v) by (nonlinear_arith)
                requires
                    two(0) == 1,
            ;
            assert(whole == v);
            assert(excess(whole) == 0);
            assert(whole / two(0) == whole);
            assert(whole % two(0) == 0);
        }
        return Double { negative, mantissa: v as u64, exponent: x };
    }
    let odd: bool = v % 2 == 1;
    let kept: u64 = (v / 2) as u64;
    let up: bool = odd && (sticky || kept % 2 == 1);
    proof {
        let p = two(dropped as nat);
        let b = (v % 2) as nat;
        let s = (dropped + 1) as nat;
        lemma_pow2_unfold(s);
        lemma_excess_step(whole, dropped as nat, v as nat, rem);
        assert(excess(v as nat) == 1 + excess((v / 2) as nat));
        assert(excess(whole) == s);
        let lost = b * p + rem;
        assert(b * p == (if b == 1 {
                p
            } else {
                0
            })) by (nonlinear_arith)
            requires
                b == 0 || b == 1,
        ;
        assert(v * p == (v / 2) * (2 * p) + b * p) by (nonlinear_arith)
            requires
                v == 2 * (v / 2) + b,
        ;
        lemma_fundamental_div_mod_converse(whole as int, two(s) as int, kept as int, lost as int);
    }
    let m: u64 = if up {
        kept + 1
    } else {
        kept
    };
    if m == CARRY {
        Double { negative, mantissa: UNIT, exponent: x + dropped + 2 }
    } else {
        Double { negative, mantissa: m, exponent: x + dropped + 1 }
    }
}

proof fn lemma_excess_range(n: nat, s: nat)
    requires
        UNIT * two(s) <= n < CARRY * two(s),
    ensures
        excess(n) == s,
    decreases s,
{
    vstd::arithmetic::power2::lemma2_to64();
    if s > 0 {
        lemma_pow2_unfold(s);
        let half = two((s - 1) as nat);
        lemma_pow2_pos((s - 1) as nat);
        assert(UNIT * (2 * half) == 2 * (UNIT * half)) by (nonlinear_arith);
        assert(CARRY * (2 * half) == 2 * (CARRY * half)) by (nonlinear_arith);
        assert(UNIT * half >= UNIT) by (nonlinear_arith)
            requires
                half >= 1,
        ;
        lemma_excess_range(n / 2, (s - 1) as nat);
    }
}

proof fn lemma_excess_bound(n: nat, s: nat)
    requires
        n < CARRY * two(s),
    ensures
        excess(n) <= s,
    decreases s,
{
    vstd::arithmetic::power2::lemma2_to64();
    if s > 0 {
        lemma_pow2_unfold(s);
        let half = two((s - 1) as nat);
        assert(CARRY * (2 * half) == 2 * (CARRY * half)) by (nonlinear_arith);
        lemma_excess_bound(n / 2, (s - 1) as nat);
    }
}

/// Rounding `kept * 2^s + lost` where `kept` fills a mantissa.
proof fn lemma_rounded(n: nat, e: int, s: nat, kept: nat, lost: nat)
    requires
        n == kept * two(s) + lost,
        lost < two(s),
        UNIT <= kept < CARRY,
    ensures
        n >= UNIT,
        excess(n) == s,
        n / two(s) == kept,
        n % two(s) == lost,
{
    lemma_pow2_pos(s);
    let p = two(s);
    assert(kept * p >= UNIT * p) by (nonlinear_arith)
        requires
            kept >= UNIT,
            p >= 0,
    ;
    assert(UNIT * p >= UNIT) by (nonlinear_arith)
        requires
            p >= 1,
    ;
    assert(kept * p + lost < CARRY * p) by (nonlinear_arith)
        requires
            kept + 1 <= CARRY,
            lost < p,
    ;
    lemma_excess_range(n, s);
    lemma_fundamental_div_mod_converse(n as int, p as int, kept as int, lost as int);
}

/// A mantissa followed by zeros is kept.
proof fn lemma_exact(m: nat, d: nat, e: int)
    requires
        UNIT <= m < CARRY,
    ensures
        rounded(m * two(d), e) == (m, e + d),
{
    lemma_pow2_pos(d);
    lemma_rounded(m * two(d), e, d, m, 0);
}

/// A number far below the last place of another does not change it.
proof fn lemma_absorbed(m: nat, d: nat, small: nat, e: int)
    requires
        UNIT <= m < CARRY,
        0 < small < CARRY,
        d >= 58,
    ensures
        rounded(m * two(d) + small, e) == (m, e + d),
        m * two(d) > small,
        rounded((m * two(d) - small) as nat, e) == (m, e + d),
{
    vstd::arithmetic::power2::lemma2_to64();
    vstd::arithmetic::power2::lemma2_to64_rest();
    lemma_two_grows(57, (d - 1) as nat);
    lemma_pow2_unfold(d);
    let p = two(d);
    lemma_rounded(m * p + small, e, d, m, small);
    assert(m * p >= p) by (nonlinear_arith)
        requires
            m >= 1,
            p >= 0,
    ;
    if m > UNIT {
        let k = (m - 1) as nat;
        assert(m * p - small == k * p + (p - small)) by (nonlinear_arith)
            requires
                k + 1 == m,
        ;
        lemma_rounded((m * p - small) as nat, e, d, k, (p - small) as nat);
    } else {
        let half = two((d - 1) as nat);
        let k = (CARRY - 1) as nat;
        assert(m * p - small == k * half + (half - small)) by (nonlinear_arith)
            requires
                p == 2 * half,
                2 * m == k + 1,
        ;
        lemma_rounded((m * p - small) as nat, e, (d - 1) as nat, k, (half - small) as nat);
    }
}

/// `m * 2^d`.
fn shifted(m: u64, d: i64) -> (r: u128)
    requires
        m < CARRY,
        0 <= d <= 57,
    ensures
        r == m * two(d as nat),
        r < 0x4000_0000_0000_0000_0000_0000_0000,
{
    let mut r: u128 = m as u128;
    let mut i: i64 = 0;
    proof {
        vstd::arithmetic::power2::lemma2_to64();
        vstd::arithmetic::power2::lemma2_to64_rest();
        assert(m * two(0) == m) by (nonlinear_arith)
            requires
                two(0) == 1,
        ;
    }
    while i < d
        invariant
            m < CARRY,
            0 <= i <= d <= 57,
            r == m * two(i as nat),
            two(57) == 0x200_0000_0000_0000,
        decreases d - i,
    {
        proof {
            lemma_shifted_bound(m, i as nat);
            lemma_pow2_unfold((i + 1) as nat);
            assert(m * (2 * two(i as nat)) == 2 * (m * two(i as nat))) by (nonlinear_arith);
        }
        r = r * 2;
        i = i + 1;
    }
    proof {
        lemma_shifted_bound(m, d as nat);
    }
    r
}

proof fn lemma_shifted_bound(m: u64, i: nat)
    requires
        m < CARRY,
        i <= 57,
        two(57) == 0x200_0000_0000_0000,
    ensures
        m * two(i) < 0x4000_0000_0000_0000_0000_0000_0000,
{
    lemma_two_grows(i, 57);
    lemma_pow2_pos(i);
    assert(m * two(i) < CARRY * 0x200_0000_0000_0000) by (nonlinear_arith)
        requires
            m < CARRY,
            0 < two(i),
            two(i) <= 0x200_0000_0000_0000,
    ;
}

impl Double {
    pub open spec fn spec_zero() -> Double {
        Double { negative: false, mantissa: 0, exponent: 0 }
    }

    /// The number nearest to `v / 2`.
    pub fn half_of(v: u64) -> (r: Double)
        ensures
            r == nearest(v as int, -1),
            r.wf(),
            r.within(100),
            !r.negative,
    {
        round(false, v as u128, -1)
    }

    pub open spec fn spec_neg(self) -> Double {
        Double { negative: self.mantissa != 0 && !self.negative, ..self }
    }

    /// `-self`, exactly.
    pub fn negated(self) -> (r: Double)
        requires
            self.wf(),
        ensures
            r == self.spec_neg(),
            r.wf(),
    {
        Double { negative: self.mantissa != 0 && !self.negative, ..self }
    }

    #[verifier::opaque]
    pub open spec fn spec_sum(self, other: Double) -> Double {
        let e = self.common(other);
        nearest(self.scaled(e) + other.scaled(e), e)
    }

    /// The sum, rounded once.
    pub fn plus(self, other: Double) -> (r: Double)
        requires
            self.wf(),
            other.wf(),
            self.within(LIMIT as int),
            other.within(LIMIT as int),
        ensures
            r == self.spec_sum(other),
            r.wf(),
            r.mantissa == 0 || self.common(other) - 60 <= r.exponent,
            r.exponent <= 2 + (if self.exponent >= other.exponent {
                self.exponent
            } else {
                other.exponent
            }) || r.mantissa == 0,
    {
        proof {
            reveal(Double::spec_sum);
        }
        let ghost e = self.common(other);
        if other.mantissa == 0 {
            proof {
                lemma_kept(self, e);
                lemma_zero_scaled(other, e);
            }
            return self;
        }
        if self.mantissa == 0 {
            proof {
                lemma_kept(other, e);
                lemma_zero_scaled(self, e);
            }
            return other;
        }
        let (high, low) = if self.exponent >= other.exponent {
            (self, other)
        } else {
            (other, self)
        };
        let d: i64 = high.exponent - low.exponent;
        proof {
            vstd::arithmetic::power2::lemma2_to64();
            assert(low.mantissa * two(0) == low.mantissa) by (nonlinear_arith)
                requires
                    two(0) == 1,
            ;
        }
        if d > 57 {
            proof {
                lemma_absorbed(high.mantissa as nat, d as nat, low.mantissa as nat, e);
            }
            return high;
        }
        let h: u128 = shifted(high.mantissa, d);
        let l: u128 = low.mantissa as u128;
        proof {
            lemma_pow2_unfold((d + 1) as nat);
            lemma_pow2_pos(d as nat);
            let p = two(d as nat);
            assert(h < CARRY * p) by (nonlinear_arith)
                requires
                    h == high.mantissa * p,
                    high.mantissa < CARRY,
                    p > 0,
            ;
            assert(l < CARRY * p) by (nonlinear_arith)
                requires
                    l < CARRY,
                    p >= 1,
            ;
            assert(CARRY * (2 * p) == 2 * (CARRY * p)) by (nonlinear_arith);
            lemma_excess_bound((h + l) as nat, (d + 1) as nat);
            if h > l {
                lemma_excess_bound((h - l) as nat, (d + 1) as nat);
            } else {
                lemma_excess_bound((l - h) as nat, (d + 1) as nat);
            }
        }
        if high.negative == low.negative {
            round(high.negative, h + l, low.exponent)
        } else if h > l {
            round(high.negative, h - l, low.exponent)
        } else if h < l {
            round(low.negative, l - h, low.exponent)
        } else {
            Double { negative: false, mantissa: 0, exponent: 0 }
        }
    }
}

proof fn lemma_zero_scaled(x: Double, e: int)
    requires
        x.mantissa == 0,
    ensures
        x.scaled(e) == 0,
{
    assert(0 * two((x.exponent - e) as nat) == 0) by (nonlinear_arith);
}

/// A number is nearest to itself.
proof fn lemma_kept(x: Double, e: int)
    requires
        x.wf(),
        e <= x.exponent,
    ensures
        nearest(x.scaled(e), e) == x,
{
    let d = (x.exponent - e) as nat;
    if x.mantissa == 0 {
        lemma_zero_scaled(x, e);
    } else {
        lemma_exact(x.mantissa as nat, d, e);
        lemma_pow2_pos(d);
        assert(x.mantissa * two(d) > 0) by (nonlinear_arith)
            requires
                x.mantissa > 0,
                two(d) > 0,
        ;
    }
}

/// `r` is the largest number whose square is at most `n`.
pub open spec fn is_floor_root(r: nat, n: nat) -> bool {
    r * r <= n < (r + 1) * (r + 1)
}

/// The largest number whose square is at most `n`.
pub open spec fn floor_root(n: nat) -> nat {
    choose|r: nat| is_floor_root(r, n)
}

proof fn lemma_floor_root(n: nat, r: nat)
    requires
        is_floor_root(r, n),
    ensures
        floor_root(n) == r,
{
    let q = floor_root(n);
    assert(is_floor_root(q, n));
    if q < r {
        assert((q + 1) * (q + 1) <= r * r) by (nonlinear_arith)
            requires
                q + 1 <= r,
        ;
    }
    if r < q {
        assert((r + 1) * (r + 1) <= q * q) by (nonlinear_arith)
            requires
                r + 1 <= q,
        ;
    }
}

impl Double {
    #[verifier::opaque]
    pub open spec fn spec_difference(self, other: Double) -> Double {
        let e = self.common(other);
        nearest(self.scaled(e) - other.scaled(e), e)
    }

    /// The difference, rounded once.
    pub fn minus(self, other: Double) -> (r: Double)
        requires
            self.wf(),
            other.wf(),
            self.within(LIMIT as int),
            other.within(LIMIT as int),
        ensures
            r == self.spec_difference(other),
            r.wf(),
            r.mantissa == 0 || self.common(other) - 60 <= r.exponent,
            r.exponent <= 2 + (if self.exponent >= other.exponent {
                self.exponent
            } else {
                other.exponent
            }) || r.mantissa == 0,
    {
        proof {
            reveal(Double::spec_sum);
            reveal(Double::spec_difference);
        }
        proof {
            if other.mantissa == 0 {
                lemma_zero_scaled(other, self.common(other));
            }
        }
        self.plus(other.negated())
    }

    #[verifier::opaque]
    pub open spec fn spec_product(self, other: Double) -> Double {
        let n = self.mantissa * other.mantissa;
        nearest(
            if self.negative == other.negative {
                n
            } else {
                -n
            },
            self.exponent + other.exponent,
        )
    }

    /// The product, rounded once.
    pub fn times(self, other: Double) -> (r: Double)
        requires
            self.wf(),
            other.wf(),
            self.within(LIMIT as int),
            other.within(LIMIT as int),
        ensures
            r == self.spec_product(other),
            r.wf(),
            !self.negative && !other.negative ==> !r.negative,
            r.mantissa == 0 <==> self.mantissa == 0 || other.mantissa == 0,
            r.mantissa == 0 || self.exponent + other.exponent - 60 <= r.exponent
                <= self.exponent + other.exponent + 60,
    {
        proof {
            reveal(Double::spec_product);
        }
        proof {
            let a = self.mantissa as int;
            let b = other.mantissa as int;
            assert(0 <= a * b <= CARRY * CARRY) by (nonlinear_arith)
                requires
                    0 <= a <= CARRY,
                    0 <= b <= CARRY,
            ;
            assert(a * b == 0 ==> a == 0 || b == 0) by (nonlinear_arith);
            assert(a == 0 || b == 0 ==> a * b == 0) by (nonlinear_arith);
        }
        let n: u128 = self.mantissa as u128 * other.mantissa as u128;
        round(n != 0 && self.negative != other.negative, n, self.exponent + other.exponent)
    }

    pub open spec fn spec_less(self, other: Double) -> bool {
        let e = self.common(other);
        self.scaled(e) < other.scaled(e)
    }

    /// `self < other`.
    pub fn less(self, other: Double) -> (r: bool)
        requires
            self.wf(),
            other.wf(),
        ensures
            r == self.spec_less(other),
    {
        proof {
            lemma_order(self, other);
        }
        if self.negative != other.negative {
            self.negative
        } else if self.mantissa == 0 || other.mantissa == 0 {
            self.mantissa < other.mantissa
        } else if self.exponent != other.exponent {
            (self.exponent < other.exponent) != self.negative
        } else if self.negative {
            other.mantissa < self.mantissa
        } else {
            self.mantissa < other.mantissa
        }
    }

    /// By how many bits a mantissa is widened before its root is taken: so many that
    /// the root fills one bit more than a mantissa, and the exponent is left even.
    pub open spec fn root_shift(self) -> int {
        if self.exponent % 2 == 0 {
            54
        } else {
            55
        }
    }

    /// The square root, rounded once. Halfway cases do not arise: the square of a
    /// number one bit longer than a mantissa takes more bits than a mantissa has.
    #[verifier::opaque]
    pub open spec fn spec_root(self) -> Double {
        if self.mantissa == 0 {
            Double::spec_zero()
        } else {
            let t = self.root_shift();
            let wide = floor_root((self.mantissa * two(t as nat)) as nat);
            let m = (wide + 1) / 2;
            let e = (self.exponent - t) / 2 + 1;
            if m == CARRY {
                Double { negative: false, mantissa: UNIT, exponent: (e + 1) as i64 }
            } else {
                Double { negative: false, mantissa: m as u64, exponent: e as i64 }
            }
        }
    }

    /// The square root of a number that is not negative.
    pub fn root(self) -> (r: Double)
        requires
            self.wf(),
            !self.negative,
            self.within(10000),
        ensures
            r == self.spec_root(),
            r.wf(),
            !r.negative,
            self.within(2000) ==> r.within(1100),
    {
        proof {
            reveal(Double::spec_root);
        }
        if self.mantissa == 0 {
            return self;
        }
        let even: bool = (self.exponent + 10000) % 2 == 0;
        let t: i64 = if even {
            54
        } else {
            55
        };
        let n: u128 = shifted(self.mantissa, t);
        let mut low: u64 = CARRY;
        let mut high: u64 = 2 * CARRY;
        proof {
            vstd::arithmetic::power2::lemma2_to64();
            vstd::arithmetic::power2::lemma2_to64_rest();
            let m = self.mantissa as int;
            assert(m * 0x40_0000_0000_0000 >= CARRY * CARRY);
            assert(m * 0x40_0000_0000_0000 < 4 * CARRY * CARRY);
            assert(m * 0x80_0000_0000_0000 < 4 * CARRY * CARRY);
        }
        while low + 1 < high
            invariant
                CARRY <= low < high <= 2 * CARRY,
                low * low <= n < high * high,
            decreases high - low,
        {
            let middle: u64 = low + (high - low) / 2;
            assert(middle * middle <= 0x1000_0000_0000_0000_0000_0000_0000) by (nonlinear_arith)
                requires
                    0 <= middle <= 2 * CARRY,
            ;
            if middle as u128 * middle as u128 <= n {
                low = middle;
            } else {
                high = middle;
            }
        }
        proof {
            lemma_floor_root(n as nat, low as nat);
        }
        let m: u64 = (low + 1) / 2;
        let e: i64 = if even {
            (self.exponent + 10000 - 54) / 2 - 5000 + 1
        } else {
            (self.exponent + 10001 - 56) / 2 - 5000 + 1
        };
        if m == CARRY {
            Double { negative: false, mantissa: UNIT, exponent: e + 1 }
        } else {
            Double { negative: false, mantissa: m, exponent: e }
        }
    }
}

/// The order of numbers with full mantissas is that of the exponents, then of the
/// mantissas.
pub proof fn lemma_order(a: Double, b: Double)
    requires
        a.wf(),
        b.wf(),
    ensures
        a.negative != b.negative ==> a.spec_less(b) == a.negative,
        a.negative == b.negative && (a.mantissa == 0 || b.mantissa == 0) ==> a.spec_less(b) == (
        a.mantissa < b.mantissa),
        a.negative == b.negative && a.mantissa != 0 && b.mantissa != 0 && a.exponent < b.exponent
            ==> a.spec_less(b) != a.negative,
        a.negative == b.negative && a.mantissa != 0 && b.mantissa != 0 && a.exponent > b.exponent
            ==> a.spec_less(b) == a.negative,
        a.negative == b.negative && a.exponent == b.exponent ==> a.spec_less(b) == (if a.negative {
            b.mantissa < a.mantissa
        } else {
            a.mantissa < b.mantissa
        }),
{
    let e = a.common(b);
    vstd::arithmetic::power2::lemma2_to64();
    let p = two((a.exponent - e) as nat);
    let q = two((b.exponent - e) as nat);
    lemma_pow2_pos((a.exponent - e) as nat);
    lemma_pow2_pos((b.exponent - e) as nat);
    let x = a.mantissa as int;
    let y = b.mantissa as int;
    assert(x * 1 == x && y * 1 == y);
    assert(x * p >= x && (x == 0 ==> x * p == 0)) by (nonlinear_arith)
        requires
            x >= 0,
            p >= 1,
    ;
    assert(y * q >= y && (y == 0 ==> y * q == 0)) by (nonlinear_arith)
        requires
            y >= 0,
            q >= 1,
    ;
    if a.exponent > b.exponent {
        lemma_pow2_unfold((a.exponent - e) as nat);
        assert(x * p >= 2 * x) by (nonlinear_arith)
            requires
                x >= 0,
                p >= 2,
        ;
    }
    if b.exponent > a.exponent {
        lemma_pow2_unfold((b.exponent - e) as nat);
        assert(y * q >= 2 * y) by (nonlinear_arith)
            requires
                y >= 0,
                q >= 2,
        ;
    }
}

/// No number is nearer to the square root than the one that [`Double::root`] gives:
/// the root lies within half a unit of its last place.
pub proof fn root_is_nearest(x: Double)
    requires
        x.wf(),
        !x.negative,
        x.mantissa != 0,
    ensures
        ({
            let n = (x.mantissa * two(x.root_shift() as nat)) as nat;
            let m = ((floor_root(n) + 1) / 2) as int;
            (2 * m - 1) * (2 * m - 1) <= n < (2 * m + 1) * (2 * m + 1)
        }),
{
    let n = (x.mantissa * two(x.root_shift() as nat)) as nat;
    lemma_root_exists(n);
    let r = floor_root(n);
    let m = ((r + 1) / 2) as int;
    assert(is_floor_root(r, n));
    assert(n > 0) by {
        lemma_pow2_pos(x.root_shift() as nat);
        assert(x.mantissa * two(x.root_shift() as nat) > 0) by (nonlinear_arith)
            requires
                x.mantissa > 0,
                two(x.root_shift() as nat) > 0,
        ;
    }
    if r == 0 {
        assert((r + 1) * (r + 1) == 1) by (nonlinear_arith)
            requires
                r == 0,
        ;
    }
    assert((2 * m - 1) * (2 * m - 1) <= r * r) by (nonlinear_arith)
        requires
            2 * m - 1 <= r,
            1 <= m,
    ;
    assert((r + 1) * (r + 1) <= (2 * m + 1) * (2 * m + 1)) by (nonlinear_arith)
        requires
            r + 1 <= 2 * m + 1,
            0 <= r,
    ;
}

proof fn lemma_root_exists(n: nat)
    ensures
        exists|r: nat| is_floor_root(r, n),
    decreases n,
{
    if n == 0 {
        assert(0nat * 0nat == 0 && (0nat + 1) * (0nat + 1) == 1) by (nonlinear_arith);
        assert(is_floor_root(0, n));
    } else {
        let below = (n - 1) as nat;
        lemma_root_exists(below);
        let r = choose|r: nat| is_floor_root(r, below);
        if (r + 1) * (r + 1) == n {
            let q = r + 1;
            assert(q * q <= n < (q + 1) * (q + 1)) by (nonlinear_arith)
                requires
                    q * q == n,
            ;
            assert(is_floor_root(q, n));
        } else {
            assert(is_floor_root(r, n));
        }
    }
}

proof fn lemma_two_of(d: nat)
    requires
        d <= 57,
    ensures
        0 < two(d) <= 0x200_0000_0000_0000,
{
    vstd::arithmetic::power2::lemma2_to64();
    vstd::arithmetic::power2::lemma2_to64_rest();
    lemma_two_grows(d, 57);
    lemma_pow2_pos(d);
}

impl Double {
    /// The number nearest to `mantissa * 2^exponent`, with the given sign.
    pub fn from_parts(negative: bool, mantissa: u64, exponent: i64) -> (r: Double)
        requires
            -0x4_0000_0000_0000 <= exponent <= 0x4_0000_0000_0000,
        ensures
            r == nearest(
                if negative {
                    -(mantissa as int)
                } else {
                    mantissa as int
                },
                exponent as int,
            ),
            r.wf(),
            r.mantissa == 0 || exponent - 60 <= r.exponent <= exponent + 60,
    {
        round(negative && mantissa != 0, mantissa as u128, exponent)
    }

    /// The whole number, which has to fit a mantissa.
    pub fn from_int(v: i64) -> (r: Double)
        requires
            -0x20_0000_0000_0000 <= v <= 0x20_0000_0000_0000,
        ensures
            r == nearest(v as int, 0),
            r.wf(),
            r.within(100),
            r.mantissa == 0 <==> v == 0,
            r.negative == (v < 0),
            r.exponent <= 2,
    {
        proof {
            assert(excess(0x20_0000_0000_0000) == 1) by {
                reveal_with_fuel(excess, 2);
            }
        }
        if v < 0 {
            round(true, (-v) as u128, 0)
        } else {
            round(false, v as u128, 0)
        }
    }

    pub open spec fn spec_abs(self) -> Double {
        Double { negative: false, ..self }
    }

    /// The number without its sign.
    pub fn abs(self) -> (r: Double)
        ensures
            r == self.spec_abs(),
            self.wf() ==> r.wf(),
    {
        Double { negative: false, ..self }
    }

    /// `self <= other`.
    pub fn at_most(self, other: Double) -> (r: bool)
        requires
            self.wf(),
            other.wf(),
        ensures
            r == !other.spec_less(self),
    {
        !other.less(self)
    }

    /// The quotient of the mantissas in units of `2^-57`: its whole part, and in the last
    /// place whether anything is left.
    pub open spec fn wide_quotient(self, other: Double) -> nat
        recommends
            other.mantissa != 0,
    {
        let n = self.mantissa * two(56);
        (2 * (n / other.mantissa as int) + if n % other.mantissa as int != 0 {
            1int
        } else {
            0int
        }) as nat
    }

    /// The quotient, rounded once.
    #[verifier::opaque]
    pub open spec fn spec_quotient(self, other: Double) -> Double {
        let n = self.wide_quotient(other) as int;
        nearest(
            if self.negative == other.negative {
                n
            } else {
                -n
            },
            self.exponent - other.exponent - 57,
        )
    }

    /// The quotient of `self` by a number other than zero.
    pub fn divided_by(self, other: Double) -> (r: Double)
        requires
            self.wf(),
            other.wf(),
            other.mantissa != 0,
            self.within(LIMIT as int),
            other.within(LIMIT as int),
        ensures
            r == self.spec_quotient(other),
            r.wf(),
            r.mantissa == 0 <==> self.mantissa == 0,
            r.mantissa == 0 || self.exponent - other.exponent - 120 <= r.exponent <= self.exponent
                - other.exponent + 10,
    {
        proof {
            reveal(Double::spec_quotient);
        }
        let n: u128 = shifted(self.mantissa, 56);
        let q: u128 = n / other.mantissa as u128;
        let rest: u128 = n % other.mantissa as u128;
        assert(q <= n) by (nonlinear_arith)
            requires
                q == n / other.mantissa as u128,
                other.mantissa >= 1,
        ;
        proof {
            vstd::arithmetic::power2::lemma2_to64_rest();
            if self.mantissa != 0 {
                assert(n > 0) by (nonlinear_arith)
                    requires
                        n == self.mantissa * two(56),
                        self.mantissa > 0,
                        two(56) == 0x100_0000_0000_0000,
                ;
                vstd::arithmetic::div_mod::lemma_fundamental_div_mod(
                    n as int,
                    other.mantissa as int,
                );
                if q == 0 && rest == 0 {
                    assert(other.mantissa * 0 == 0) by (nonlinear_arith);
                }
            }
            if self.mantissa == 0 {
                assert(0 * two(56) == 0) by (nonlinear_arith);
                assert(0int / (other.mantissa as int) == 0) by (nonlinear_arith)
                    requires
                        other.mantissa > 0,
                ;
                assert(0int % (other.mantissa as int) == 0) by (nonlinear_arith)
                    requires
                        other.mantissa > 0,
                ;
            }
        }
        let wide: u128 = 2 * q + if rest != 0 {
            1
        } else {
            0
        };
        round(
            wide != 0 && self.negative != other.negative,
            wide,
            self.exponent - other.exponent - 57,
        )
    }

    /// The whole number nearest to the magnitude of `self`, halves upwards.
    pub open spec fn whole(self) -> nat {
        if self.exponent >= 0 {
            (self.mantissa * two(self.exponent as nat)) as nat
        } else {
            let p = two((-self.exponent) as nat);
            if 2 * (self.mantissa as nat % p) >= p {
                self.mantissa as nat / p + 1
            } else {
                self.mantissa as nat / p
            }
        }
    }

    /// The nearest whole number, halves away from zero.
    #[verifier::opaque]
    pub open spec fn spec_round(self) -> Double {
        nearest(
            if self.negative {
                -(self.whole() as int)
            } else {
                self.whole() as int
            },
            0,
        )
    }

    /// The nearest whole number, halves away from zero.
    pub fn rounded_away(self) -> (r: Double)
        requires
            self.wf(),
        ensures
            r == self.spec_round(),
            r.wf(),
            r.mantissa == 0 || r.within(100) || r == self,
    {
        proof {
            reveal(Double::spec_round);
        }
        if self.exponent >= 0 {
            proof {
                lemma_kept(self, 0);
            }
            return self;
        }
        if self.exponent < -53 {
            proof {
                vstd::arithmetic::power2::lemma2_to64();
                vstd::arithmetic::power2::lemma2_to64_rest();
                let p = two((-self.exponent) as nat);
                lemma_two_grows(54, (-self.exponent) as nat);
                lemma_fundamental_div_mod_converse(
                    self.mantissa as int,
                    p as int,
                    0,
                    self.mantissa as int,
                );
            }
            return Double { negative: false, mantissa: 0, exponent: 0 };
        }
        let p: u64 = power(-self.exponent);
        proof {
            assert(self.mantissa / p <= self.mantissa) by (nonlinear_arith)
                requires
                    p >= 1,
            ;
        }
        let q: u64 = self.mantissa / p;
        let rest: u64 = self.mantissa % p;
        let n: u64 = if 2 * rest >= p {
            q + 1
        } else {
            q
        };
        round(self.negative && n != 0, n as u128, 0)
    }
}

/// `2^d`.
fn power(d: i64) -> (r: u64)
    requires
        0 <= d <= 57,
    ensures
        r == two(d as nat),
        0 < r <= 0x200_0000_0000_0000,
{
    let r: u128 = shifted(1, d);
    proof {
        lemma_two_of(d as nat);
        assert(1 * two(d as nat) == two(d as nat)) by (nonlinear_arith);
    }
    r as u64
}

/// `m * unit * 2^e`, rounded to a whole number, ties to even: how many of `unit` equal parts
/// of one a number holds.
pub open spec fn parts_of_one(m: nat, e: int, unit: nat) -> nat {
    let n = m * unit;
    if e >= 0 {
        n * two(e as nat)
    } else {
        let p = two((-e) as nat);
        let kept = n / p;
        let lost = n % p;
        if 2 * lost > p || (2 * lost == p && kept % 2 == 1) {
            kept + 1
        } else {
            kept
        }
    }
}

/// `2^d`, for the widest integers.
fn wide_power(d: i64) -> (r: u128)
    requires
        0 <= d <= 100,
    ensures
        r == two(d as nat),
        0 < r <= 0x10_0000_0000_0000_0000_0000_0000,
{
    let mut r: u128 = 1;
    let mut i: i64 = 0;
    proof {
        vstd::arithmetic::power2::lemma2_to64();
    }
    while i < d
        invariant
            0 <= i <= d <= 100,
            r == two(i as nat),
            two(0) == 1,
        decreases d - i,
    {
        proof {
            lemma_pow2_unfold((i + 1) as nat);
            lemma_two_hundred(i as nat);
        }
        r = r * 2;
        i = i + 1;
    }
    proof {
        lemma_two_hundred(d as nat);
    }
    r
}

proof fn lemma_two_hundred(i: nat)
    requires
        i <= 100,
    ensures
        0 < two(i) <= 0x10_0000_0000_0000_0000_0000_0000,
{
    vstd::arithmetic::power2::lemma2_to64();
    vstd::arithmetic::power2::lemma2_to64_rest();
    lemma_pow2_pos(i);
    lemma_two_grows(i, 100);
    lemma_pow2_adds(50, 50);
    assert(0x4_0000_0000_0000 * 0x4_0000_0000_0000 == 0x10_0000_0000_0000_0000_0000_0000)
        by (nonlinear_arith);
}

impl Double {
    /// How many of `unit` equal parts of one the magnitude of the number holds.
    pub fn to_parts_of_one(self, unit: u16) -> (r: u128)
        requires
            self.wf(),
            self.exponent <= 60,
            0 < unit <= 10000,
        ensures
            r == parts_of_one(self.mantissa as nat, self.exponent as int, unit as nat),
    {
        assert(self.mantissa * unit <= 90071992547409920000) by (nonlinear_arith)
            requires
                0 <= self.mantissa <= 9007199254740992,
                0 < unit <= 10000,
        ;
        let n: u128 = self.mantissa as u128 * unit as u128;
        if self.exponent >= 0 {
            let p: u128 = wide_power(self.exponent);
            proof {
                vstd::arithmetic::power2::lemma2_to64();
                vstd::arithmetic::power2::lemma2_to64_rest();
                lemma_two_grows(self.exponent as nat, 60);
                assert(n * p <= 90071992547409920000 * 0x1000_0000_0000_0000) by (nonlinear_arith)
                    requires
                        0 <= n <= 90071992547409920000,
                        0 <= p <= 0x1000_0000_0000_0000,
                ;
            }
            return n * p;
        }
        if self.exponent < -100 {
            proof {
                let p = two((-self.exponent) as nat);
                lemma_two_grows(100, (-self.exponent) as nat);
                lemma_pow2_adds(50, 50);
                vstd::arithmetic::power2::lemma2_to64();
                vstd::arithmetic::power2::lemma2_to64_rest();
                assert(0x4_0000_0000_0000 * 0x4_0000_0000_0000
                    == 0x10_0000_0000_0000_0000_0000_0000) by (nonlinear_arith);
                lemma_fundamental_div_mod_converse(n as int, p as int, 0, n as int);
            }
            return 0;
        }
        let p: u128 = wide_power(-self.exponent);
        let kept: u128 = n / p;
        let lost: u128 = n % p;
        assert(kept <= n) by (nonlinear_arith)
            requires
                kept == n / p,
                p >= 1,
        ;
        if 2 * lost > p || (2 * lost == p && kept % 2 == 1) {
            kept + 1
        } else {
            kept
        }
    }

    pub open spec fn spec_full_turn() -> Double {
        Double { negative: false, mantissa: 0x16_8000_0000_0000, exponent: (-44) as i64 }
    }

    /// What is left of the magnitude when whole turns of 360 are taken off, with the sign
    /// of `self`.
    pub open spec fn spec_within_turn(self) -> Double {
        let turn = Double::spec_full_turn();
        let e = self.common(turn);
        let rest = self.spec_abs().scaled(e) % turn.scaled(e);
        nearest(
            if self.negative {
                -rest
            } else {
                rest
            },
            e,
        )
    }

    /// The angle from 0 up to 360 degrees that `self` turns to.
    #[verifier::opaque]
    pub open spec fn spec_turned(self) -> Double {
        let rest = self.spec_within_turn();
        if rest.negative {
            rest.spec_sum(Double::spec_full_turn())
        } else {
            rest
        }
    }

    /// The angle from 0 up to 360 degrees that `self` turns to.
    pub fn turned(self) -> (r: Double)
        requires
            self.wf(),
            -LIMIT <= self.exponent <= 12,
        ensures
            r == self.spec_turned(),
            r.wf(),
            r.mantissa == 0 || (r.exponent <= 0 && (self.exponent - 60 <= r.exponent || -200
                <= r.exponent)),
    {
        proof {
            reveal(Double::spec_turned);
        }
        let turn = Double { negative: false, mantissa: 0x16_8000_0000_0000, exponent: -44 };
        let ghost e = self.common(turn);
        proof {
            vstd::arithmetic::power2::lemma2_to64();
            assert(0x16_8000_0000_0000 * two(0) == 0x16_8000_0000_0000) by (nonlinear_arith)
                requires
                    two(0) == 1,
            ;
            assert(self.mantissa * two(0) == self.mantissa) by (nonlinear_arith)
                requires
                    two(0) == 1,
            ;
        }
        let rest: Double = if self.exponent < -44 {
            proof {
                let d = (-44 - self.exponent) as nat;
                lemma_pow2_unfold(d);
                lemma_pow2_pos((d - 1) as nat);
                let t = turn.scaled(e);
                assert(t > CARRY) by (nonlinear_arith)
                    requires
                        t == 0x16_8000_0000_0000 * (2 * two((d - 1) as nat)),
                        two((d - 1) as nat) >= 1,
                ;
                vstd::arithmetic::div_mod::lemma_small_mod(self.mantissa as nat, t as nat);
                lemma_kept(self, e);
            }
            self
        } else {
            let n: u128 = shifted(self.mantissa, self.exponent + 44);
            let left: u128 = n % 0x16_8000_0000_0000u128;
            round(self.negative && left != 0, left, -44)
        };
        if rest.negative {
            rest.plus(turn)
        } else {
            rest
        }
    }
}

impl Double {
    /// The whole part of the magnitude.
    pub open spec fn whole_part(self) -> nat {
        if self.exponent >= 0 {
            (self.mantissa * two(self.exponent as nat)) as nat
        } else {
            self.mantissa as nat / two((-self.exponent) as nat)
        }
    }

    /// A whole number has nothing behind its whole part.
    pub open spec fn is_whole(self) -> bool {
        self.exponent >= 0 || self.mantissa as nat % two((-self.exponent) as nat) == 0
    }

    /// The whole number next to `self` towards zero.
    #[verifier::opaque]
    pub open spec fn spec_trunc(self) -> Double {
        nearest(
            if self.negative {
                -(self.whole_part() as int)
            } else {
                self.whole_part() as int
            },
            0,
        )
    }

    /// The greatest whole number that is not above `self`.
    #[verifier::opaque]
    pub open spec fn spec_floor(self) -> Double {
        nearest(
            if !self.negative {
                self.whole_part() as int
            } else if self.is_whole() {
                -(self.whole_part() as int)
            } else {
                -(self.whole_part() as int) - 1
            },
            0,
        )
    }

    /// `self` as an integer: its whole part with its sign, or the nearest integer there is.
    #[verifier::opaque]
    pub open spec fn spec_to_i64(self) -> int {
        let v = if self.negative {
            -(self.whole_part() as int)
        } else {
            self.whole_part() as int
        };
        if v < i64::MIN {
            i64::MIN as int
        } else if v > i64::MAX {
            i64::MAX as int
        } else {
            v
        }
    }

    /// The whole part of the magnitude of a number with an exponent below zero, and whether
    /// anything is behind it.
    fn parts(self) -> (r: (u64, bool))
        requires
            self.wf(),
            self.exponent < 0,
        ensures
            r.0 == self.whole_part(),
            r.0 < CARRY,
            r.1 == !self.is_whole(),
    {
        if self.exponent < -53 {
            proof {
                vstd::arithmetic::power2::lemma2_to64();
                vstd::arithmetic::power2::lemma2_to64_rest();
                let p = two((-self.exponent) as nat);
                lemma_two_grows(54, (-self.exponent) as nat);
                lemma_fundamental_div_mod_converse(
                    self.mantissa as int,
                    p as int,
                    0,
                    self.mantissa as int,
                );
            }
            return (0, self.mantissa != 0);
        }
        let p: u64 = power(-self.exponent);
        proof {
            assert(self.mantissa / p <= self.mantissa) by (nonlinear_arith)
                requires
                    p >= 1,
            ;
        }
        (self.mantissa / p, self.mantissa % p != 0)
    }

    /// The whole number next to `self` towards zero.
    pub fn truncated(self) -> (r: Double)
        requires
            self.wf(),
        ensures
            r == self.spec_trunc(),
            r.wf(),
            r.mantissa == 0 || r.within(100) || r == self,
    {
        proof {
            reveal(Double::spec_trunc);
        }
        if self.exponent >= 0 {
            proof {
                lemma_kept(self, 0);
            }
            return self;
        }
        let (n, _) = self.parts();
        round(self.negative && n != 0, n as u128, 0)
    }

    /// The greatest whole number that is not above `self`.
    pub fn floored(self) -> (r: Double)
        requires
            self.wf(),
        ensures
            r == self.spec_floor(),
            r.wf(),
            r.mantissa == 0 || r.within(100) || r == self,
    {
        proof {
            reveal(Double::spec_floor);
        }
        if self.exponent >= 0 {
            proof {
                lemma_kept(self, 0);
            }
            return self;
        }
        let (n, more) = self.parts();
        let n: u64 = if self.negative && more {
            n + 1
        } else {
            n
        };
        round(self.negative && n != 0, n as u128, 0)
    }

    /// `self` as an integer: its whole part with its sign, or the nearest integer there is.
    pub fn to_i64(self) -> (r: i64)
        requires
            self.wf(),
        ensures
            r == self.spec_to_i64(),
    {
        proof {
            reveal(Double::spec_to_i64);
        }
        if self.exponent < 0 {
            let (n, _) = self.parts();
            return if self.negative {
                -(n as i64)
            } else {
                n as i64
            };
        }
        if self.mantissa == 0 {
            assert(0 * two(0) == 0) by (nonlinear_arith);
            return 0;
        }
        proof {
            vstd::arithmetic::power2::lemma2_to64();
        }
        if self.exponent > 10 {
            proof {
                lemma_two_grows(11, self.exponent as nat);
                assert(self.mantissa * two(self.exponent as nat) >= 0x8000_0000_0000_0000)
                    by (nonlinear_arith)
                    requires
                        self.mantissa >= 0x10_0000_0000_0000,
                        two(self.exponent as nat) >= 0x800,
                ;
            }
            return if self.negative {
                i64::MIN
            } else {
                i64::MAX
            };
        }
        let n: u128 = shifted(self.mantissa, self.exponent);
        proof {
            lemma_two_grows(self.exponent as nat, 10);
            assert(self.mantissa * two(self.exponent as nat) <= 0x7fff_ffff_ffff_ffff)
                by (nonlinear_arith)
                requires
                    0 <= self.mantissa <= 0x1f_ffff_ffff_ffff,
                    0 <= two(self.exponent as nat) <= 0x400,
            ;
        }
        if self.negative {
            -(n as i64)
        } else {
            n as i64
        }
    }

    /// The number nearest to an integer.
    pub fn from_wide(v: i128) -> (r: Double)
        requires
            -0x1_0000_0000_0000_0000_0000_0000 <= v <= 0x1_0000_0000_0000_0000_0000_0000,
        ensures
            r == nearest(v as int, 0),
            r.wf(),
            r.within(100),
            r.mantissa == 0 <==> v == 0,
            r.negative == (v < 0),
    {
        if v < 0 {
            round(true, (-v) as u128, 0)
        } else {
            round(false, v as u128, 0)
        }
    }

    /// The single precision number nearest to `self`, ties to even.
    #[verifier::opaque]
    pub open spec fn spec_single(self) -> Double {
        if self.mantissa == 0 {
            self
        } else {
            let p = two(29);
            let kept = self.mantissa as nat / p;
            let lost = self.mantissa as nat % p;
            let m = if 2 * lost > p || (2 * lost == p && kept % 2 == 1) {
                kept + 1
            } else {
                kept
            };
            nearest(
                if self.negative {
                    -(m as int)
                } else {
                    m as int
                },
                self.exponent + 29,
            )
        }
    }

    /// The single precision number nearest to `self`, ties to even.
    pub fn single(self) -> (r: Double)
        requires
            self.wf(),
            self.within(LIMIT as int),
        ensures
            r == self.spec_single(),
            r.wf(),
            r.mantissa == 0 || self.exponent - 60 <= r.exponent <= self.exponent + 30,
    {
        proof {
            reveal(Double::spec_single);
        }
        if self.mantissa == 0 {
            return self;
        }
        proof {
            vstd::arithmetic::power2::lemma2_to64();
        }
        let kept: u64 = self.mantissa / 0x2000_0000;
        let lost: u64 = self.mantissa % 0x2000_0000;
        let m: u64 = if lost > 0x1000_0000 || (lost == 0x1000_0000 && kept % 2 == 1) {
            kept + 1
        } else {
            kept
        };
        proof {
            assert(excess(m as nat) == 0);
        }
        round(self.negative && m != 0, m as u128, self.exponent + 29)
    }
}

/// The number nearest to `n / d`; with powers of ten for `d`, what a decimal fraction stands
/// for.
pub open spec fn spec_ratio(n: int, d: int) -> Double {
    nearest(n, 0).spec_quotient(nearest(d, 0))
}

/// The number nearest to `n / d`.
pub fn ratio(n: i64, d: i64) -> (r: Double)
    requires
        -0x20_0000_0000_0000 <= n <= 0x20_0000_0000_0000,
        0 < d <= 0x20_0000_0000_0000,
    ensures
        r == spec_ratio(n as int, d as int),
        r.wf(),
        r.within(400),
        r.mantissa == 0 <==> n == 0,
{
    let divisor = round(false, d as u128, 0);
    Double::from_int(n).divided_by(divisor)
}

/// The order of numbers is strict and total.
pub proof fn less_is_total(a: Double, b: Double, c: Double)
    requires
        a.wf(),
        b.wf(),
        c.wf(),
    ensures
        !a.spec_less(a),
        a.spec_less(b) ==> !b.spec_less(a),
        !a.spec_less(b) && !b.spec_less(a) ==> a == b,
        !a.spec_less(b) && !b.spec_less(c) ==> !a.spec_less(c),
{
    lemma_order(a, a);
    lemma_order(a, b);
    lemma_order(b, a);
    lemma_order(b, c);
    lemma_order(a, c);
}

/// What is kept of a number fills a mantissa.
proof fn lemma_kept_fills(n: nat)
    requires
        n >= UNIT,
    ensures
        UNIT <= n / two(excess(n)) < CARRY,
    decreases n,
{
    vstd::arithmetic::power2::lemma2_to64();
    if n >= CARRY {
        let k = excess(n / 2);
        lemma_kept_fills(n / 2);
        lemma_pow2_unfold(k + 1);
        lemma_pow2_pos(k);
        vstd::arithmetic::div_mod::lemma_div_denominator(n as int, 2, two(k) as int);
    } else {
        assert(n / 1 == n);
    }
}

/// A number other than zero is not rounded to zero.
proof fn lemma_rounded_fills(n: nat, e: int)
    requires
        n > 0,
    ensures
        UNIT <= rounded(n, e).0 < CARRY,
    decreases
            (if n < UNIT {
                UNIT - n
            } else {
                0
            }),
{
    if n < UNIT {
        lemma_rounded_fills(2 * n, e - 1);
    } else {
        lemma_kept_fills(n);
    }
}

/// The difference of two numbers is zero only where they are the same.
pub proof fn difference_of_distinct(a: Double, b: Double)
    requires
        a.spec_less(b) || b.spec_less(a),
    ensures
        a.spec_difference(b).mantissa != 0,
{
    reveal(Double::spec_difference);
    let e = a.common(b);
    let v = a.scaled(e) - b.scaled(e);
    lemma_rounded_fills(
        (if v < 0 {
            -v
        } else {
            v
        }) as nat,
        e,
    );
}

/// A number other than zero stays so in single precision.
pub proof fn single_keeps_nonzero(d: Double)
    requires
        d.wf(),
        d.mantissa != 0,
    ensures
        d.spec_single().mantissa != 0,
{
    reveal(Double::spec_single);
    vstd::arithmetic::power2::lemma2_to64();
    let p = two(29);
    let kept = d.mantissa as nat / p;
    assert(kept > 0) by (nonlinear_arith)
        requires
            kept == d.mantissa as nat / p,
            p == 0x2000_0000,
            d.mantissa >= 0x10_0000_0000_0000,
    ;
    let lost = d.mantissa as nat % p;
    let m = if 2 * lost > p || (2 * lost == p && kept % 2 == 1) {
        kept + 1
    } else {
        kept
    };
    lemma_rounded_fills(m, d.exponent + 29);
}

/// A whole number that does not fill a mantissa is kept as it is: so many zeros follow it.
pub proof fn lemma_small_exact(v: nat, e: int) -> (j: nat)
    requires
        0 < v < UNIT,
    ensures
        rounded(v, e) == ((v * two(j)) as nat, e - j),
        UNIT <= v * two(j) < CARRY,
        j <= 52,
    decreases UNIT - v,
{
    vstd::arithmetic::power2::lemma2_to64();
    vstd::arithmetic::power2::lemma2_to64_rest();
    let j = if 2 * v < UNIT {
        let i = lemma_small_exact(2 * v, e - 1);
        lemma_pow2_unfold(i + 1);
        assert(v * (2 * two(i)) == (2 * v) * two(i)) by (nonlinear_arith);
        i + 1
    } else {
        lemma_exact(2 * v, 0, e - 1);
        assert((2 * v) * 1 == 2 * v);
        assert(v * 2 == 2 * v);
        1
    };
    if j > 52 {
        lemma_two_grows(53, j);
        assert(v * two(j) >= two(j)) by (nonlinear_arith)
            requires
                v >= 1,
        ;
    }
    j
}

/// Rounding errs by no more than half of the last place: by one part in `2^53` of the number. All
/// is counted in multiples of `2^-b`.
pub proof fn lemma_rounded_close(v: nat, e: int, k: nat, b: int)
    requires
        0 < v,
        v * two(k) >= UNIT,
        e - k + b >= 0,
    ensures
        ({
            let (m, x) = rounded(v, e);
            let exact = v * two((e + b) as nat);
            let got = m * two((x + b) as nat);
            &&& UNIT <= m < CARRY
            &&& e - k <= x <= e + excess(v) + 1
            &&& -exact <= (got - exact) * CARRY <= exact
        }),
    decreases k,
{
    vstd::arithmetic::power2::lemma2_to64();
    if v < UNIT {
        if k == 0 {
            assert(v * 1 == v);
        }
        lemma_pow2_unfold(k);
        lemma_pow2_unfold((e + b) as nat);
        let half = two((k - 1) as nat);
        assert(v * (2 * half) == (2 * v) * half) by (nonlinear_arith);
        lemma_rounded_close(2 * v, e - 1, (k - 1) as nat, b);
        let less = two((e + b - 1) as nat);
        assert(v * (2 * less) == (2 * v) * less) by (nonlinear_arith);
        lemma_excess_bound(2 * v, 0);
        assert(CARRY * 1 == CARRY);
    } else {
        let s = excess(v);
        let p = two(s);
        let q = two((e + b) as nat);
        let kept = v / p;
        let lost = v % p;
        lemma_kept_fills(v);
        lemma_pow2_pos(s);
        lemma_pow2_pos((e + b) as nat);
        vstd::arithmetic::div_mod::lemma_fundamental_div_mod(v as int, p as int);
        let up = 2 * lost > p || (2 * lost == p && kept % 2 == 1);
        let m = if up {
            kept + 1
        } else {
            kept
        };
        let gap = m * p - v;
        assert(m * p == kept * p + (if up {
            p as int
        } else {
            0
        })) by (nonlinear_arith)
            requires
                m == kept + (if up {
                    1int
                } else {
                    0
                }),
        ;
        assert(p * kept == kept * p) by (nonlinear_arith);
        assert(-(p as int) <= 2 * gap <= p);
        assert(UNIT * p <= v) by (nonlinear_arith)
            requires
                kept >= UNIT,
                v >= kept * p,
                p >= 0,
        ;
        lemma_pow2_adds(s, (e + b) as nat);
        let (r, x) = rounded(v, e);
        if m == CARRY {
            lemma_pow2_adds(1, (e + s + b) as nat);
            assert(UNIT * (2 * (p * q)) == CARRY * (p * q)) by (nonlinear_arith)
                requires
                    CARRY == 2 * UNIT,
            ;
        }
        assert(r * two((x + b) as nat) == m * (p * q));
        assert(m * (p * q) - v * q == gap * q) by (nonlinear_arith)
            requires
                gap == m * p - v,
        ;
        assert(-(v * q) <= (gap * q) * CARRY <= v * q) by (nonlinear_arith)
            requires
                -(p as int) <= 2 * gap <= p,
                UNIT * p <= v,
                q >= 0,
                CARRY == 2 * UNIT,
                UNIT > 0,
        ;
    }
}

} // verus!
