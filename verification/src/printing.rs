//! What becomes of coordinates that are written to a file and read again.
//!
//! A file holds whole numbers of ten-thousandths. Read from it, they are the nearest binary
//! numbers; moved and written again, they are whole numbers of ten-thousandths once more, and
//! the right ones.

use vstd::prelude::*;

verus! {

/// A number in multiples of `2^-200`, exact where its exponent is no less.
pub open spec fn fine(x: crate::double::Double) -> int {
    x.scaled(-200)
}

/// How far a number is from `n` ten-thousandths, in multiples of `2^-200` of one of them.
pub open spec fn stray(x: crate::double::Double, n: int) -> int {
    10000 * fine(x) - n * crate::double::two(200)
}

/// A number is no further than `2^t` of those multiples from `n` ten-thousandths.
pub open spec fn is_near(x: crate::double::Double, n: int, t: nat) -> bool {
    -(crate::double::two(t) as int) <= stray(x, n) <= crate::double::two(t)
}

/// What a coordinate of `n` ten-thousandths is read as: a number less than a millionth of one of
/// them away. The nearest number lies that near: see [`nearest_numbers_are_readings`].
pub open spec fn is_reading(x: crate::double::Double, n: int) -> bool {
    &&& x.wf()
    &&& -140 <= x.exponent <= 0
    &&& is_near(x, n, 180)
}

/// As many ten-thousandths as a schematic has: no more than a hundred metres.
pub open spec fn in_schematic(n: int) -> bool {
    -0x4000_0000 <= n <= 0x4000_0000
}

/// How `n` ten-thousandths are written.
pub open spec fn units_text(n: int) -> Seq<char> {
    if n == 0 {
        seq!['0']
    } else if n < 0 {
        seq!['-'] + crate::text::decimal(((-n) / 10000) as nat) + crate::geometry::fraction(
            ((-n) % 10000) as nat,
            4,
        )
    } else {
        crate::text::decimal((n / 10000) as nat) + crate::geometry::fraction(
            (n % 10000) as nat,
            4,
        )
    }
}

proof fn lemma_fine(x: crate::double::Double, e: int)
    requires
        -200 <= e <= x.exponent,
    ensures
        fine(x) == x.scaled(e) * crate::double::two((e + 200) as nat),
{
    let p = crate::double::two((x.exponent - e) as nat) as int;
    let q = crate::double::two((e + 200) as nat) as int;
    vstd::arithmetic::power2::lemma_pow2_adds((x.exponent - e) as nat, (e + 200) as nat);
    let m = x.mantissa as int;
    assert(m * (p * q) == (m * p) * q) by (nonlinear_arith);
    assert((-(m * p)) * q == -((m * p) * q)) by (nonlinear_arith);
}

proof fn lemma_fine_less(a: crate::double::Double, b: crate::double::Double)
    requires
        -200 <= a.exponent,
        -200 <= b.exponent,
    ensures
        a.spec_less(b) == (fine(a) < fine(b)),
{
    let e = a.common(b);
    lemma_fine(a, e);
    lemma_fine(b, e);
    let q = crate::double::two((e + 200) as nat) as int;
    vstd::arithmetic::power2::lemma_pow2_pos((e + 200) as nat);
    let x = a.scaled(e);
    let y = b.scaled(e);
    assert(x < y <==> x * q < y * q) by (nonlinear_arith)
        requires
            q > 0,
    ;
}

/// The powers of two that bound errors.
proof fn lemma_powers()
    ensures
        crate::double::two(180) > 0,
        crate::double::two(182) == 4 * crate::double::two(180),
        crate::double::two(197) == 0x2_0000 * crate::double::two(180),
        crate::double::two(200) == 0x10_0000 * crate::double::two(180),
        crate::double::two(133) * 0x8000_0000_0000 == crate::double::two(180),
{
    vstd::arithmetic::power2::lemma2_to64();
    vstd::arithmetic::power2::lemma2_to64_rest();
    vstd::arithmetic::power2::lemma_pow2_pos(180);
    vstd::arithmetic::power2::lemma_pow2_adds(2, 180);
    vstd::arithmetic::power2::lemma_pow2_adds(17, 180);
    vstd::arithmetic::power2::lemma_pow2_adds(20, 180);
    vstd::arithmetic::power2::lemma_pow2_adds(133, 47);
}

/// A number near to a whole number of ten-thousandths is written as that.
proof fn lemma_printed(x: crate::double::Double, n: int)
    requires
        x.wf(),
        -200 <= x.exponent,
        is_near(x, n, 197),
        -0x2_0000_0000 <= n <= 0x2_0000_0000,
    ensures
        crate::geometry::coord_text(x) == units_text(n),
        x.mantissa != 0 ==> x.exponent < 0,
        n != 0 ==> x.negative == (n < 0),
{
    let u = crate::double::two(197) as int;
    let one = crate::double::two(200) as int;
    lemma_powers();
    assert(one == 8 * u);
    assert(u > 0);
    let m = x.mantissa as int;
    let q = crate::double::two((x.exponent + 200) as nat) as int;
    let f = m * q;
    vstd::arithmetic::power2::lemma_pow2_pos((x.exponent + 200) as nat);
    assert(f >= 0) by (nonlinear_arith)
        requires
            f == m * q,
            m >= 0,
            q > 0,
    ;
    assert(m == 0 ==> f == 0) by (nonlinear_arith)
        requires
            f == m * q,
    ;
    assert(m > 0 ==> f > 0) by (nonlinear_arith)
        requires
            f == m * q,
            q > 0,
    ;
    assert(fine(x) == if x.negative {
        -f
    } else {
        f
    });
    let k = if n < 0 {
        -n
    } else {
        n
    };
    assert(n * one == if n < 0 {
        -(k * one)
    } else {
        k * one
    }) by (nonlinear_arith)
        requires
            n == k || n == -k,
            n < 0 <==> n != k,
            k >= 0,
    ;
    assert(k >= 1 ==> k * one >= one) by (nonlinear_arith)
        requires
            one > 0,
    ;
    assert(k == 0 ==> k * one == 0) by (nonlinear_arith);
    assert(n != 0 ==> x.negative == (n < 0));
    assert(-u <= 10000 * f - k * one <= u);
    if m != 0 && x.exponent >= 0 {
        vstd::arithmetic::power2::lemma_pow2_adds(x.exponent as nat, 200);
        vstd::arithmetic::power2::lemma_pow2_pos(x.exponent as nat);
        let p = crate::double::two(x.exponent as nat) as int;
        assert(q >= one) by (nonlinear_arith)
            requires
                q == p * one,
                p >= 1,
                one > 0,
        ;
        assert(f >= 0x10_0000_0000_0000 * one) by (nonlinear_arith)
            requires
                f == m * q,
                m >= 0x10_0000_0000_0000,
                q >= one,
                one > 0,
        ;
        assert(k * one <= 0x2_0000_0000 * one) by (nonlinear_arith)
            requires
                k <= 0x2_0000_0000,
                one > 0,
        ;
        assert(false);
    }
    let least = crate::geometry::negligible();
    lemma_fine_less(x.spec_abs(), least);
    assert(fine(x.spec_abs()) == f);
    vstd::arithmetic::power2::lemma_pow2_adds(67, 133);
    assert(fine(least) == 0x1a_36e2_eb1c_432d * crate::double::two(133));
    let w = crate::double::two(133) as int;
    assert(one == 0x8_0000_0000_0000_0000 * w) by {
        vstd::arithmetic::power2::lemma2_to64();
        vstd::arithmetic::power2::lemma2_to64_rest();
        vstd::arithmetic::power2::lemma_pow2_adds(64, 3);
        assert(crate::double::two(67) == 0x8_0000_0000_0000_0000);
        assert(0x8_0000_0000_0000_0000 * w == w * 0x8_0000_0000_0000_0000);
    }
    if n == 0 {
        assert(10000 * f <= u);
        assert(x.spec_abs().spec_less(least));
    } else {
        assert(10000 * f >= one - u);
        assert(!x.spec_abs().spec_less(least));
        assert(m != 0);
        let p = crate::double::two((-x.exponent) as nat) as int;
        vstd::arithmetic::power2::lemma_pow2_pos((-x.exponent) as nat);
        vstd::arithmetic::power2::lemma_pow2_adds(
            (-x.exponent) as nat,
            (x.exponent + 200) as nat,
        );
        assert(one == p * q);
        let parts = m * 10000;
        let d = parts - k * p;
        assert(10000 * f - k * one == d * q) by (nonlinear_arith)
            requires
                f == m * q,
                one == p * q,
                d == m * 10000 - k * p,
        ;
        assert(-p <= 8 * d <= p) by (nonlinear_arith)
            requires
                -u <= d * q <= u,
                8 * u == p * q,
                q > 0,
        ;
        if d >= 0 {
            vstd::arithmetic::div_mod::lemma_fundamental_div_mod_converse(parts, p, k, d);
        } else {
            assert(parts == (k - 1) * p + (p + d)) by (nonlinear_arith)
                requires
                    d == parts - k * p,
            ;
            vstd::arithmetic::div_mod::lemma_fundamental_div_mod_converse(
                parts,
                p,
                k - 1,
                p + d,
            );
        }
        assert(crate::double::parts_of_one(m as nat, x.exponent as int, 10000) == k);
        assert(crate::geometry::coord_text(x) =~= units_text(n));
    }
}

/// A reading lies within the schematic.
proof fn lemma_reading_bound(x: crate::double::Double, n: int)
    requires
        is_reading(x, n),
        -0x1_0000_0000 <= n <= 0x1_0000_0000,
    ensures
        -0x2_0000_0000 * crate::double::two(200) <= 10000 * fine(x) <= 0x2_0000_0000
            * crate::double::two(200),
{
    lemma_powers();
    let one = crate::double::two(200) as int;
    assert(-0x1_0000_0000 * one <= n * one <= 0x1_0000_0000 * one) by (nonlinear_arith)
        requires
            -0x1_0000_0000 <= n <= 0x1_0000_0000,
            one > 0,
    ;
}

/// A sum of two readings is near to the sum of what they stand for.
proof fn lemma_sum_near(x: crate::double::Double, n: int, d: crate::double::Double, k: int)
    requires
        is_reading(x, n),
        is_reading(d, k),
        -0x1_0000_0000 <= n <= 0x1_0000_0000,
        -0x1_0000_0000 <= k <= 0x1_0000_0000,
    ensures
        ({
            let r = x.spec_sum(d);
            &&& r.wf()
            &&& -200 <= r.exponent
            &&& is_near(r, n + k, 182)
        }),
{
    reveal(crate::double::Double::spec_sum);
    lemma_powers();
    lemma_reading_bound(x, n);
    lemma_reading_bound(d, k);
    let one = crate::double::two(200) as int;
    let e = x.common(d);
    let q = crate::double::two((e + 200) as nat) as int;
    vstd::arithmetic::power2::lemma_pow2_pos((e + 200) as nat);
    lemma_fine(x, e);
    lemma_fine(d, e);
    let sum = x.scaled(e) + d.scaled(e);
    let r = crate::double::nearest(sum, e);
    assert(sum * q == fine(x) + fine(d)) by (nonlinear_arith)
        requires
            sum == x.scaled(e) + d.scaled(e),
            fine(x) == x.scaled(e) * q,
            fine(d) == d.scaled(e) * q,
    ;
    assert((n + k) * one == n * one + k * one) by (nonlinear_arith);
    if sum == 0 {
        assert(fine(r) == 0) by {
            assert(0 * crate::double::two(200) == 0) by (nonlinear_arith);
        }
        assert(0 * q == 0) by (nonlinear_arith);
    } else {
        let v = (if sum < 0 {
            -sum
        } else {
            sum
        }) as nat;
        vstd::arithmetic::power2::lemma2_to64();
        vstd::arithmetic::power2::lemma2_to64_rest();
        assert(v * crate::double::two(52) >= crate::double::UNIT) by (nonlinear_arith)
            requires
                v >= 1,
                crate::double::two(52) == crate::double::UNIT,
        ;
        crate::double::lemma_rounded_close(v, e, 52, 200);
        let (m, at) = crate::double::rounded(v, e);
        let exact = v * q;
        let got = (m * crate::double::two((at + 200) as nat)) as int;
        assert(exact == if sum < 0 {
            -(sum * q)
        } else {
            sum * q
        }) by (nonlinear_arith)
            requires
                exact == v * q,
                v == sum || v == -sum,
                sum < 0 <==> v == -sum,
        ;
        assert(exact > 0) by (nonlinear_arith)
            requires
                exact == v * q,
                v > 0,
                q > 0,
        ;
        lemma_exponent_fits(v, e, at, m, got, exact);
        assert(fine(r) == if sum < 0 {
            -got
        } else {
            got
        });
        let off = got - exact;
        assert(10000 * exact <= 0x4_0000_0000 * one);
        let t = crate::double::two(180) as int;
        assert(-2 * t <= 10000 * off <= 2 * t);
    }
}

/// The exponent of a sum of readings is one that a number can have.
proof fn lemma_exponent_fits(v: nat, e: int, at: int, m: nat, got: int, exact: int)
    requires
        0 < v,
        -140 <= e <= 0,
        e - 52 <= at <= e + crate::double::excess(v) + 1,
        crate::double::UNIT <= m < crate::double::CARRY,
        got == m * crate::double::two((at + 200) as nat),
        10000 * exact <= 0x4_0000_0000 * crate::double::two(200),
        (got - exact) * crate::double::CARRY <= exact,
        exact > 0,
    ensures
        -200 <= at < 0,
{
    if at >= 0 {
        lemma_powers();
        let one = crate::double::two(200) as int;
        let p = crate::double::two(at as nat) as int;
        let q = crate::double::two((at + 200) as nat) as int;
        vstd::arithmetic::power2::lemma_pow2_adds(at as nat, 200);
        vstd::arithmetic::power2::lemma_pow2_pos(at as nat);
        assert(q >= one) by (nonlinear_arith)
            requires
                q == p * one,
                p >= 1,
                one > 0,
        ;
        assert(got >= 0x10_0000_0000_0000 * one) by (nonlinear_arith)
            requires
                got == m * q,
                m >= 0x10_0000_0000_0000,
                q >= one,
                one > 0,
        ;
        assert(got <= 2 * exact) by (nonlinear_arith)
            requires
                (got - exact) * 0x20_0000_0000_0000 <= exact,
                exact > 0,
        ;
        assert(false);
    }
}

/// Moving a coordinate by some ten-thousandths writes exactly the sum.
pub proof fn moves_are_written_exactly(
    x: crate::double::Double,
    n: int,
    d: crate::double::Double,
    k: int,
)
    requires
        is_reading(x, n),
        is_reading(d, k),
        in_schematic(n),
        in_schematic(k),
    ensures
        crate::geometry::coord_text(x) == units_text(n),
        crate::geometry::coord_text(x.spec_sum(d)) == units_text(n + k),
{
    lemma_powers();
    lemma_printed(x, n);
    lemma_sum_near(x, n, d, k);
    lemma_printed(x.spec_sum(d), n + k);
}

/// What is read the other way round is what is written the other way round.
proof fn lemma_negated(x: crate::double::Double, n: int)
    requires
        is_reading(x, n),
    ensures
        is_reading(x.spec_neg(), -n),
{
    let one = crate::double::two(200) as int;
    assert((-n) * one == -(n * one)) by (nonlinear_arith);
    assert(0 * crate::double::two(200) == 0) by (nonlinear_arith);
    assert(fine(x.spec_neg()) == -fine(x));
}

/// The number nearest to `v * 2^e` is at most one part in `2^53` away.
proof fn lemma_close(v: nat, e: int)
    requires
        -140 <= e <= 0,
        v * crate::double::two((e + 200) as nat) <= 0x10_0000 * crate::double::two(200),
    ensures
        ({
            let r = crate::double::nearest(v as int, e);
            let exact = v * crate::double::two((e + 200) as nat);
            &&& r.wf()
            &&& !r.negative
            &&& e - 52 <= r.exponent <= 0
            &&& -exact <= (fine(r) - exact) * 0x20_0000_0000_0000 <= exact
        }),
{
    lemma_powers();
    let q = crate::double::two((e + 200) as nat) as int;
    vstd::arithmetic::power2::lemma_pow2_pos((e + 200) as nat);
    if v == 0 {
        assert(0 * q == 0) by (nonlinear_arith);
        assert(0 * crate::double::two(200) == 0) by (nonlinear_arith);
    } else {
        vstd::arithmetic::power2::lemma2_to64();
        vstd::arithmetic::power2::lemma2_to64_rest();
        assert(v * crate::double::two(52) >= crate::double::UNIT) by (nonlinear_arith)
            requires
                v >= 1,
                crate::double::two(52) == crate::double::UNIT,
        ;
        crate::double::lemma_rounded_close(v, e, 52, 200);
        let (m, at) = crate::double::rounded(v, e);
        let exact = v * q;
        let got = (m * crate::double::two((at + 200) as nat)) as int;
        assert(exact > 0) by (nonlinear_arith)
            requires
                exact == v * q,
                v > 0,
                q > 0,
        ;
        lemma_exponent_fits(v, e, at, m, got, exact);
    }
}

/// What an angle of `a` ten-thousandths of a degree is read as. The nearest number to an angle
/// of three quarters of a turn or more is no less than that.
pub open spec fn is_angle(r: crate::double::Double, a: int) -> bool {
    &&& is_reading(r, a)
    &&& a >= 2700000 ==> fine(r) >= 270 * crate::double::two(200)
}

/// An angle after a quarter turn.
pub open spec fn after_quarter(a: int) -> int {
    (a + 900000) % 3600000
}

proof fn lemma_quarter()
    ensures
        is_reading(crate::source_edit::quarter_turn(), 900000),
        fine(crate::source_edit::quarter_turn()) == 90 * crate::double::two(200),
        fine(crate::double::Double::spec_full_turn()) == 360 * crate::double::two(200),
{
    lemma_powers();
    vstd::arithmetic::power2::lemma2_to64();
    vstd::arithmetic::power2::lemma2_to64_rest();
    vstd::arithmetic::power2::lemma_pow2_adds(46, 154);
    vstd::arithmetic::power2::lemma_pow2_adds(44, 156);
    let w = crate::double::two(154) as int;
    let z = crate::double::two(156) as int;
    assert(0x16_8000_0000_0000 * w == 90 * (0x4000_0000_0000 * w));
    assert(0x16_8000_0000_0000 * z == 360 * (0x1000_0000_0000 * z));
    assert(900000 * crate::double::two(200) == 10000 * (90 * crate::double::two(200)));
}

/// Rounding does not go below a whole number above 256 and below 512.
proof fn lemma_not_below(v: nat, e: int, c: int)
    requires
        -140 <= e <= 0,
        256 < c < 512,
        c * crate::double::two(200) <= v * crate::double::two((e + 200) as nat) < 512
            * crate::double::two(200),
    ensures
        fine(crate::double::nearest(v as int, e)) >= c * crate::double::two(200),
{
    lemma_powers();
    lemma_close(v, e);
    let one = crate::double::two(200) as int;
    let exact = v * crate::double::two((e + 200) as nat);
    let y = crate::double::nearest(v as int, e);
    let got = fine(y);
    let z = crate::double::two(156) as int;
    let whole = c * 0x1000_0000_0000;
    vstd::arithmetic::power2::lemma2_to64();
    vstd::arithmetic::power2::lemma2_to64_rest();
    vstd::arithmetic::power2::lemma_pow2_adds(44, 156);
    vstd::arithmetic::power2::lemma_pow2_pos(156);
    assert(one == 0x1000_0000_0000 * z);
    assert(c * one == whole * z) by (nonlinear_arith)
        requires
            one == 0x1000_0000_0000 * z,
            whole == c * 0x1000_0000_0000,
    ;
    assert(257 * one <= c * one) by (nonlinear_arith)
        requires
            257 <= c,
            one > 0,
    ;
    assert(exact < 0x20_0000_0000_0000 * z);
    if got < c * one {
        let m = y.mantissa as int;
        let p = crate::double::two((y.exponent + 200) as nat) as int;
        assert(got == m * p);
        if y.exponent < -44 {
            vstd::arithmetic::power2::lemma_pow2_pos((y.exponent + 200) as nat);
            if y.exponent + 200 < 155 {
                vstd::arithmetic::power2::lemma_pow2_strictly_increases(
                    (y.exponent + 200) as nat,
                    155,
                );
            }
            vstd::arithmetic::power2::lemma_pow2_adds(1, 155);
            assert(2 * p <= z);
            assert(2 * (m * p) < 0x20_0000_0000_0000 * z) by (nonlinear_arith)
                requires
                    2 * p <= z,
                    0 <= m < 0x20_0000_0000_0000,
                    p > 0,
            ;
            assert(exact - got >= one);
            assert(false);
        }
        let s = crate::double::two((y.exponent + 44) as nat) as int;
        vstd::arithmetic::power2::lemma_pow2_adds((y.exponent + 44) as nat, 156);
        assert(got == (m * s) * z) by (nonlinear_arith)
            requires
                got == m * p,
                p == s * z,
        ;
        assert(m * s <= whole - 1) by (nonlinear_arith)
            requires
                (m * s) * z < whole * z,
                z > 0,
        ;
        assert((m * s) * z <= (whole - 1) * z) by (nonlinear_arith)
            requires
                m * s <= whole - 1,
                z > 0,
        ;
        assert((whole - 1) * z == whole * z - z) by (nonlinear_arith);
        assert(exact - got >= z);
        assert(false) by (nonlinear_arith)
            requires
                -exact <= (got - exact) * 0x20_0000_0000_0000,
                exact - got >= z,
                exact < 0x20_0000_0000_0000 * z,
        ;
    }
}

/// Where an angle comes to three quarters of a turn, a quarter more is a whole one at least.
proof fn lemma_wraps(r: crate::double::Double, a: int)
    requires
        is_angle(r, a),
        2700000 <= a < 3600000,
    ensures
        fine(r.spec_sum(crate::source_edit::quarter_turn())) >= 360 * crate::double::two(200),
{
    reveal(crate::double::Double::spec_sum);
    lemma_powers();
    lemma_quarter();
    let quarter = crate::source_edit::quarter_turn();
    let one = crate::double::two(200) as int;
    let e = r.common(quarter);
    let q = crate::double::two((e + 200) as nat) as int;
    vstd::arithmetic::power2::lemma_pow2_pos((e + 200) as nat);
    lemma_fine(r, e);
    lemma_fine(quarter, e);
    let sum = r.scaled(e) + quarter.scaled(e);
    assert(sum * q == fine(r) + fine(quarter)) by (nonlinear_arith)
        requires
            sum == r.scaled(e) + quarter.scaled(e),
            fine(r) == r.scaled(e) * q,
            fine(quarter) == quarter.scaled(e) * q,
    ;
    assert(a * one <= 3599999 * one) by (nonlinear_arith)
        requires
            a <= 3599999,
            one > 0,
    ;
    assert(sum > 0) by (nonlinear_arith)
        requires
            sum * q > 0,
            q > 0,
    ;
    lemma_not_below(sum as nat, e, 360);
}

/// Turning an angle by a quarter writes exactly the angle that follows.
pub proof fn turns_are_written_exactly(r: crate::double::Double, a: int)
    requires
        is_angle(r, a),
        0 <= a < 3600000,
    ensures
        crate::geometry::coord_text(
            r.spec_sum(crate::source_edit::quarter_turn()).spec_turned(),
        ) == units_text(after_quarter(a)),
{
    reveal(crate::double::Double::spec_turned);
    lemma_powers();
    lemma_quarter();
    let quarter = crate::source_edit::quarter_turn();
    let turn = crate::double::Double::spec_full_turn();
    let one = crate::double::two(200) as int;
    let y = r.spec_sum(quarter);
    lemma_sum_near(r, a, quarter, 900000);
    let s = a + 900000;
    assert(900000 * one <= s * one <= 4499999 * one) by (nonlinear_arith)
        requires
            900000 <= s <= 4499999,
            one > 0,
    ;
    lemma_printed(y, s);
    assert(fine(y) >= 89 * one);
    assert(!y.negative);
    let m = y.mantissa as int;
    let p = crate::double::two((y.exponent + 200) as nat) as int;
    assert(fine(y) == m * p);
    if y.exponent < -140 {
        vstd::arithmetic::power2::lemma2_to64();
        vstd::arithmetic::power2::lemma2_to64_rest();
        vstd::arithmetic::power2::lemma_pow2_strictly_increases(
            (y.exponent + 200) as nat,
            60,
        );
        vstd::arithmetic::power2::lemma_pow2_pos((y.exponent + 200) as nat);
        vstd::arithmetic::power2::lemma_pow2_adds(60, 140);
        vstd::arithmetic::power2::lemma_pow2_strictly_increases(60, 140);
        let w = crate::double::two(140) as int;
        assert(one == 0x1000_0000_0000_0000 * w);
        assert(m * p < 0x20_0000_0000_0000 * w) by (nonlinear_arith)
            requires
                0 <= m < 0x20_0000_0000_0000,
                0 < p < w,
        ;
        assert(false);
    }
    let e = y.common(turn);
    let q = crate::double::two((e + 200) as nat) as int;
    vstd::arithmetic::power2::lemma_pow2_pos((e + 200) as nat);
    lemma_fine(y, e);
    lemma_fine(turn, e);
    let v = y.scaled(e);
    let w = turn.scaled(e);
    assert(y.spec_abs() == y);
    assert(v >= 0 && w > 0) by (nonlinear_arith)
        requires
            v * q >= 0,
            w * q > 0,
            q > 0,
    ;
    let rest = v % w;
    let wrapped = s >= 3600000;
    if wrapped {
        lemma_wraps(r, a);
        assert(s * one <= 4499999 * one);
        assert(w <= v < 2 * w) by (nonlinear_arith)
            requires
                w * q <= v * q < 2 * (w * q),
                q > 0,
        ;
        vstd::arithmetic::div_mod::lemma_fundamental_div_mod_converse(v, w, 1, v - w);
        assert(rest == v - w);
    } else {
        assert(s * one <= 3599999 * one) by (nonlinear_arith)
            requires
                s <= 3599999,
                one > 0,
        ;
        assert(v < w) by (nonlinear_arith)
            requires
                v * q < w * q,
                q > 0,
        ;
        vstd::arithmetic::div_mod::lemma_small_mod(v as nat, w as nat);
    }
    let after = if wrapped {
        s - 3600000
    } else {
        s
    };
    if wrapped {
        vstd::arithmetic::div_mod::lemma_fundamental_div_mod_converse(s, 3600000, 1, after);
    } else {
        vstd::arithmetic::div_mod::lemma_small_mod(s as nat, 3600000);
    }
    assert(after == after_quarter(a));
    assert(rest * q == fine(y) - (if wrapped {
        360 * one
    } else {
        0
    })) by (nonlinear_arith)
        requires
            rest == v - (if wrapped {
                w
            } else {
                0
            }),
            fine(y) == v * q,
            w * q == 360 * one,
    ;
    assert(after * one == s * one - (if wrapped {
        3600000 * one
    } else {
        0
    })) by (nonlinear_arith)
        requires
            after == s - (if wrapped {
                3600000int
            } else {
                0
            }),
    ;
    lemma_close(rest as nat, e);
    let left = crate::double::nearest(rest, e);
    let off = fine(left) - rest * q;
    let t = crate::double::two(180) as int;
    assert(-t <= 10000 * off <= t);
    lemma_printed(left, after);
}

/// The number nearest to `n` ten-thousandths, for a number above zero, is a reading of them.
proof fn lemma_ratio(v: nat) -> (r: crate::double::Double)
    requires
        0 < v <= 0x4000_0000,
    ensures
        r == crate::double::spec_ratio(v as int, 10000),
        crate::double::spec_ratio(-(v as int), 10000) == r.spec_neg(),
        is_angle(r, v as int) || v >= 3600000,
        is_reading(r, v as int),
        !r.negative,
        r.mantissa != 0,
{
    reveal(crate::double::Double::spec_quotient);
    lemma_powers();
    vstd::arithmetic::power2::lemma2_to64();
    vstd::arithmetic::power2::lemma2_to64_rest();
    let one = crate::double::two(200) as int;
    let j1 = crate::double::lemma_small_exact(v, 0);
    let j2 = crate::double::lemma_small_exact(10000, 0);
    let a = crate::double::nearest(v as int, 0);
    let b = crate::double::nearest(10000, 0);
    let m1 = (v * crate::double::two(j1)) as int;
    let m2 = (10000 * crate::double::two(j2)) as int;
    if j1 < 22 {
        vstd::arithmetic::power2::lemma_pow2_strictly_increases(j1, 22);
        assert(v * crate::double::two(j1) < 0x4000_0000 * 0x40_0000) by (nonlinear_arith)
            requires
                0 < v <= 0x4000_0000,
                0 <= crate::double::two(j1) < 0x40_0000,
        ;
    }
    if j2 < 38 {
        vstd::arithmetic::power2::lemma_pow2_strictly_increases(j2, 38);
    }
    if j2 > 39 {
        vstd::arithmetic::power2::lemma_pow2_strictly_increases(39, j2);
    }
    let top = m1 * crate::double::two(56);
    let w = a.wide_quotient(b);
    let e = -j1 + j2 - 57;
    let q = crate::double::two((e + 200) as nat) as int;
    vstd::arithmetic::power2::lemma_pow2_pos((e + 200) as nat);
    let kept = top / m2;
    let lost = top % m2;
    vstd::arithmetic::div_mod::lemma_fundamental_div_mod(top, m2);
    let more = if lost != 0 {
        1int
    } else {
        0
    };
    assert(w == 2 * kept + more) by {
        assert(kept >= 0) by (nonlinear_arith)
            requires
                top >= 0,
                m2 > 0,
                kept == top / m2,
        ;
    }
    // The wide quotient against twice the dividend.
    let off = w * m2 - 2 * top;
    assert(-m2 <= off <= m2) by (nonlinear_arith)
        requires
            off == w * m2 - 2 * top,
            w == 2 * kept + more,
            top == m2 * kept + lost,
            0 <= lost < m2,
            lost == 0 ==> more == 0,
            lost != 0 ==> more == 1,
    ;
    // The same in ten-thousandths.
    let t1 = crate::double::two(j1) as int;
    let t2 = crate::double::two(j2) as int;
    vstd::arithmetic::power2::lemma_pow2_pos(j2);
    vstd::arithmetic::power2::lemma_pow2_adds(j1, 56);
    vstd::arithmetic::power2::lemma_pow2_adds(j1 + 56, 1);
    vstd::arithmetic::power2::lemma_pow2_adds(j1 + 57, (e + 200) as nat);
    vstd::arithmetic::power2::lemma_pow2_adds(200, j2);
    let five = crate::double::two(56) as int;
    assert(2 * top == v * crate::double::two(j1 + 57)) by (nonlinear_arith)
        requires
            top == (v * t1) * five,
            crate::double::two(j1 + 57) == t1 * five * 2,
    ;
    assert(2 * top * q == v * (one * t2)) by (nonlinear_arith)
        requires
            2 * top == v * crate::double::two(j1 + 57),
            crate::double::two(j1 + 57) * q == one * t2,
    ;
    let exact = w * q;
    let gap = 10000 * exact - v * one;
    assert(gap * t2 == off * q) by (nonlinear_arith)
        requires
            gap == 10000 * exact - v * one,
            exact == w * q,
            off == w * m2 - 2 * top,
            m2 == 10000 * t2,
            2 * top * q == v * (one * t2),
    ;
    assert(-10000 * q <= gap <= 10000 * q) by (nonlinear_arith)
        requires
            gap * t2 == off * q,
            -(10000 * t2) <= off <= 10000 * t2,
            t2 > 0,
            q > 0,
    ;
    // What remains is small.
    if e + 200 < 160 {
        vstd::arithmetic::power2::lemma_pow2_strictly_increases((e + 200) as nat, 160);
    }
    vstd::arithmetic::power2::lemma_pow2_adds(20, 160);
    let t = crate::double::two(180) as int;
    assert(q * 0x10_0000 <= t);
    assert(v * one <= 0x4000_0000 * one) by (nonlinear_arith)
        requires
            v <= 0x4000_0000,
            one > 0,
    ;
    assert(v * one >= one) by (nonlinear_arith)
        requires
            v >= 1,
            one > 0,
    ;
    assert(exact > 0);
    assert(w > 0) by (nonlinear_arith)
        requires
            w * q > 0,
            q > 0,
    ;
    lemma_close(w, e);
    let r = crate::double::nearest(w as int, e);
    assert(a.mantissa == m1 && b.mantissa == m2);
    assert(a.exponent == -j1 && b.exponent == -j2);
    assert(r == crate::double::spec_ratio(v as int, 10000));
    let miss = fine(r) - exact;
    assert(2 * (10000 * miss) <= t && -t <= 2 * (10000 * miss));
    assert(is_near(r, v as int, 180));
    assert(r.mantissa != 0) by {
        if r.mantissa == 0 {
            assert(0 * crate::double::two(200) == 0) by (nonlinear_arith);
            assert(fine(r) == 0);
        }
    }
    let other = crate::double::nearest(-(v as int), 0);
    assert(other.wide_quotient(b) == w);
    lemma_printed(r, v as int);
    if 2700000 <= v < 3600000 {
        assert(exact >= 270 * one) by {
            vstd::arithmetic::power2::lemma_pow2_unfold((e + 201) as nat);
            vstd::arithmetic::power2::lemma_pow2_adds((e + 201) as nat, (-e - 1) as nat);
            let c = crate::double::two((-e - 1) as nat) as int;
            assert(one == (2 * q) * c);
            vstd::arithmetic::div_mod::lemma_fundamental_div_mod_converse(one, 2 * q, c, 0);
            lemma_whole_quotient(top, m2, kept, q, v as int, t2, one);
            assert(exact >= 2 * kept * q) by (nonlinear_arith)
                requires
                    exact == w * q,
                    w >= 2 * kept,
                    q > 0,
            ;
        }
        assert(v * one <= 3599999 * one) by (nonlinear_arith)
            requires
                v <= 3599999,
                one > 0,
        ;
        lemma_not_below(w, e, 270);
        assert(fine(r) >= 270 * crate::double::two(200));
    }
    r
}

/// A quotient that reaches a whole number of degrees reaches it without its fraction.
proof fn lemma_whole_quotient(top: int, m2: int, kept: int, q: int, v: int, t2: int, one: int)
    requires
        m2 == 10000 * t2,
        t2 > 0,
        q > 0,
        top >= 0,
        kept == top / m2,
        2 * top * q == v * (one * t2),
        v >= 2700000,
        one > 0,
        one % (2 * q) == 0,
    ensures
        2 * kept * q >= 270 * one,
{
    let c = one / (2 * q);
    vstd::arithmetic::div_mod::lemma_fundamental_div_mod(one, 2 * q);
    assert(one == c * (2 * q)) by (nonlinear_arith)
        requires
            one == (2 * q) * c,
    ;
    assert(top == v * (c * t2)) by (nonlinear_arith)
        requires
            2 * top * q == v * (one * t2),
            one == c * (2 * q),
            q > 0,
    ;
    assert(c > 0) by (nonlinear_arith)
        requires
            one == c * (2 * q),
            one > 0,
            q > 0,
    ;
    assert(top >= (270 * c) * m2) by (nonlinear_arith)
        requires
            top == v * (c * t2),
            m2 == 10000 * t2,
            v >= 2700000,
            c > 0,
            t2 > 0,
    ;
    vstd::arithmetic::div_mod::lemma_div_is_ordered((270 * c) * m2, top, m2);
    vstd::arithmetic::div_mod::lemma_div_multiples_vanish(270 * c, m2);
    assert(2 * kept * q >= 2 * (270 * c) * q) by (nonlinear_arith)
        requires
            kept >= 270 * c,
            q > 0,
    ;
    assert(2 * (270 * c) * q == 270 * one) by (nonlinear_arith)
        requires
            one == c * (2 * q),
    ;
}

/// The number nearest to a coordinate of a schematic is a reading of it, and the one nearest to an
/// angle is a reading of that.
pub proof fn nearest_numbers_are_readings(n: int)
    requires
        in_schematic(n),
    ensures
        is_reading(crate::double::spec_ratio(n, 10000), n),
        0 <= n < 3600000 ==> is_angle(crate::double::spec_ratio(n, 10000), n),
{
    if n > 0 {
        lemma_ratio(n as nat);
    } else if n < 0 {
        let r = lemma_ratio((-n) as nat);
        lemma_negated(r, -n);
    } else {
        reveal(crate::double::Double::spec_quotient);
        lemma_powers();
        let a = crate::double::nearest(0, 0);
        let b = crate::double::nearest(10000, 0);
        let j = crate::double::lemma_small_exact(10000, 0);
        let p = crate::double::two(56) as int;
        assert(0 * p == 0) by (nonlinear_arith);
        vstd::arithmetic::div_mod::lemma_fundamental_div_mod_converse(0, b.mantissa as int, 0, 0);
        assert(a.wide_quotient(b) == 0);
        assert(crate::double::spec_ratio(0, 10000) == crate::double::Double::spec_zero());
        assert(0 * crate::double::two(200) == 0) by (nonlinear_arith);
    }
}

/// How a position is written.
pub open spec fn position_text(head: Seq<char>, n: int, m: int, rest: Seq<char>) -> Seq<char> {
    seq!['('] + head + seq![' '] + units_text(n) + seq![' '] + units_text(m) + rest + seq![')']
}

/// A block reads as a position of so many ten-thousandths, with the word that it begins with and
/// what follows the coordinates.
pub open spec fn has_position(
    b: crate::source_edit::Block,
    head: Seq<char>,
    n: int,
    m: int,
    rest: Seq<char>,
) -> bool {
    &&& b.node matches Some(node) && {
        &&& node@.head() == Some(head)
        &&& node@.part_number(1) matches Some(x) && is_reading(x, n)
        &&& node@.part_number(2) matches Some(y) && is_reading(y, m)
        &&& crate::source_edit::trailing(node@, 3, node@.items().len() as int) == Some(rest)
    }
}

/// Moving a position and moving it back gives the text that it had: the first move writes exactly
/// the sum, and the second, on what that reads as, exactly what there was.
pub proof fn moving_back_restores_a_position(
    b: crate::source_edit::Block,
    moved: crate::source_edit::Block,
    head: Seq<char>,
    rest: Seq<char>,
    n: int,
    m: int,
    dx: crate::double::Double,
    dy: crate::double::Double,
    k: int,
    l: int,
)
    requires
        in_schematic(n) && in_schematic(m) && in_schematic(k) && in_schematic(l),
        is_reading(dx, k),
        is_reading(dy, l),
        has_position(b, head, n, m, rest),
        has_position(moved, head, n + k, m + l, rest),
    ensures
        crate::source_edit::moved_point(b, dx, dy) == Ok::<
            crate::source_edit::EditModel,
            crate::source_edit::EditError,
        >(crate::source_edit::replaced(b, position_text(head, n + k, m + l, rest))),
        crate::source_edit::moved_point(moved, dx.spec_neg(), dy.spec_neg()) == Ok::<
            crate::source_edit::EditModel,
            crate::source_edit::EditError,
        >(crate::source_edit::replaced(moved, position_text(head, n, m, rest))),
{
    lemma_powers();
    let x = b.node->0@.part_number(1)->0;
    let y = b.node->0@.part_number(2)->0;
    lemma_sum_near(x, n, dx, k);
    lemma_printed(x.spec_sum(dx), n + k);
    lemma_sum_near(y, m, dy, l);
    lemma_printed(y.spec_sum(dy), m + l);
    let far = moved.node->0@.part_number(1)->0;
    let down = moved.node->0@.part_number(2)->0;
    lemma_negated(dx, k);
    lemma_negated(dy, l);
    lemma_sum_near(far, n + k, dx.spec_neg(), -k);
    lemma_printed(far.spec_sum(dx.spec_neg()), n);
    lemma_sum_near(down, m + l, dy.spec_neg(), -l);
    lemma_printed(down.spec_sum(dy.spec_neg()), m);
}

/// A block reads as a pair of so many ten-thousandths.
pub open spec fn has_pair(b: crate::source_edit::Block, n: int, m: int) -> bool {
    &&& b.node matches Some(node) && {
        &&& node@.part_number(1) matches Some(x) && is_reading(x, n)
        &&& node@.part_number(2) matches Some(y) && is_reading(y, m)
    }
}

/// The edit that writes the size of a bus entry.
pub open spec fn size_edits(b: crate::source_edit::Block, n: int, m: int) -> Result<
    Seq<crate::source_edit::EditModel>,
    crate::source_edit::EditError,
> {
    Ok(
        seq![
            crate::source_edit::replaced(
                b,
                "(size "@ + units_text(n) + seq![' '] + units_text(m) + seq![')'],
            ),
        ],
    )
}

/// Turning a size by a quarter writes exactly the size that follows.
pub proof fn size_turns_are_written_exactly(b: crate::source_edit::Block, n: int, m: int)
    requires
        in_schematic(n) && in_schematic(m),
        has_pair(b, n, m),
    ensures
        crate::source_edit::turned_size(b) == size_edits(b, -m, n),
{
    lemma_powers();
    let x = b.node->0@.part_number(1)->0;
    let y = b.node->0@.part_number(2)->0;
    lemma_printed(x, n);
    lemma_negated(y, m);
    lemma_printed(y.spec_neg(), -m);
}

/// Four quarter turns of a bus entry give back the size that it had, each made on what the one
/// before it wrote.
pub proof fn four_turns_restore_a_size(
    b: crate::source_edit::Block,
    once: crate::source_edit::Block,
    twice: crate::source_edit::Block,
    thrice: crate::source_edit::Block,
    n: int,
    m: int,
)
    requires
        in_schematic(n) && in_schematic(m),
        has_pair(b, n, m),
        has_pair(once, -m, n),
        has_pair(twice, -n, -m),
        has_pair(thrice, m, -n),
    ensures
        crate::source_edit::turned_size(b) == size_edits(b, -m, n),
        crate::source_edit::turned_size(once) == size_edits(once, -n, -m),
        crate::source_edit::turned_size(twice) == size_edits(twice, m, -n),
        crate::source_edit::turned_size(thrice) == size_edits(thrice, n, m),
{
    size_turns_are_written_exactly(b, n, m);
    size_turns_are_written_exactly(once, -m, n);
    size_turns_are_written_exactly(twice, -n, -m);
    size_turns_are_written_exactly(thrice, m, -n);
}

/// A block reads as the position of a symbol with its angle.
pub open spec fn has_placement(b: crate::source_edit::Block, n: int, m: int, a: int) -> bool {
    &&& has_pair(b, n, m)
    &&& b.node->0@.part_number(3) matches Some(r) && is_angle(r, a)
}

/// The edit that writes the position of a symbol.
pub open spec fn placement_edits(b: crate::source_edit::Block, n: int, m: int, a: int) -> Result<
    Seq<crate::source_edit::EditModel>,
    crate::source_edit::EditError,
> {
    Ok(
        seq![
            crate::source_edit::replaced(
                b,
                "(at "@ + units_text(n) + seq![' '] + units_text(m) + seq![' '] + units_text(a)
                    + seq![')'],
            ),
        ],
    )
}

/// Turning a symbol by a quarter writes its position unchanged and exactly the angle that follows.
pub proof fn symbol_turns_are_written_exactly(
    b: crate::source_edit::Block,
    n: int,
    m: int,
    a: int,
)
    requires
        in_schematic(n) && in_schematic(m),
        0 <= a < 3600000,
        has_placement(b, n, m, a),
    ensures
        crate::source_edit::turned_at(b, crate::source_edit::quarter_turn()) == placement_edits(
            b,
            n,
            m,
            after_quarter(a),
        ),
{
    lemma_powers();
    lemma_printed(b.node->0@.part_number(1)->0, n);
    lemma_printed(b.node->0@.part_number(2)->0, m);
    turns_are_written_exactly(b.node->0@.part_number(3)->0, a);
}

proof fn lemma_four_quarters(a: int)
    requires
        0 <= a < 3600000,
    ensures
        0 <= after_quarter(a) < 3600000,
        0 <= after_quarter(after_quarter(a)) < 3600000,
        0 <= after_quarter(after_quarter(after_quarter(a))) < 3600000,
        after_quarter(after_quarter(after_quarter(after_quarter(a)))) == a,
{
}

/// Four quarter turns of a symbol give back the position and the angle that it had, each made on
/// what the one before it wrote.
pub proof fn four_turns_restore_a_symbol(
    b: crate::source_edit::Block,
    once: crate::source_edit::Block,
    twice: crate::source_edit::Block,
    thrice: crate::source_edit::Block,
    n: int,
    m: int,
    a: int,
)
    requires
        in_schematic(n) && in_schematic(m),
        0 <= a < 3600000,
        has_placement(b, n, m, a),
        has_placement(once, n, m, after_quarter(a)),
        has_placement(twice, n, m, after_quarter(after_quarter(a))),
        has_placement(thrice, n, m, after_quarter(after_quarter(after_quarter(a)))),
    ensures
        ({
            let quarter = crate::source_edit::quarter_turn();
            let half = after_quarter(after_quarter(a));
            &&& crate::source_edit::turned_at(b, quarter) == placement_edits(
                b,
                n,
                m,
                after_quarter(a),
            )
            &&& crate::source_edit::turned_at(once, quarter) == placement_edits(once, n, m, half)
            &&& crate::source_edit::turned_at(twice, quarter) == placement_edits(
                twice,
                n,
                m,
                after_quarter(half),
            )
            &&& crate::source_edit::turned_at(thrice, quarter) == placement_edits(thrice, n, m, a)
        }),
{
    lemma_four_quarters(a);
    let one = after_quarter(a);
    let two = after_quarter(one);
    let three = after_quarter(two);
    symbol_turns_are_written_exactly(b, n, m, a);
    symbol_turns_are_written_exactly(once, n, m, one);
    symbol_turns_are_written_exactly(twice, n, m, two);
    symbol_turns_are_written_exactly(thrice, n, m, three);
}

} // verus!
