//! Arcs through three points: their centre as KiCad computes it, the way round, and the arc that a
//! drawing names.

use crate::double::{ratio, Double};
use crate::finite::{
    add_up, agree, divide, find_floor, find_root, find_square, is_nearer, multiply, settle,
    take_off, vanishes,
};
use crate::geometry::Point;
use crate::plane::{ask, Query, Reply};
use crate::screen::pixels;
use vstd::prelude::*;

verus! {

/// The whole number.
pub open spec fn whole(n: int) -> Option<Double> {
    Some(crate::screen::px(n))
}

fn to_whole(n: i64) -> (r: Option<Double>)
    requires
        -1_000_000 <= n <= 1_000_000,
    ensures
        r == whole(n as int),
        crate::finite::held(r),
{
    Some(pixels(n))
}

/// The difference between one and the next number above it.
pub open spec fn epsilon() -> Double {
    Double { negative: false, mantissa: 0x10_0000_0000_0000, exponent: (-104) as i64 }
}

fn to_epsilon() -> (r: Double)
    ensures
        r == epsilon(),
        r.wf(),
        r.within(104),
{
    Double { negative: false, mantissa: 0x10_0000_0000_0000, exponent: -104 }
}

/// 0.0000000001, the slope that stands for one that is level.
pub open spec fn level() -> Double {
    Double { negative: false, mantissa: 0x1b_7cdf_d9d7_bdbb, exponent: (-86) as i64 }
}

fn to_level() -> (r: Double)
    ensures
        r == level(),
        r.wf(),
        r.within(100),
{
    Double { negative: false, mantissa: 0x1b_7cdf_d9d7_bdbb, exponent: -86 }
}

/// The root of one half.
pub open spec fn half_root() -> Double {
    Double { negative: false, mantissa: 0x16_a09e_667f_3bcd, exponent: (-53) as i64 }
}

fn to_half_root() -> (r: Double)
    ensures
        r == half_root(),
        r.wf(),
        r.within(100),
{
    Double { negative: false, mantissa: 0x16_a09e_667f_3bcd, exponent: -53 }
}

/// A full turn in radians.
pub open spec fn full_turn() -> Double {
    Double { negative: false, mantissa: 0x19_21fb_5444_2d18, exponent: (-50) as i64 }
}

fn to_full_turn() -> (r: Double)
    ensures
        r == full_turn(),
        r.wf(),
        r.within(100),
{
    Double { negative: false, mantissa: 0x19_21fb_5444_2d18, exponent: -50 }
}

/// Half a turn in radians.
pub open spec fn half_turn() -> Double {
    Double { negative: false, mantissa: 0x19_21fb_5444_2d18, exponent: (-51) as i64 }
}

fn to_half_turn() -> (r: Double)
    ensures
        r == half_turn(),
        r.wf(),
        r.within(100),
{
    Double { negative: false, mantissa: 0x19_21fb_5444_2d18, exponent: -51 }
}

/// How long the vector of two numbers is, where both are numbers.
pub open spec fn length<F: Fn(Query) -> Reply>(f: F, x: Option<Double>, y: Option<Double>) -> Option<
    Double,
> {
    match (x, y) {
        (Some(x), Some(y)) => crate::finite::settled(
            crate::plane::reply(f, Query::Length(Point { x, y })).first.x,
        ),
        _ => None,
    }
}

fn find_length<F: Fn(Query) -> Reply + Copy>(f: F, x: Option<Double>, y: Option<Double>) -> (r:
    Option<Double>)
    requires
        crate::plane::is_plane(f),
    ensures
        r == length(f, x, y),
        crate::finite::held(r),
{
    match (x, y) {
        (Some(x), Some(y)) => settle(ask(f, Query::Length(Point { x, y })).first.x),
        _ => None,
    }
}

/// A slope and how uncertain it is.
#[derive(Clone, Copy, PartialEq, Eq, Structural, Debug)]
pub struct Slope {
    pub value: Option<Double>,
    pub unsure: Option<Double>,
}

impl Slope {
    pub open spec fn wf(self) -> bool {
        crate::finite::held(self.value) && crate::finite::held(self.unsure)
    }
}

/// The slope of a way, and how uncertain it is where both lengths may be wrong by one half.
pub open spec fn slope_of<F: Fn(Query) -> Reply>(f: F, dx: Option<Double>, dy: Option<Double>) -> Slope {
    let value = crate::finite::quotient(dy, dx);
    let half = Some(crate::double::spec_ratio(1, 2));
    Slope {
        value,
        unsure: crate::finite::product(
            value,
            length(f, crate::finite::quotient(half, dy), crate::finite::quotient(half, dx)),
        ),
    }
}

fn find_slope<F: Fn(Query) -> Reply + Copy>(f: F, dx: Option<Double>, dy: Option<Double>) -> (r: Slope)
    requires
        crate::plane::is_plane(f),
        crate::finite::held(dx),
        crate::finite::held(dy),
    ensures
        r == slope_of(f, dx, dy),
        r.wf(),
{
    let value = divide(dy, dx);
    let half = Some(ratio(1, 2));
    let unsure = multiply(value, find_length(f, divide(half, dy), divide(half, dx)));
    Slope { value, unsure }
}

/// The square of how uncertain a slope is, as part of it.
pub open spec fn slope_doubt(s: Slope) -> Option<Double> {
    crate::finite::square(crate::finite::quotient(s.unsure, s.value))
}

fn find_slope_doubt(s: Slope) -> (r: Option<Double>)
    requires
        s.wf(),
    ensures
        r == slope_doubt(s),
        crate::finite::held(r),
{
    find_square(divide(s.unsure, s.value))
}

/// The square of how uncertain a sum or difference of two coordinates is, as part of it.
pub open spec fn length_doubt(v: Option<Double>) -> Option<Double> {
    crate::finite::square(crate::finite::quotient(Some(half_root()), v))
}

fn find_length_doubt(v: Option<Double>) -> (r: Option<Double>)
    requires
        crate::finite::held(v),
    ensures
        r == length_doubt(v),
        crate::finite::held(r),
{
    find_square(divide(Some(to_half_root()), v))
}

/// A number and how uncertain it is.
#[derive(Clone, Copy, PartialEq, Eq, Structural, Debug)]
pub struct Estimate {
    pub value: Option<Double>,
    pub unsure: Option<Double>,
}

impl Estimate {
    pub open spec fn wf(self) -> bool {
        crate::finite::held(self.value) && crate::finite::held(self.unsure)
    }
}

/// A product and how uncertain it is, by the sum of the squares of its parts' doubts.
pub open spec fn estimate(value: Option<Double>, doubts: Option<Double>) -> Estimate {
    Estimate { value, unsure: crate::finite::product(value, crate::finite::root(doubts)) }
}

fn make_estimate(value: Option<Double>, doubts: Option<Double>) -> (r: Estimate)
    requires
        crate::finite::held(value),
        crate::finite::held(doubts),
    ensures
        r == estimate(value, doubts),
        r.wf(),
{
    Estimate { value, unsure: multiply(value, find_root(doubts)) }
}

/// The centre across, from the slopes of both chords.
pub open spec fn center_across<F: Fn(Query) -> Reply>(
    f: F,
    a: Slope,
    b: Slope,
    start: Point,
    mid: Point,
    end: Point,
) -> Estimate {
    let start_x = crate::finite::settled(start.x);
    let mid_x = crate::finite::settled(mid.x);
    let end_x = crate::finite::settled(end.x);
    let height = crate::finite::difference(
        crate::finite::settled(start.y),
        crate::finite::settled(end.y),
    );
    let first = crate::finite::sum(start_x, mid_x);
    let second = crate::finite::sum(mid_x, end_x);
    let both = estimate(
        crate::finite::product(crate::finite::product(a.value, b.value), height),
        crate::finite::sum(
            crate::finite::sum(slope_doubt(a), slope_doubt(b)),
            length_doubt(height),
        ),
    );
    let left = estimate(
        crate::finite::product(b.value, first),
        crate::finite::sum(slope_doubt(b), length_doubt(first)),
    );
    let right = estimate(
        crate::finite::product(a.value, second),
        crate::finite::sum(slope_doubt(a), length_doubt(second)),
    );
    let over = crate::finite::difference(crate::finite::sum(both.value, left.value), right.value);
    let over_unsure = length(f, length(f, both.unsure, left.unsure), right.unsure);
    let under = crate::finite::product(whole(2), crate::finite::difference(b.value, a.value));
    let under_unsure = crate::finite::product(whole(2), length(f, b.unsure, a.unsure));
    estimate(
        crate::finite::quotient(over, under),
        crate::finite::sum(
            crate::finite::square(crate::finite::quotient(over_unsure, over)),
            crate::finite::square(crate::finite::quotient(under_unsure, under)),
        ),
    )
}

fn find_center_across<F: Fn(Query) -> Reply + Copy>(
    f: F,
    a: Slope,
    b: Slope,
    start: Point,
    mid: Point,
    end: Point,
) -> (r: Estimate)
    requires
        crate::plane::is_plane(f),
        a.wf(),
        b.wf(),
        start.x.wf() && start.y.wf(),
        mid.x.wf() && mid.y.wf(),
        end.x.wf() && end.y.wf(),
    ensures
        r == center_across(f, a, b, start, mid, end),
        r.wf(),
{
    let start_x = settle(start.x);
    let mid_x = settle(mid.x);
    let end_x = settle(end.x);
    let height = take_off(settle(start.y), settle(end.y));
    let first = add_up(start_x, mid_x);
    let second = add_up(mid_x, end_x);
    let a_doubt = find_slope_doubt(a);
    let b_doubt = find_slope_doubt(b);
    let both = make_estimate(
        multiply(multiply(a.value, b.value), height),
        add_up(add_up(a_doubt, b_doubt), find_length_doubt(height)),
    );
    let left = make_estimate(
        multiply(b.value, first),
        add_up(b_doubt, find_length_doubt(first)),
    );
    let right = make_estimate(
        multiply(a.value, second),
        add_up(a_doubt, find_length_doubt(second)),
    );
    let over = take_off(add_up(both.value, left.value), right.value);
    let over_unsure = find_length(f, find_length(f, both.unsure, left.unsure), right.unsure);
    let under = multiply(to_whole(2), take_off(b.value, a.value));
    let under_unsure = multiply(to_whole(2), find_length(f, b.unsure, a.unsure));
    make_estimate(
        divide(over, under),
        add_up(find_square(divide(over_unsure, over)), find_square(divide(under_unsure, under))),
    )
}

/// The centre down, from the centre across and the slope of the first chord.
pub open spec fn center_down(across: Estimate, a: Slope, start: Point, mid: Point) -> Estimate {
    let eighth = Some(crate::double::spec_ratio(1, 8));
    let over = crate::finite::difference(
        crate::finite::quotient(
            crate::finite::sum(
                crate::finite::settled(start.x),
                crate::finite::settled(mid.x),
            ),
            whole(2),
        ),
        across.value,
    );
    let over_unsure = crate::finite::root(
        crate::finite::sum(eighth, crate::finite::square(across.unsure)),
    );
    let first = estimate(
        crate::finite::quotient(over, a.value),
        crate::finite::sum(
            crate::finite::square(crate::finite::quotient(over_unsure, over)),
            slope_doubt(a),
        ),
    );
    Estimate {
        value: crate::finite::sum(
            first.value,
            crate::finite::quotient(
                crate::finite::sum(
                    crate::finite::settled(start.y),
                    crate::finite::settled(mid.y),
                ),
                whole(2),
            ),
        ),
        unsure: crate::finite::root(
            crate::finite::sum(crate::finite::square(first.unsure), eighth),
        ),
    }
}

fn find_center_down(across: Estimate, a: Slope, start: Point, mid: Point) -> (r: Estimate)
    requires
        across.wf(),
        a.wf(),
        start.x.wf() && start.y.wf(),
        mid.x.wf() && mid.y.wf(),
    ensures
        r == center_down(across, a, start, mid),
        r.wf(),
{
    let eighth = Some(ratio(1, 8));
    let two = to_whole(2);
    let over = take_off(divide(add_up(settle(start.x), settle(mid.x)), two), across.value);
    let over_unsure = find_root(add_up(eighth, find_square(across.unsure)));
    let first = make_estimate(
        divide(over, a.value),
        add_up(find_square(divide(over_unsure, over)), find_slope_doubt(a)),
    );
    let middle = divide(add_up(settle(start.y), settle(mid.y)), two);
    Estimate {
        value: add_up(first.value, middle),
        unsure: find_root(add_up(find_square(first.unsure), eighth)),
    }
}

/// A number on the nearest multiple of `step`.
pub open spec fn on_step(v: Option<Double>, step: int) -> Option<Double> {
    crate::finite::product(
        crate::finite::floor(
            crate::finite::quotient(crate::finite::sum(v, whole(step / 2)), whole(step)),
        ),
        whole(step),
    )
}

fn put_on_step(v: Option<Double>, step: i64) -> (r: Option<Double>)
    requires
        crate::finite::held(v),
        0 < step <= 1000,
    ensures
        r == on_step(v, step as int),
        crate::finite::held(r),
{
    multiply(
        find_floor(divide(add_up(v, to_whole(step / 2)), to_whole(step))),
        to_whole(step),
    )
}

/// Both numbers are as good as a multiple of `step`.
pub open spec fn fits_step(x: Estimate, y: Estimate, step: int) -> bool {
    crate::finite::nearer(on_step(x.value, step), x.value, x.unsure) && crate::finite::nearer(
        on_step(y.value, step),
        y.value,
        y.unsure,
    )
}

fn does_fit(x: Estimate, y: Estimate, step: i64) -> (r: bool)
    requires
        x.wf(),
        y.wf(),
        0 < step <= 1000,
    ensures
        r == fits_step(x, y, step as int),
{
    is_nearer(put_on_step(x.value, step), x.value, x.unsure) && is_nearer(
        put_on_step(y.value, step),
        y.value,
        y.unsure,
    )
}

/// A point whose coordinates are both numbers.
pub open spec fn point_of(x: Option<Double>, y: Option<Double>) -> Option<Point> {
    match (x, y) {
        (Some(x), Some(y)) => Some(Point { x, y }),
        _ => None,
    }
}

fn make_point(x: Option<Double>, y: Option<Double>) -> (r: Option<Point>)
    requires
        crate::finite::held(x),
        crate::finite::held(y),
    ensures
        r == point_of(x, y),
        near_point(r),
{
    match (x, y) {
        (Some(x), Some(y)) => Some(Point { x, y }),
        _ => None,
    }
}

/// The coordinates of the point, where there is one, are such as a machine holds.
pub open spec fn near_point(p: Option<Point>) -> bool {
    p matches Some(p) ==> p.x.wf() && p.x.within(1200) && p.y.wf() && p.y.within(1200)
}

/// The middle between two points.
pub open spec fn halfway(a: Point, b: Point) -> Option<Point> {
    point_of(
        crate::finite::quotient(
            crate::finite::sum(crate::finite::settled(a.x), crate::finite::settled(b.x)),
            whole(2),
        ),
        crate::finite::quotient(
            crate::finite::sum(crate::finite::settled(a.y), crate::finite::settled(b.y)),
            whole(2),
        ),
    )
}

fn find_halfway(a: Point, b: Point) -> (r: Option<Point>)
    requires
        a.x.wf() && a.y.wf(),
        b.x.wf() && b.y.wf(),
    ensures
        r == halfway(a, b),
        near_point(r),
{
    let two = to_whole(2);
    make_point(
        divide(add_up(settle(a.x), settle(b.x)), two),
        divide(add_up(settle(a.y), settle(b.y)), two),
    )
}

/// A length that is divided by: one that is nothing is as small as can be.
pub open spec fn not_nothing(v: Option<Double>, instead: Double) -> Option<Double> {
    if crate::finite::is_zero(v) {
        Some(instead)
    } else {
        v
    }
}

fn make_something(v: Option<Double>, instead: Double) -> (r: Option<Double>)
    requires
        crate::finite::held(v),
        instead.wf(),
        instead.within(200),
    ensures
        r == not_nothing(v, instead),
        crate::finite::held(r),
{
    if vanishes(v) {
        Some(instead)
    } else {
        v
    }
}

/// The centre from the slopes of both chords. It is put on a round number where it may as well lie
/// there.
pub open spec fn center_from<F: Fn(Query) -> Reply>(
    f: F,
    a: Slope,
    b: Slope,
    start: Point,
    mid: Point,
    end: Point,
) -> Option<Point> {
    let x = center_across(f, a, b, start, mid, end);
    let y = center_down(x, a, start, mid);
    if fits_step(x, y, 100) {
        point_of(on_step(x.value, 100), on_step(y.value, 100))
    } else if fits_step(x, y, 10) {
        point_of(on_step(x.value, 10), on_step(y.value, 10))
    } else {
        point_of(x.value, y.value)
    }
}

fn find_center_from<F: Fn(Query) -> Reply + Copy>(
    f: F,
    a: Slope,
    b: Slope,
    start: Point,
    mid: Point,
    end: Point,
) -> (r: Option<Point>)
    requires
        crate::plane::is_plane(f),
        a.wf(),
        b.wf(),
        start.x.wf() && start.y.wf(),
        mid.x.wf() && mid.y.wf(),
        end.x.wf() && end.y.wf(),
    ensures
        r == center_from(f, a, b, start, mid, end),
        near_point(r),
{
    let x = find_center_across(f, a, b, start, mid, end);
    let y = find_center_down(x, a, start, mid);
    if does_fit(x, y, 100) {
        make_point(put_on_step(x.value, 100), put_on_step(y.value, 100))
    } else if does_fit(x, y, 10) {
        make_point(put_on_step(x.value, 10), put_on_step(y.value, 10))
    } else {
        make_point(x.value, y.value)
    }
}

/// The slope, made a little steeper or flatter by `nudge`, and not level.
pub open spec fn steep(s: Slope, nudge: Option<Double>) -> Slope {
    let value = match nudge {
        Some(n) => crate::finite::sum(s.value, Some(n)),
        None => s.value,
    };
    Slope { value: not_nothing(value, level()), unsure: s.unsure }
}

fn make_steep(s: Slope, nudge: Option<Double>) -> (r: Slope)
    requires
        s.wf(),
        crate::finite::held(nudge),
    ensures
        r == steep(s, nudge),
        r.wf(),
{
    let value = match nudge {
        Some(n) => add_up(s.value, Some(n)),
        None => s.value,
    };
    Slope { value: make_something(value, to_level()), unsure: s.unsure }
}

/// The centre of the arc through three points, in whole units, which may each be wrong by one half.
/// None where the points lie on a line, and there is none.
pub open spec fn arc_center<F: Fn(Query) -> Reply>(f: F, start: Point, mid: Point, end: Point) -> Option<
    Point,
> {
    let dy1 = crate::finite::difference(
        crate::finite::settled(mid.y),
        crate::finite::settled(start.y),
    );
    let dx1 = crate::finite::difference(
        crate::finite::settled(mid.x),
        crate::finite::settled(start.x),
    );
    let dy2 = crate::finite::difference(
        crate::finite::settled(end.y),
        crate::finite::settled(mid.y),
    );
    let dx2 = crate::finite::difference(
        crate::finite::settled(end.x),
        crate::finite::settled(mid.x),
    );
    if (crate::finite::is_zero(dx1) && crate::finite::is_zero(dy2)) || (crate::finite::is_zero(dy1)
        && crate::finite::is_zero(dx2)) {
        halfway(start, end)
    } else {
        let a = slope_of(f, not_nothing(dx1, epsilon()), dy1);
        let b = slope_of(f, not_nothing(dx2, epsilon().spec_neg()), dy2);
        if crate::finite::equal(a.value, b.value) {
            if start == end {
                halfway(start, mid)
            } else {
                center_from(
                    f,
                    steep(a, Some(epsilon())),
                    steep(b, Some(epsilon().spec_neg())),
                    start,
                    mid,
                    end,
                )
            }
        } else {
            center_from(f, steep(a, None), steep(b, None), start, mid, end)
        }
    }
}

/// The centre of the arc through three points, in whole units.
pub fn kicad_arc_center_iu<F: Fn(Query) -> Reply + Copy>(f: F, start: Point, mid: Point, end: Point) -> (r:
    Option<Point>)
    requires
        crate::plane::is_plane(f),
        start.x.wf() && start.y.wf(),
        mid.x.wf() && mid.y.wf(),
        end.x.wf() && end.y.wf(),
    ensures
        r == arc_center(f, start, mid, end),
        near_point(r),
{
    let dy1 = take_off(settle(mid.y), settle(start.y));
    let dx1 = take_off(settle(mid.x), settle(start.x));
    let dy2 = take_off(settle(end.y), settle(mid.y));
    let dx2 = take_off(settle(end.x), settle(mid.x));
    if (vanishes(dx1) && vanishes(dy2)) || (vanishes(dy1) && vanishes(dx2)) {
        return find_halfway(start, end);
    }
    let least = to_epsilon();
    let a = find_slope(f, make_something(dx1, least), dy1);
    let b = find_slope(f, make_something(dx2, least.negated()), dy2);
    if agree(a.value, b.value) {
        if start == end {
            return find_halfway(start, mid);
        }
        let a = make_steep(a, Some(least));
        let b = make_steep(b, Some(least.negated()));
        find_center_from(f, a, b, start, mid, end)
    } else {
        find_center_from(f, make_steep(a, None), make_steep(b, None), start, mid, end)
    }
}

/// A point in units of a ten-thousandth of a millimetre.
pub open spec fn in_units(p: Point) -> Point {
    Point {
        x: p.x.spec_product(crate::screen::px(10_000)).spec_round(),
        y: p.y.spec_product(crate::screen::px(10_000)).spec_round(),
    }
}

fn to_units(p: Point) -> (r: Point)
    requires
        p.x.wf() && p.x.within(0x1000_0000),
        p.y.wf() && p.y.within(0x1000_0000),
    ensures
        r == in_units(p),
        r.x.wf() && r.x.within(0x1001_0000),
        r.y.wf() && r.y.within(0x1001_0000),
{
    let units = pixels(10_000);
    Point { x: p.x.times(units).rounded_away(), y: p.y.times(units).rounded_away() }
}

/// A point of units in millimetres.
pub open spec fn in_mm(p: Point) -> Point {
    Point {
        x: p.x.spec_quotient(crate::screen::px(10_000)),
        y: p.y.spec_quotient(crate::screen::px(10_000)),
    }
}

fn to_mm(p: Point) -> (r: Point)
    requires
        p.x.wf() && p.x.within(0x4000_0000),
        p.y.wf() && p.y.within(0x4000_0000),
    ensures
        r == in_mm(p),
{
    let units = pixels(10_000);
    Point { x: p.x.divided_by(units), y: p.y.divided_by(units) }
}

/// The way from one point to another.
pub open spec fn way(from: Point, to: Point) -> Point {
    Point { x: to.x.spec_difference(from.x), y: to.y.spec_difference(from.y) }
}

/// A point that is not far out.
pub open spec fn calm(p: Point) -> bool {
    p.x.wf() && p.x.within(0x2000_0000) && p.y.wf() && p.y.within(0x2000_0000)
}

fn find_way(from: Point, to: Point) -> (r: Point)
    requires
        calm(from),
        calm(to),
    ensures
        r == way(from, to),
        r.x.wf() && r.x.within(0x2001_0000),
        r.y.wf() && r.y.within(0x2001_0000),
{
    Point { x: to.x.minus(from.x), y: to.y.minus(from.y) }
}

/// The angle at which a point is seen from a centre, in radians.
pub open spec fn angle_from<F: Fn(Query) -> Reply>(f: F, center: Point, p: Point) -> Double {
    crate::plane::reply(f, Query::Angle(way(center, p))).first.x
}

fn find_angle_from<F: Fn(Query) -> Reply + Copy>(f: F, center: Point, p: Point) -> (r: Double)
    requires
        crate::plane::is_plane(f),
        calm(center),
        calm(p),
    ensures
        r == angle_from(f, center, p),
        crate::plane::plain(r),
{
    ask(f, Query::Angle(find_way(center, p))).first.x
}

/// The angle from one point to another about a centre, as it grows: above nothing, and at most a full
/// turn.
pub open spec fn growing_angle<F: Fn(Query) -> Reply>(f: F, start: Point, end: Point, center: Point) -> Double {
    let from = angle_from(f, center, start);
    let to = angle_from(f, center, end);
    let reached = if to.spec_less(from) {
        to.spec_sum(full_turn())
    } else {
        to
    };
    if reached == from {
        full_turn()
    } else {
        reached.spec_difference(from)
    }
}

fn increasing_arc_angle<F: Fn(Query) -> Reply + Copy>(f: F, start: Point, end: Point, center: Point) -> (r:
    Double)
    requires
        crate::plane::is_plane(f),
        calm(start),
        calm(end),
        calm(center),
    ensures
        r == growing_angle(f, start, end, center),
        r.wf(),
        r.within(0x101_0000),
{
    let from = find_angle_from(f, center, start);
    let to = find_angle_from(f, center, end);
    let reached = if to.less(from) {
        to.plus(to_full_turn())
    } else {
        to
    };
    if reached == from {
        to_full_turn()
    } else {
        reached.minus(from)
    }
}

/// A point turned about a centre by an angle in radians, on whole units.
pub open spec fn turned<F: Fn(Query) -> Reply>(f: F, p: Point, center: Point, angle: Double) -> Point {
    let v = way(center, p);
    let d = crate::plane::reply(f, Query::Heading(angle)).first;
    Point {
        x: v.y.spec_product(d.y).spec_sum(v.x.spec_product(d.x)).spec_round().spec_sum(center.x),
        y: v.y.spec_product(d.x).spec_difference(v.x.spec_product(d.y)).spec_round().spec_sum(
            center.y,
        ),
    }
}

fn turn_across(v: Point, d: Point, center: Double) -> (r: Double)
    requires
        v.x.wf() && v.x.within(0x2001_0000),
        v.y.wf() && v.y.within(0x2001_0000),
        crate::plane::plain_point(d),
        center.wf() && center.within(0x2000_0000),
    ensures
        r == v.y.spec_product(d.y).spec_sum(v.x.spec_product(d.x)).spec_round().spec_sum(center),
        r.wf(),
        r.within(0x4000_0000),
{
    v.y.times(d.y).plus(v.x.times(d.x)).rounded_away().plus(center)
}

fn turn_down(v: Point, d: Point, center: Double) -> (r: Double)
    requires
        v.x.wf() && v.x.within(0x2001_0000),
        v.y.wf() && v.y.within(0x2001_0000),
        crate::plane::plain_point(d),
        center.wf() && center.within(0x2000_0000),
    ensures
        r == v.y.spec_product(d.x).spec_difference(v.x.spec_product(d.y)).spec_round().spec_sum(
            center,
        ),
        r.wf(),
        r.within(0x4000_0000),
{
    v.y.times(d.x).minus(v.x.times(d.y)).rounded_away().plus(center)
}

fn rotate_iu<F: Fn(Query) -> Reply + Copy>(f: F, p: Point, center: Point, angle: Double) -> (r: Point)
    requires
        crate::plane::is_plane(f),
        calm(p),
        calm(center),
    ensures
        r == turned(f, p, center, angle),
        r.x.wf() && r.x.within(0x4000_0000),
        r.y.wf() && r.y.within(0x4000_0000),
{
    let v = find_way(center, p);
    let d = ask(f, Query::Heading(angle)).first;
    Point { x: turn_across(v, d, center.x), y: turn_down(v, d, center.y) }
}

/// The middle of the arc that grows from one point to another about a centre.
pub open spec fn growing_middle<F: Fn(Query) -> Reply>(f: F, start: Point, end: Point, center: Point) -> Point {
    turned(
        f,
        start,
        center,
        growing_angle(f, start, end, center).spec_neg().spec_quotient(crate::screen::px(2)),
    )
}

fn find_growing_middle<F: Fn(Query) -> Reply + Copy>(f: F, start: Point, end: Point, center: Point) -> (r:
    Point)
    requires
        crate::plane::is_plane(f),
        calm(start),
        calm(end),
        calm(center),
    ensures
        r == growing_middle(f, start, end, center),
        r.x.wf() && r.x.within(0x4000_0000),
        r.y.wf() && r.y.within(0x4000_0000),
{
    let angle = increasing_arc_angle(f, start, end, center);
    rotate_iu(f, start, center, angle.negated().divided_by(pixels(2)))
}

/// The square of the distance between two points.
pub open spec fn square_between(a: Point, b: Point) -> Double {
    let v = way(b, a);
    v.x.spec_product(v.x).spec_sum(v.y.spec_product(v.y))
}

fn find_square_between(a: Point, b: Point) -> (r: Double)
    requires
        a.x.wf() && a.x.within(0x4000_0000),
        a.y.wf() && a.y.within(0x4000_0000),
        b.x.wf() && b.x.within(0x4000_0000),
        b.y.wf() && b.y.within(0x4000_0000),
    ensures
        r == square_between(a, b),
        r.wf(),
{
    let x = a.x.minus(b.x);
    let y = a.y.minus(b.y);
    x.times(x).plus(y.times(y))
}

/// The centre on whole units.
pub open spec fn whole_center(c: Point) -> Point {
    Point { x: c.x.spec_round(), y: c.y.spec_round() }
}

/// The arc runs the other way: the middle of the growing arc is further from the given one than the
/// radius.
pub open spec fn runs_back<F: Fn(Query) -> Reply>(
    f: F,
    start: Point,
    mid: Point,
    end: Point,
    center: Point,
) -> bool {
    let middle = growing_middle(f, start, end, center);
    square_between(middle, center).spec_less(square_between(middle, mid))
}

/// The start, the middle and the end of an arc, such that it grows. An arc without a centre stays as
/// it is.
pub open spec fn normalized<F: Fn(Query) -> Reply>(f: F, start: Point, mid: Point, end: Point) -> (
    Point,
    Point,
    Point,
) {
    let s = in_units(start);
    let m = in_units(mid);
    let e = in_units(end);
    match arc_center(f, s, m, e) {
        None => (in_mm(s), in_mm(m), in_mm(e)),
        Some(c) => {
            let center = whole_center(c);
            if runs_back(f, s, m, e, center) {
                (in_mm(e), in_mm(growing_middle(f, e, s, center)), in_mm(s))
            } else {
                (in_mm(s), in_mm(m), in_mm(e))
            }
        },
    }
}

fn on_whole_units(c: Point) -> (r: Point)
    requires
        near_point(Some(c)),
    ensures
        r == whole_center(c),
        calm(r),
{
    Point { x: c.x.rounded_away(), y: c.y.rounded_away() }
}

/// The start, the middle and the end of an arc, such that it grows.
pub fn normalize_kicad_arc<F: Fn(Query) -> Reply + Copy>(f: F, start: Point, mid: Point, end: Point) -> (r:
    (Point, Point, Point))
    requires
        crate::plane::is_plane(f),
        start.x.wf() && start.x.within(0x1000_0000),
        start.y.wf() && start.y.within(0x1000_0000),
        mid.x.wf() && mid.x.within(0x1000_0000),
        mid.y.wf() && mid.y.within(0x1000_0000),
        end.x.wf() && end.x.within(0x1000_0000),
        end.y.wf() && end.y.within(0x1000_0000),
    ensures
        r == normalized(f, start, mid, end),
{
    let s = to_units(start);
    let m = to_units(mid);
    let e = to_units(end);
    match kicad_arc_center_iu(f, s, m, e) {
        None => (to_mm(s), to_mm(m), to_mm(e)),
        Some(c) => {
            let center = on_whole_units(c);
            let middle = find_growing_middle(f, s, e, center);
            if find_square_between(middle, center).less(find_square_between(middle, m)) {
                let back = find_growing_middle(f, e, s, center);
                (to_mm(e), to_mm(back), to_mm(s))
            } else {
                (to_mm(s), to_mm(m), to_mm(e))
            }
        },
    }
}

/// An arc as a drawing names it: from and to, its radius, whether it is the longer way round, and
/// whether its angle grows from the one end to the other.
#[derive(Clone, Copy, PartialEq, Eq, Structural, Debug)]
pub struct SvgArc {
    pub from: Point,
    pub to: Point,
    pub radius: Double,
    pub large_arc: bool,
    pub sweep: bool,
}

/// A length of units in millimetres with four decimals.
pub open spec fn decimal_mm(v: Double) -> Double {
    v.spec_quotient(crate::screen::px(10_000)).spec_product(
        crate::screen::px(10_000),
    ).spec_round().spec_quotient(crate::screen::px(10_000))
}

fn to_decimal_mm(v: Double) -> (r: Double)
    requires
        v.wf(),
        v.within(0x1_0000_0000),
    ensures
        r == decimal_mm(v),
{
    let units = pixels(10_000);
    v.divided_by(units).times(units).rounded_away().divided_by(units)
}

/// The end of an arc at an angle that grows against the clock.
pub open spec fn arc_end<F: Fn(Query) -> Reply>(f: F, center: Point, radius: Double, angle: Double) -> Point {
    let d = crate::plane::reply(f, Query::Heading(angle)).first;
    Point {
        x: decimal_mm(center.x.spec_sum(radius.spec_product(d.x))),
        y: decimal_mm(center.y.spec_difference(radius.spec_product(d.y))),
    }
}

fn svg_arc_endpoint<F: Fn(Query) -> Reply + Copy>(f: F, center: Point, radius: Double, angle: Double) -> (r:
    Point)
    requires
        crate::plane::is_plane(f),
        near_point(Some(center)),
        crate::plane::plain(radius),
    ensures
        r == arc_end(f, center, radius, angle),
{
    let d = ask(f, Query::Heading(angle)).first;
    Point {
        x: to_decimal_mm(center.x.plus(radius.times(d.x))),
        y: to_decimal_mm(center.y.minus(radius.times(d.y))),
    }
}

/// The three points turn against the clock, or lie on a line.
pub open spec fn turns_back(start: Point, mid: Point, end: Point) -> bool {
    let a = way(start, end);
    let b = way(start, mid);
    !crate::screen::px(0).spec_less(
        a.x.spec_product(b.y).spec_difference(a.y.spec_product(b.x)),
    )
}

fn does_turn_back(start: Point, mid: Point, end: Point) -> (r: bool)
    requires
        calm(start),
        mid.x.wf() && mid.x.within(0x4000_0000),
        mid.y.wf() && mid.y.within(0x4000_0000),
        calm(end),
    ensures
        r == turns_back(start, mid, end),
{
    let a = find_way(start, end);
    let bx = mid.x.minus(start.x);
    let b_y = mid.y.minus(start.y);
    let turn = a.x.times(b_y).minus(a.y.times(bx));
    turn.at_most(pixels(0))
}

/// How far an arc turns, by the angles of its ends and the way it turns.
pub open spec fn sweep_of<F: Fn(Query) -> Reply>(f: F, from: Double, to: Double, back: bool) -> Double {
    if back {
        crate::plane::reply(f, Query::Wrapped(to.spec_difference(from))).first.x
    } else {
        crate::plane::reply(f, Query::Wrapped(from.spec_difference(to))).first.x.spec_neg()
    }
}

/// The arc of a drawing through three points in units. None where they lie on a line, or are one.
pub open spec fn plotted<F: Fn(Query) -> Reply>(f: F, start: Point, mid: Point, end: Point) -> Option<
    SvgArc,
> {
    match arc_center(f, start, mid, end) {
        None => None,
        Some(center) => {
            let radius = crate::plane::reply(f, Query::Length(way(center, start))).first.x;
            let from = angle_from(f, center, start);
            let to = angle_from(f, center, end);
            let first = from.spec_neg();
            let last = first.spec_difference(
                sweep_of(f, from, to, turns_back(start, mid, end)),
            );
            let (low, high) = if last.spec_less(first) {
                (last, first)
            } else {
                (first, last)
            };
            if !crate::screen::px(0).spec_less(radius) {
                None
            } else {
                Some(
                    SvgArc {
                        from: arc_end(f, center, radius, low),
                        to: arc_end(f, center, radius, high),
                        radius: decimal_mm(radius),
                        large_arc: half_turn().spec_less(high.spec_difference(low).spec_abs()),
                        sweep: false,
                    },
                )
            }
        },
    }
}

fn plotter_svg_arc<F: Fn(Query) -> Reply + Copy>(f: F, start: Point, mid: Point, end: Point) -> (r: Option<
    SvgArc,
>)
    requires
        crate::plane::is_plane(f),
        calm(start),
        mid.x.wf() && mid.x.within(0x4000_0000),
        mid.y.wf() && mid.y.within(0x4000_0000),
        calm(end),
    ensures
        r == plotted(f, start, mid, end),
{
    let center = match kicad_arc_center_iu(f, start, mid, end) {
        None => {
            return None;
        },
        Some(center) => center,
    };
    let radius = ask(f, Query::Length(find_way(center, start))).first.x;
    if !pixels(0).less(radius) {
        return None;
    }
    let from = find_angle_from(f, center, start);
    let to = find_angle_from(f, center, end);
    let sweep = if does_turn_back(start, mid, end) {
        ask(f, Query::Wrapped(to.minus(from))).first.x
    } else {
        ask(f, Query::Wrapped(from.minus(to))).first.x.negated()
    };
    let first = from.negated();
    let last = first.minus(sweep);
    let (low, high) = if last.less(first) {
        (last, first)
    } else {
        (first, last)
    };
    let large_arc = to_half_turn().less(high.minus(low).abs());
    Some(
        SvgArc {
            from: svg_arc_endpoint(f, center, radius, low),
            to: svg_arc_endpoint(f, center, radius, high),
            radius: to_decimal_mm(radius),
            large_arc,
            sweep: false,
        },
    )
}

/// The arc of a drawing through three points in millimetres. One that runs back is turned round; its
/// middle then keeps the place across that it had before.
pub open spec fn arc_of_drawing<F: Fn(Query) -> Reply>(f: F, start: Point, mid: Point, end: Point) -> Option<
    SvgArc,
> {
    let s = in_units(start);
    let m = in_units(mid);
    let e = in_units(end);
    match arc_center(f, s, m, e) {
        None => plotted(f, s, m, e),
        Some(c) => {
            let center = whole_center(c);
            if runs_back(f, s, m, e, center) {
                let before = growing_middle(f, s, e, center);
                let after = growing_middle(f, e, s, center);
                plotted(f, e, Point { x: before.x, y: after.y }, s)
            } else {
                plotted(f, s, m, e)
            }
        },
    }
}

/// The arc of a drawing through three points in millimetres.
pub fn kicad_svg_arc<F: Fn(Query) -> Reply + Copy>(f: F, start: Point, mid: Point, end: Point) -> (r: Option<
    SvgArc,
>)
    requires
        crate::plane::is_plane(f),
        start.x.wf() && start.x.within(0x1000_0000),
        start.y.wf() && start.y.within(0x1000_0000),
        mid.x.wf() && mid.x.within(0x1000_0000),
        mid.y.wf() && mid.y.within(0x1000_0000),
        end.x.wf() && end.x.within(0x1000_0000),
        end.y.wf() && end.y.within(0x1000_0000),
    ensures
        r == arc_of_drawing(f, start, mid, end),
{
    let s = to_units(start);
    let m = to_units(mid);
    let e = to_units(end);
    match kicad_arc_center_iu(f, s, m, e) {
        None => plotter_svg_arc(f, s, m, e),
        Some(c) => {
            let center = on_whole_units(c);
            let before = find_growing_middle(f, s, e, center);
            if find_square_between(before, center).less(find_square_between(before, m)) {
                let after = find_growing_middle(f, e, s, center);
                plotter_svg_arc(f, e, Point { x: before.x, y: after.y }, s)
            } else {
                plotter_svg_arc(f, s, m, e)
            }
        },
    }
}

/// An arc by its centre, its radius, the angle that it begins at and how far it turns.
#[derive(Clone, Copy, PartialEq, Eq, Structural, Debug)]
pub struct RoundArc {
    pub center: Point,
    pub radius: Double,
    pub start_angle: Double,
    pub sweep_angle: Double,
}

/// 0.000000001, what counts as nothing.
pub open spec fn next_to_nothing() -> Double {
    Double { negative: false, mantissa: 0x11_2e0b_e826_d695, exponent: (-82) as i64 }
}

fn to_next_to_nothing() -> (r: Double)
    ensures
        r == next_to_nothing(),
        r.wf(),
        r.within(100),
        !r.negative,
        r.mantissa != 0,
{
    Double { negative: false, mantissa: 0x11_2e0b_e826_d695, exponent: -82 }
}

/// The sum of three numbers, each times the difference of two others.
pub open spec fn three_by(a: Double, b: Double, c: Double, p: Double, q: Double, r: Double) -> Double {
    a.spec_product(q.spec_difference(r)).spec_sum(b.spec_product(r.spec_difference(p))).spec_sum(
        c.spec_product(p.spec_difference(q)),
    )
}

fn find_three_by(a: Double, b: Double, c: Double, p: Double, q: Double, r: Double) -> (s: Double)
    requires
        a.wf() && a.within(0x4000_0000),
        b.wf() && b.within(0x4000_0000),
        c.wf() && c.within(0x4000_0000),
        p.wf() && p.within(0x1000_0000),
        q.wf() && q.within(0x1000_0000),
        r.wf() && r.within(0x1000_0000),
    ensures
        s == three_by(a, b, c, p, q, r),
        s.wf(),
        s.within(0x6000_0000),
{
    a.times(q.minus(r)).plus(b.times(r.minus(p))).plus(c.times(p.minus(q)))
}

/// The sum of three numbers, each times the difference of two others taken the other way round.
pub open spec fn three_against(a: Double, b: Double, c: Double, p: Double, q: Double, r: Double) -> Double {
    a.spec_product(r.spec_difference(q)).spec_sum(b.spec_product(p.spec_difference(r))).spec_sum(
        c.spec_product(q.spec_difference(p)),
    )
}

fn find_three_against(a: Double, b: Double, c: Double, p: Double, q: Double, r: Double) -> (s: Double)
    requires
        a.wf() && a.within(0x4000_0000),
        b.wf() && b.within(0x4000_0000),
        c.wf() && c.within(0x4000_0000),
        p.wf() && p.within(0x1000_0000),
        q.wf() && q.within(0x1000_0000),
        r.wf() && r.within(0x1000_0000),
    ensures
        s == three_against(a, b, c, p, q, r),
        s.wf(),
        s.within(0x6000_0000),
{
    a.times(r.minus(q)).plus(b.times(p.minus(r))).plus(c.times(q.minus(p)))
}

/// The square of how far a point is from the origin.
pub open spec fn norm(p: Point) -> Double {
    p.x.spec_product(p.x).spec_sum(p.y.spec_product(p.y))
}

fn find_norm(p: Point) -> (r: Double)
    requires
        p.x.wf() && p.x.within(0x1000_0000),
        p.y.wf() && p.y.within(0x1000_0000),
    ensures
        r == norm(p),
        r.wf(),
        r.within(0x2100_0000),
{
    p.x.times(p.x).plus(p.y.times(p.y))
}

/// Twice the area between three points, and twice again.
pub open spec fn double_area(s: Point, m: Point, e: Point) -> Double {
    crate::screen::px(2).spec_product(three_by(s.x, m.x, e.x, s.y, m.y, e.y))
}

/// The centre of the circle through three points.
pub open spec fn circle_center(s: Point, m: Point, e: Point) -> Point {
    let d = double_area(s, m, e);
    Point {
        x: three_by(norm(s), norm(m), norm(e), s.y, m.y, e.y).spec_quotient(d),
        y: three_against(norm(s), norm(m), norm(e), s.x, m.x, e.x).spec_quotient(d),
    }
}

/// The way that an arc turns: with growing angles where that meets the middle first.
pub open spec fn sweep_through<F: Fn(Query) -> Reply>(f: F, from: Double, middle: Double, to: Double) -> Double {
    let all = crate::plane::reply(f, Query::Wrapped(to.spec_difference(from))).first.x;
    let part = crate::plane::reply(f, Query::Wrapped(middle.spec_difference(from))).first.x;
    if !all.spec_sum(next_to_nothing()).spec_less(part) {
        all
    } else {
        all.spec_difference(full_turn())
    }
}

/// The arc through three points; none through points on a line.
pub open spec fn arc_through<F: Fn(Query) -> Reply>(f: F, s: Point, m: Point, e: Point) -> Option<
    RoundArc,
> {
    let center = circle_center(s, m, e);
    if double_area(s, m, e).spec_abs().spec_less(next_to_nothing()) {
        None
    } else {
        let from = angle_from(f, center, s);
        Some(
            RoundArc {
                center,
                radius: crate::plane::reply(f, Query::Length(way(center, s))).first.x,
                start_angle: from,
                sweep_angle: sweep_through(
                    f,
                    from,
                    angle_from(f, center, m),
                    angle_from(f, center, e),
                ),
            },
        )
    }
}

/// A point from which ways are measured.
pub open spec fn read_point(p: Point) -> bool {
    p.x.wf() && p.x.within(0x1000_0000) && p.y.wf() && p.y.within(0x1000_0000)
}

fn find_circle_center(s: Point, m: Point, e: Point, d: Double) -> (r: Point)
    requires
        read_point(s),
        read_point(m),
        read_point(e),
        d == double_area(s, m, e),
        d.wf(),
        d.within(0x6100_0000),
        d.mantissa != 0,
    ensures
        r == circle_center(s, m, e),
        r.x.wf() && r.x.within(0x1_0000_0000),
        r.y.wf() && r.y.within(0x1_0000_0000),
{
    let first = find_norm(s);
    let second = find_norm(m);
    let third = find_norm(e);
    Point {
        x: find_three_by(first, second, third, s.y, m.y, e.y).divided_by(d),
        y: find_three_against(first, second, third, s.x, m.x, e.x).divided_by(d),
    }
}

fn find_far_angle<F: Fn(Query) -> Reply + Copy>(f: F, center: Point, p: Point) -> (r: Double)
    requires
        crate::plane::is_plane(f),
        center.x.wf() && center.x.within(0x1_0000_0000),
        center.y.wf() && center.y.within(0x1_0000_0000),
        read_point(p),
    ensures
        r == angle_from(f, center, p),
        crate::plane::plain(r),
{
    let v = Point { x: p.x.minus(center.x), y: p.y.minus(center.y) };
    ask(f, Query::Angle(v)).first.x
}

/// The arc through three points; none through points on a line.
pub fn arc_shape<F: Fn(Query) -> Reply + Copy>(f: F, start: Point, mid: Point, end: Point) -> (r: Option<
    RoundArc,
>)
    requires
        crate::plane::is_plane(f),
        read_point(start),
        read_point(mid),
        read_point(end),
    ensures
        r == arc_through(f, start, mid, end),
        r matches Some(arc) ==> arc.center.x.wf() && arc.center.x.within(0x1_0000_0000)
            && arc.center.y.wf() && arc.center.y.within(0x1_0000_0000) && crate::plane::plain(
            arc.radius,
        ) && crate::plane::plain(arc.start_angle) && arc.sweep_angle.wf()
            && arc.sweep_angle.within(0x101_0000),
{
    let least = to_next_to_nothing();
    let d = pixels(2).times(find_three_by(start.x, mid.x, end.x, start.y, mid.y, end.y));
    if d.abs().less(least) {
        return None;
    }
    proof {
        crate::geometry::at_least_positive_is_not_zero(d.spec_abs(), least);
    }
    let center = find_circle_center(start, mid, end, d);
    let v = Point { x: start.x.minus(center.x), y: start.y.minus(center.y) };
    let radius = ask(f, Query::Length(v)).first.x;
    let from = find_far_angle(f, center, start);
    let middle = find_far_angle(f, center, mid);
    let to = find_far_angle(f, center, end);
    let all = ask(f, Query::Wrapped(to.minus(from))).first.x;
    let part = ask(f, Query::Wrapped(middle.minus(from))).first.x;
    let sweep_angle = if part.at_most(all.plus(least)) {
        all
    } else {
        all.minus(to_full_turn())
    };
    Some(RoundArc { center, radius, start_angle: from, sweep_angle })
}

/// The `i`-th point of an arc that is cut into `segments`.
pub open spec fn arc_point<F: Fn(Query) -> Reply>(f: F, arc: RoundArc, i: int, segments: int) -> Point {
    let angle = arc.start_angle.spec_sum(
        arc.sweep_angle.spec_product(crate::screen::px(i)).spec_quotient(
            crate::screen::px(segments),
        ),
    );
    let d = crate::plane::reply(f, Query::Heading(angle)).first;
    Point {
        x: arc.center.x.spec_sum(arc.radius.spec_product(d.x)),
        y: arc.center.y.spec_sum(arc.radius.spec_product(d.y)),
    }
}

/// Points along an arc, from its start to its end; the three points themselves where they lie on a
/// line.
pub fn arc_points<F: Fn(Query) -> Reply + Copy>(
    f: F,
    start: Point,
    mid: Point,
    end: Point,
    segments: usize,
) -> (r: Vec<Point>)
    requires
        crate::plane::is_plane(f),
        read_point(start),
        read_point(mid),
        read_point(end),
        0 < segments <= 0x1000_0000,
    ensures
        match arc_through(f, start, mid, end) {
            None => r@ == seq![start, mid, end],
            Some(arc) => r@ == Seq::new(
                (segments + 1) as nat,
                |i: int| arc_point(f, arc, i, segments as int),
            ),
        },
{
    let mut points: Vec<Point> = Vec::new();
    match arc_shape(f, start, mid, end) {
        None => {
            points.push(start);
            points.push(mid);
            points.push(end);
            proof {
                assert(points@ =~= seq![start, mid, end]);
            }
        },
        Some(arc) => {
            let count = pixels(segments as i64);
            let mut i: usize = 0;
            while i <= segments
                invariant
                    i <= segments + 1,
                    0 < segments <= 0x1000_0000,
                    crate::plane::is_plane(f),
                    arc.center.x.wf() && arc.center.x.within(0x1_0000_0000),
                    arc.center.y.wf() && arc.center.y.within(0x1_0000_0000),
                    crate::plane::plain(arc.radius),
                    crate::plane::plain(arc.start_angle),
                    arc.sweep_angle.wf() && arc.sweep_angle.within(0x101_0000),
                    count == crate::screen::px(segments as int),
                    count.wf(),
                    count.within(100),
                    count.mantissa != 0,
                    points@.len() == i,
                    forall|k: int|
                        0 <= k < i ==> #[trigger] points@[k] == arc_point(f, arc, k, segments as int),
                decreases segments + 1 - i,
            {
                let part = arc.sweep_angle.times(pixels(i as i64)).divided_by(count);
                let d = ask(f, Query::Heading(arc.start_angle.plus(part))).first;
                points.push(
                    Point {
                        x: arc.center.x.plus(arc.radius.times(d.x)),
                        y: arc.center.y.plus(arc.radius.times(d.y)),
                    },
                );
                i = i + 1;
            }
            proof {
                assert(points@ =~= Seq::new(
                    (segments + 1) as nat,
                    |i: int| arc_point(f, arc, i, segments as int),
                ));
            }
        },
    }
    points
}

/// Making an arc grow keeps its ends, in one order or the other.
pub proof fn growing_keeps_the_ends<F: Fn(Query) -> Reply>(f: F, start: Point, mid: Point, end: Point)
    ensures
        ({
            let (s, _, e) = normalized(f, start, mid, end);
            ||| s == in_mm(in_units(start)) && e == in_mm(in_units(end))
            ||| s == in_mm(in_units(end)) && e == in_mm(in_units(start))
        }),
{
}

} // verus!
