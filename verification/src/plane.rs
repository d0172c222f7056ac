//! Angles and lengths in the plane of a sheet.
//!
//! What takes trigonometry to compute comes from outside: a function answers the queries of
//! this module. It gives the same reply to the same query every time, and the contracts here
//! speak of its replies.

use crate::attachment::Placement;
use crate::double::Double;
use crate::geometry::Bounds;
use crate::geometry::Point;
use vstd::prelude::*;

verus! {

/// A question about the plane.
#[derive(Clone, Copy, PartialEq, Eq, Structural, Debug)]
pub enum Query {
    /// The cosine and the sine of an angle in degrees.
    Direction(Double),
    /// Where a point of a library symbol comes to lie when the symbol is placed.
    Placed(Point, Placement),
    /// How long a vector is.
    Length(Point),
    /// The angle of a vector, in radians, from half a turn below to half a turn above.
    Angle(Point),
    /// The cosine and the sine of an angle in radians.
    Heading(Double),
    /// An angle in radians without full turns, from nothing up to a full turn.
    Wrapped(Double),
}

/// An answer. One that is a single number stands in `x`.
#[derive(Clone, Copy, PartialEq, Eq, Structural, Debug)]
pub struct Reply {
    pub first: Point,
}

/// A number that is read, or computed from a few that are.
pub open spec fn plain(d: Double) -> bool {
    d.wf() && d.within(0x100_0000)
}

pub open spec fn plain_point(p: Point) -> bool {
    plain(p.x) && plain(p.y)
}

/// A number from which another can be computed that is still well formed.
pub open spec fn held(d: Double) -> bool {
    d.wf() && d.within(0x3000_0000_0000)
}

pub open spec fn held_point(p: Point) -> bool {
    held(p.x) && held(p.y)
}

/// A number that what is drawn is bounded by.
pub open spec fn close(d: Double) -> bool {
    d.wf() && d.within(0x3800_0000_0000)
}

pub open spec fn close_point(p: Point) -> bool {
    close(p.x) && close(p.y)
}

pub open spec fn close_bounds(b: Bounds) -> bool {
    close(b.min_x) && close(b.min_y) && close(b.max_x) && close(b.max_y)
}

pub open spec fn held_bounds(b: Bounds) -> bool {
    held(b.min_x) && held(b.min_y) && held(b.max_x) && held(b.max_y)
}

/// The smallest box round four points.
pub fn box_round_four(a: Point, b: Point, c: Point, d: Point) -> (r: Bounds)
    requires
        close_point(a),
        close_point(b),
        close_point(c),
        close_point(d),
    ensures
        r == Bounds::round_points(seq![a, b, c, d], 4),
        r.wf(),
        close_bounds(r),
{
    let mut bounds = Bounds { min_x: a.x, min_y: a.y, max_x: a.x, max_y: a.y };
    let ghost all = seq![a, b, c, d];
    assert(bounds == Bounds::round_points(all, 1));
    bounds.include_point(b);
    assert(bounds == Bounds::round_points(all, 2));
    bounds.include_point(c);
    assert(bounds == Bounds::round_points(all, 3));
    bounds.include_point(d);
    assert(bounds == Bounds::round_points(all, 4));
    bounds
}

/// `f` answers every query, always in the same way.
pub open spec fn is_plane<F: Fn(Query) -> Reply>(f: F) -> bool {
    &&& forall|q: Query| #[trigger] call_requires(f, (q,))
    &&& forall|q: Query, a: Reply, b: Reply| #[trigger]
        call_ensures(f, (q,), a) && #[trigger] call_ensures(f, (q,), b) ==> a == b
    &&& forall|q: Query, r: Reply| #[trigger]
        call_ensures(f, (q,), r) ==> plain_point(r.first)
}

/// What `f` answers.
pub open spec fn reply<F: Fn(Query) -> Reply>(f: F, q: Query) -> Reply {
    choose|r: Reply| call_ensures(f, (q,), r)
}

/// What `f` answers.
pub fn ask<F: Fn(Query) -> Reply + Copy>(f: F, q: Query) -> (r: Reply)
    requires
        is_plane(f),
    ensures
        r == reply(f, q),
        plain_point(r.first),
{
    f(q)
}

/// The cosine and the sine of an angle in degrees.
pub open spec fn direction<F: Fn(Query) -> Reply>(f: F, degrees: Double) -> Point {
    reply(f, Query::Direction(degrees)).first
}

/// Where a point of a library symbol lies.
pub open spec fn placed<F: Fn(Query) -> Reply>(f: F, p: Point, placement: Placement) -> Point {
    reply(f, Query::Placed(p, placement)).first
}

/// The place of a point given by its distances from `origin` along axes turned by an angle.
pub open spec fn rotated<F: Fn(Query) -> Reply>(
    f: F,
    local: Point,
    origin: Point,
    degrees: Double,
) -> Point {
    let d = direction(f, degrees);
    Point {
        x: origin.x.spec_sum(local.x.spec_product(d.x)).spec_sum(local.y.spec_product(d.y)),
        y: origin.y.spec_difference(local.x.spec_product(d.y)).spec_sum(
            local.y.spec_product(d.x),
        ),
    }
}

/// The place of a point given by its distances from `origin` along axes turned by an angle.
pub fn rotate_about<F: Fn(Query) -> Reply + Copy>(
    f: F,
    local: Point,
    origin: Point,
    rotation_deg: Double,
) -> (r: Point)
    requires
        is_plane(f),
        held_point(local),
        held_point(origin),
    ensures
        r == rotated(f, local, origin, rotation_deg),
        r.wf(),
        close_point(r),
        origin.x.within(0x200_0000) && origin.y.within(0x200_0000) && local.x.within(0x200_0000)
            && local.y.within(0x200_0000) ==> r.x.within(0x400_0000) && r.y.within(0x400_0000),
{
    let d = ask(f, Query::Direction(rotation_deg)).first;
    Point {
        x: origin.x.plus(local.x.times(d.x)).plus(local.y.times(d.y)),
        y: origin.y.minus(local.x.times(d.y)).plus(local.y.times(d.x)),
    }
}

/// The angle at which text is set so that it can be read from below or from the right.
pub open spec fn readable(degrees: Double) -> Double {
    let turn = degrees.spec_turned();
    if !turn.spec_less(crate::double::nearest(135, 0)) && turn.spec_less(
        crate::double::nearest(315, 0),
    ) {
        turn.spec_difference(crate::double::nearest(180, 0))
    } else if !turn.spec_less(crate::double::nearest(315, 0)) {
        turn.spec_difference(crate::double::nearest(360, 0))
    } else {
        turn
    }
}

/// The angle at which text is set so that it can be read from below or from the right.
pub fn readable_text_rotation(rotation_deg: Double) -> (r: Double)
    requires
        rotation_deg.wf(),
        rotation_deg.within(0x10_0000),
        rotation_deg.exponent <= 12,
    ensures
        r == readable(rotation_deg),
        r.wf(),
        r.within(0x10_1000),
        r.exponent <= 10,
        rotation_deg.within(0x1_0000) ==> r.within(0x1_1000),
{
    let turn = rotation_deg.turned();
    if Double::from_int(135).at_most(turn) && turn.less(Double::from_int(315)) {
        turn.minus(Double::from_int(180))
    } else if Double::from_int(315).at_most(turn) {
        turn.minus(Double::from_int(360))
    } else {
        turn
    }
}

/// The way from `to` to `from` points against an axis.
pub open spec fn points_against<F: Fn(Query) -> Reply>(
    f: F,
    from: Point,
    to: Point,
    axis: Point,
) -> bool {
    let d = Point { x: from.x.spec_difference(to.x), y: from.y.spec_difference(to.y) };
    let length = crate::geometry::spec_greater(
        reply(f, Query::Length(d)).first.x,
        least_length(),
    );
    d.x.spec_quotient(length).spec_product(axis.x).spec_sum(
        d.y.spec_quotient(length).spec_product(axis.y),
    ).spec_less(Double::spec_zero())
}

/// The difference between one and the next number above it, the shortest length that anything
/// is divided by.
pub open spec fn least_length() -> Double {
    Double { negative: false, mantissa: 0x10_0000_0000_0000, exponent: (-104) as i64 }
}

/// The way from `to` to `from` points against an axis.
pub fn opposes<F: Fn(Query) -> Reply + Copy>(f: F, from: Point, to: Point, axis: Point) -> (r: bool)
    requires
        is_plane(f),
        plain_point(from),
        plain_point(to),
        plain_point(axis),
    ensures
        r == points_against(f, from, to, axis),
{
    let d = Point { x: from.x.minus(to.x), y: from.y.minus(to.y) };
    let least = Double { negative: false, mantissa: 0x10_0000_0000_0000, exponent: -104 };
    let asked = ask(f, Query::Length(d)).first.x;
    let length = crate::geometry::greater(asked, least);
    proof {
        crate::double::lemma_order(asked, least);
        crate::double::lemma_order(Double::spec_zero(), length);
    }
    let x = d.x.divided_by(length);
    let y = d.y.divided_by(length);
    x.times(axis.x).plus(y.times(axis.y)).less(Double { negative: false, mantissa: 0, exponent: 0 })
}

} // verus!
