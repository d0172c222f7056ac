//! Points, boxes and coordinates of a schematic, in millimetres.

use crate::double::Double;
use crate::text::to_decimal;
use crate::text::to_digits;
use vstd::prelude::*;

verus! {

#[derive(Clone, Copy, PartialEq, Eq, Structural, Debug)]
pub struct Point {
    pub x: Double,
    pub y: Double,
}

#[derive(Clone, Copy, PartialEq, Eq, Structural, Debug)]
pub struct Bounds {
    pub min_x: Double,
    pub min_y: Double,
    pub max_x: Double,
    pub max_y: Double,
}

/// The smaller of two numbers.
pub open spec fn spec_lesser(a: Double, b: Double) -> Double {
    if b.spec_less(a) {
        b
    } else {
        a
    }
}

/// The greater of two numbers.
pub open spec fn spec_greater(a: Double, b: Double) -> Double {
    if a.spec_less(b) {
        b
    } else {
        a
    }
}

/// `a <= b`.
pub open spec fn le(a: Double, b: Double) -> bool {
    !b.spec_less(a)
}

/// The smaller of two numbers.
pub fn lesser(a: Double, b: Double) -> (r: Double)
    requires
        a.wf(),
        b.wf(),
    ensures
        r == spec_lesser(a, b),
        r.wf(),
{
    if b.less(a) {
        b
    } else {
        a
    }
}

/// The greater of two numbers.
pub fn greater(a: Double, b: Double) -> (r: Double)
    requires
        a.wf(),
        b.wf(),
    ensures
        r == spec_greater(a, b),
        r.wf(),
{
    if a.less(b) {
        b
    } else {
        a
    }
}

/// No exponent of a coordinate lies further from zero.
pub const SPAN: i64 = 0x4000_0000_0000;

impl Point {
    pub open spec fn wf(self) -> bool {
        self.x.wf() && self.y.wf() && self.x.within(SPAN as int) && self.y.within(SPAN as int)
    }
}

impl Bounds {
    pub open spec fn wf(self) -> bool {
        &&& self.min_x.wf() && self.min_y.wf() && self.max_x.wf() && self.max_y.wf()
        &&& self.min_x.within(SPAN as int) && self.min_y.within(SPAN as int)
        &&& self.max_x.within(SPAN as int) && self.max_y.within(SPAN as int)
    }

    /// The box of one point.
    pub open spec fn at(p: Point) -> Bounds {
        Bounds { min_x: p.x, min_y: p.y, max_x: p.x, max_y: p.y }
    }

    /// The smallest box round this one and a point.
    pub open spec fn spec_include(self, p: Point) -> Bounds {
        Bounds {
            min_x: spec_lesser(self.min_x, p.x),
            min_y: spec_lesser(self.min_y, p.y),
            max_x: spec_greater(self.max_x, p.x),
            max_y: spec_greater(self.max_y, p.y),
        }
    }

    /// The smallest box round the first `n` of the points, one or more.
    pub open spec fn round_points(points: Seq<Point>, n: nat) -> Bounds
        decreases n,
    {
        if n <= 1 {
            Bounds::at(points[0])
        } else {
            Bounds::round_points(points, (n - 1) as nat).spec_include(points[n - 1])
        }
    }

    /// The smallest box round the points, if there are any.
    pub fn from_points(points: &Vec<Point>) -> (r: Option<Bounds>)
        requires
            forall|i: int| 0 <= i < points@.len() ==> (#[trigger] points@[i]).wf(),
        ensures
            match r {
                Some(b) => points@.len() > 0 && b == Bounds::round_points(points@, points@.len())
                    && b.wf(),
                None => points@.len() == 0,
            },
    {
        if points.len() == 0 {
            return None;
        }
        let first = points[0];
        let mut bounds = Bounds { min_x: first.x, min_y: first.y, max_x: first.x, max_y: first.y };
        let mut i: usize = 1;
        while i < points.len()
            invariant
                1 <= i <= points@.len(),
                forall|i: int| 0 <= i < points@.len() ==> (#[trigger] points@[i]).wf(),
                bounds == Bounds::round_points(points@, i as nat),
                bounds.wf(),
            decreases points@.len() - i,
        {
            bounds.include_point(points[i]);
            i = i + 1;
        }
        Some(bounds)
    }

    /// Grows the box to take in a point.
    pub fn include_point(&mut self, p: Point)
        requires
            old(self).wf(),
            p.wf(),
        ensures
            *final(self) == old(self).spec_include(p),
            final(self).wf(),
    {
        self.min_x = lesser(self.min_x, p.x);
        self.min_y = lesser(self.min_y, p.y);
        self.max_x = greater(self.max_x, p.x);
        self.max_y = greater(self.max_y, p.y);
    }

    /// The smallest box round this one and another.
    pub open spec fn spec_union(self, other: Bounds) -> Bounds {
        self.spec_include(Point { x: other.min_x, y: other.min_y }).spec_include(
            Point { x: other.max_x, y: other.max_y },
        )
    }

    /// Grows the box to take in another.
    pub fn include_bounds(&mut self, other: Bounds)
        requires
            old(self).wf(),
            other.wf(),
        ensures
            *final(self) == old(self).spec_union(other),
            final(self).wf(),
    {
        self.include_point(Point { x: other.min_x, y: other.min_y });
        self.include_point(Point { x: other.max_x, y: other.max_y });
    }

    /// Moves every side outwards.
    pub fn inflate(&mut self, amount: Double)
        requires
            old(self).wf(),
            amount.wf(),
            amount.within(SPAN as int),
        ensures
            final(self).min_x == old(self).min_x.spec_difference(amount),
            final(self).min_y == old(self).min_y.spec_difference(amount),
            final(self).max_x == old(self).max_x.spec_sum(amount),
            final(self).max_y == old(self).max_y.spec_sum(amount),
            crate::plane::held_bounds(*old(self)) && amount.within(0x1000_0000)
                ==> crate::plane::close_bounds(*final(self)),
    {
        self.min_x = self.min_x.minus(amount);
        self.min_y = self.min_y.minus(amount);
        self.max_x = self.max_x.plus(amount);
        self.max_y = self.max_y.plus(amount);
    }

    /// The point lies in the box or no further from it than the tolerance on either axis.
    pub open spec fn spec_contains(self, p: Point, tolerance: Double) -> bool {
        &&& le(self.min_x.spec_difference(tolerance), p.x)
        &&& le(p.x, self.max_x.spec_sum(tolerance))
        &&& le(self.min_y.spec_difference(tolerance), p.y)
        &&& le(p.y, self.max_y.spec_sum(tolerance))
    }

    pub fn contains(self, p: Point, tolerance: Double) -> (r: bool)
        requires
            self.wf(),
            p.wf(),
            tolerance.wf(),
            tolerance.within(SPAN as int),
        ensures
            r == self.spec_contains(p, tolerance),
    {
        self.min_x.minus(tolerance).at_most(p.x) && p.x.at_most(self.max_x.plus(tolerance))
            && self.min_y.minus(tolerance).at_most(p.y) && p.y.at_most(
            self.max_y.plus(tolerance),
        )
    }

    pub open spec fn spec_intersects(self, other: Bounds) -> bool {
        &&& le(self.min_x, other.max_x)
        &&& le(other.min_x, self.max_x)
        &&& le(self.min_y, other.max_y)
        &&& le(other.min_y, self.max_y)
    }

    pub fn intersects(self, other: Bounds) -> (r: bool)
        requires
            self.wf(),
            other.wf(),
        ensures
            r == self.spec_intersects(other),
    {
        self.min_x.at_most(other.max_x) && other.min_x.at_most(self.max_x) && self.min_y.at_most(
            other.max_y,
        ) && other.min_y.at_most(self.max_y)
    }

    /// `other` lies within `self`.
    pub open spec fn encloses(self, other: Bounds) -> bool {
        &&& le(self.min_x, other.min_x)
        &&& le(other.max_x, self.max_x)
        &&& le(self.min_y, other.min_y)
        &&& le(other.max_y, self.max_y)
    }
}

/// The box with the two points as opposite corners.
pub open spec fn box_between(start: Point, end: Point) -> Bounds {
    Bounds {
        min_x: spec_lesser(start.x, end.x),
        min_y: spec_lesser(start.y, end.y),
        max_x: spec_greater(start.x, end.x),
        max_y: spec_greater(start.y, end.y),
    }
}

/// Whether dragging a selection box from `start` to `end` selects `bounds`: dragged to the
/// left it takes what it touches, otherwise what it encloses.
pub fn box_selects_bounds(bounds: Bounds, start: Point, end: Point) -> (r: bool)
    requires
        bounds.wf(),
        start.wf(),
        end.wf(),
    ensures
        r == (if end.x.spec_less(start.x) {
            bounds.spec_intersects(box_between(start, end))
        } else {
            box_between(start, end).encloses(bounds)
        }),
{
    let drawn = Bounds {
        min_x: lesser(start.x, end.x),
        min_y: lesser(start.y, end.y),
        max_x: greater(start.x, end.x),
        max_y: greater(start.y, end.y),
    };
    if end.x.less(start.x) {
        bounds.intersects(drawn)
    } else {
        drawn.min_x.at_most(bounds.min_x) && bounds.max_x.at_most(drawn.max_x)
            && drawn.min_y.at_most(bounds.min_y) && bounds.max_y.at_most(drawn.max_y)
    }
}

/// The multiple of `grid` nearest to `v`.
pub open spec fn on_grid(v: Double, grid: Double) -> Double {
    v.spec_quotient(grid).spec_round().spec_product(grid)
}

fn snap(v: Double, grid: Double) -> (r: Double)
    requires
        v.wf(),
        grid.wf(),
        grid.mantissa != 0,
        v.within(4000),
        grid.within(4000),
    ensures
        r == on_grid(v, grid),
        r.wf(),
        r.within(0x4000),
{
    v.divided_by(grid).rounded_away().times(grid)
}

/// The point of the grid nearest to `point`, or the point itself where snapping is off.
pub fn snap_point(point: Point, enabled: bool, grid_mm: Double) -> (r: Point)
    requires
        point.x.wf() && point.x.within(4000),
        point.y.wf() && point.y.within(4000),
        grid_mm.wf() && grid_mm.within(4000),
        grid_mm.mantissa != 0,
    ensures
        r == (if enabled {
            Point { x: on_grid(point.x, grid_mm), y: on_grid(point.y, grid_mm) }
        } else {
            point
        }),
        r.x.wf(),
        r.y.wf(),
        r.x.within(0x4000),
        r.y.within(0x4000),
{
    if !enabled {
        return point;
    }
    Point { x: snap(point.x, grid_mm), y: snap(point.y, grid_mm) }
}

/// 0.001, the smallest scale that a distance on the screen is divided by.
pub open spec fn least_scale() -> Double {
    Double { negative: false, mantissa: 0x10_624d_d2f1_a9fc, exponent: (-62) as i64 }
}

/// A distance on the screen, in millimetres at the given scale.
pub open spec fn in_mm(from: Double, to: Double, scale: Double) -> Double {
    to.spec_difference(from).spec_quotient(spec_greater(scale, least_scale()))
}

/// How far a drag moves what it drags, in millimetres, on the grid where snapping is on.
pub fn drag_delta_mm(
    start: Point,
    current: Point,
    scale: Double,
    snap_to_grid: bool,
    grid_mm: Double,
) -> (r: (Double, Double))
    requires
        start.x.wf() && start.x.within(1500),
        start.y.wf() && start.y.within(1500),
        current.x.wf() && current.x.within(1500),
        current.y.wf() && current.y.within(1500),
        scale.wf() && scale.within(1500),
        grid_mm.wf() && grid_mm.within(1500),
        grid_mm.mantissa != 0,
    ensures
        ({
            let dx = in_mm(start.x, current.x, scale);
            let dy = in_mm(start.y, current.y, scale);
            r == (if snap_to_grid {
                (on_grid(dx, grid_mm), on_grid(dy, grid_mm))
            } else {
                (dx, dy)
            })
        }),
{
    let least = Double { negative: false, mantissa: 0x10_624d_d2f1_a9fc, exponent: -62 };
    let scale = greater(scale, least);
    proof {
        at_least_positive_is_not_zero(scale, least);
    }
    let dx = current.x.minus(start.x).divided_by(scale);
    let dy = current.y.minus(start.y).divided_by(scale);
    if snap_to_grid {
        (snap(dx, grid_mm), snap(dy, grid_mm))
    } else {
        (dx, dy)
    }
}

/// A number that is not below a positive one is not zero.
pub proof fn at_least_positive_is_not_zero(a: Double, least: Double)
    requires
        a.wf(),
        least.wf(),
        le(least, a),
        !least.negative,
        least.mantissa != 0,
    ensures
        a.mantissa != 0,
{
    if a.mantissa == 0 {
        crate::double::lemma_order(a, least);
    }
}

/// 0.00005, below which a coordinate is written as zero.
pub open spec fn negligible() -> Double {
    Double { negative: false, mantissa: 0x1a_36e2_eb1c_432d, exponent: (-67) as i64 }
}

/// The decimal point and the digits after it, of which `width` make up `f`, without trailing
/// zeros; nothing where only zeros would follow.
pub open spec fn fraction(f: nat, width: nat) -> Seq<char>
    decreases width,
{
    if width == 0 {
        Seq::empty()
    } else if f % 10 == 0 {
        fraction(f / 10, (width - 1) as nat)
    } else {
        seq!['.'] + crate::text::digits(f, width)
    }
}

/// A coordinate as it is written to a file: four decimals at most, none that are not needed.
pub open spec fn coord_text(value: Double) -> Seq<char> {
    if value.spec_abs().spec_less(negligible()) {
        seq!['0']
    } else {
        let n = crate::double::parts_of_one(value.mantissa as nat, value.exponent as int, 10000);
        let sign = if value.negative {
            seq!['-']
        } else {
            Seq::empty()
        };
        sign + crate::text::decimal(n / 10000) + fraction(n % 10000, 4)
    }
}

fn to_fraction(f: u64, width: u8) -> (r: String)
    ensures
        r@ == fraction(f as nat, width as nat),
    decreases width,
{
    if width == 0 {
        let r = String::new();
        assert(r@ =~= fraction(f as nat, 0));
        r
    } else if f % 10 == 0 {
        to_fraction(f / 10, width - 1)
    } else {
        let mut r = String::new();
        r.push('.');
        let digits = to_digits(f, width);
        r.append(digits.as_str());
        assert(r@ =~= seq!['.'] + digits@);
        r
    }
}

/// The coordinate as it is written to a file.
pub fn format_coord(value: Double) -> (r: String)
    requires
        value.wf(),
        value.exponent <= 60,
    ensures
        r@ == coord_text(value),
{
    let least = Double { negative: false, mantissa: 0x1a_36e2_eb1c_432d, exponent: -67 };
    let mut r = String::new();
    if value.abs().less(least) {
        r.push('0');
        assert(r@ =~= seq!['0']);
        return r;
    }
    let n: u128 = value.to_parts_of_one(10000);
    if value.negative {
        r.push('-');
        assert(r@ =~= seq!['-']);
    } else {
        assert(r@ =~= Seq::empty());
    }
    let whole = to_decimal(n / 10000);
    let rest = to_fraction((n % 10000) as u64, 4);
    r.append(whole.as_str());
    r.append(rest.as_str());
    r
}

/// A number with three decimals.
pub open spec fn fixed3_text(value: Double) -> Seq<char> {
    let n = crate::double::parts_of_one(value.mantissa as nat, value.exponent as int, 1000);
    let sign = if value.negative {
        seq!['-']
    } else {
        Seq::empty()
    };
    sign + crate::text::decimal(n / 1000) + seq!['.'] + crate::text::digits(n % 1000, 3)
}

/// The number with three decimals.
pub fn format_fixed3(value: Double) -> (r: String)
    requires
        value.wf(),
        value.exponent <= 60,
    ensures
        r@ == fixed3_text(value),
{
    let n: u128 = value.to_parts_of_one(1000);
    let mut r = String::new();
    if value.negative {
        r.push('-');
        assert(r@ =~= seq!['-']);
    } else {
        assert(r@ =~= Seq::empty());
    }
    let whole = to_decimal(n / 1000);
    let rest = to_digits((n % 1000) as u64, 3);
    let ghost sign = r@;
    r.append(whole.as_str());
    r.push('.');
    r.append(rest.as_str());
    assert(r@ =~= sign + whole@ + seq!['.'] + rest@);
    r
}

/// A point as it is named in a message: both coordinates with three decimals.
pub open spec fn place_text(p: Point) -> Seq<char> {
    fixed3_text(p.x) + ", "@ + fixed3_text(p.y) + " mm"@
}

/// The point as it is named in a message.
pub fn format_place(p: Point) -> (r: String)
    requires
        p.x.wf() && p.x.exponent <= 60,
        p.y.wf() && p.y.exponent <= 60,
    ensures
        r@ == place_text(p),
{
    let mut r = format_fixed3(p.x);
    let y = format_fixed3(p.y);
    r.append(", ");
    r.append(y.as_str());
    r.append(" mm");
    r
}

} // verus!
