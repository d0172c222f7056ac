//! Boxes round points and boxes that meet, and the numbers in the names of a symbol's units.

use crate::double::Double;
use crate::geometry::Bounds;
use crate::geometry::Point;
use vstd::prelude::*;

verus! {

/// The point lies in the box or on its edge.
pub open spec fn lies_inside(b: Bounds, p: Point) -> bool {
    &&& !p.x.spec_less(b.min_x) && !b.max_x.spec_less(p.x)
    &&& !p.y.spec_less(b.min_y) && !b.max_y.spec_less(p.y)
}

/// The numbers of the point are well formed.
pub open spec fn is_point(p: Point) -> bool {
    p.x.wf() && p.y.wf()
}

/// The box round points holds each of them, and each side of it touches one of them.
pub proof fn boxes_fit_their_points(points: Seq<Point>, n: nat)
    requires
        0 < n <= points.len(),
        forall|i: int| 0 <= i < points.len() ==> is_point(#[trigger] points[i]),
    ensures
        ({
            let b = Bounds::round_points(points, n);
            &&& forall|i: int| 0 <= i < n ==> lies_inside(b, #[trigger] points[i])
            &&& exists|i: int| 0 <= i < n && (#[trigger] points[i]).x == b.min_x
            &&& exists|i: int| 0 <= i < n && (#[trigger] points[i]).y == b.min_y
            &&& exists|i: int| 0 <= i < n && (#[trigger] points[i]).x == b.max_x
            &&& exists|i: int| 0 <= i < n && (#[trigger] points[i]).y == b.max_y
        }),
    decreases n,
{
    let b = Bounds::round_points(points, n);
    let last = points[n - 1];
    crate::double::less_is_total(last.x, last.x, last.x);
    crate::double::less_is_total(last.y, last.y, last.y);
    if n > 1 {
        let before = Bounds::round_points(points, (n - 1) as nat);
        boxes_fit_their_points(points, (n - 1) as nat);
        let left = choose|i: int| 0 <= i < n - 1 && (#[trigger] points[i]).x == before.min_x;
        let top = choose|i: int| 0 <= i < n - 1 && (#[trigger] points[i]).y == before.min_y;
        let right = choose|i: int| 0 <= i < n - 1 && (#[trigger] points[i]).x == before.max_x;
        let bottom = choose|i: int| 0 <= i < n - 1 && (#[trigger] points[i]).y == before.max_y;
        assert(is_point(points[left]) && is_point(points[right]));
        assert(is_point(points[top]) && is_point(points[bottom]));
        crate::double::less_is_total(before.min_x, last.x, last.x);
        crate::double::less_is_total(last.x, before.min_x, last.x);
        crate::double::less_is_total(before.max_x, last.x, last.x);
        crate::double::less_is_total(last.x, before.max_x, last.x);
        crate::double::less_is_total(before.min_y, last.y, last.y);
        crate::double::less_is_total(last.y, before.min_y, last.y);
        crate::double::less_is_total(before.max_y, last.y, last.y);
        crate::double::less_is_total(last.y, before.max_y, last.y);
        assert forall|i: int| 0 <= i < n implies lies_inside(b, #[trigger] points[i]) by {
            if i < n - 1 {
                let p = points[i];
                assert(is_point(p) && lies_inside(before, p));
                crate::double::less_is_total(p.x, before.min_x, last.x);
                crate::double::less_is_total(p.y, before.min_y, last.y);
                crate::double::less_is_total(last.x, before.max_x, p.x);
                crate::double::less_is_total(last.y, before.max_y, p.y);
            }
        }
        assert(points[n - 1] == last);
        assert(points[left].x == b.min_x || last.x == b.min_x);
        assert(points[top].y == b.min_y || last.y == b.min_y);
        assert(points[right].x == b.max_x || last.x == b.max_x);
        assert(points[bottom].y == b.max_y || last.y == b.max_y);
    } else {
        assert(points[0] == last);
    }
}

/// The sides of the box are well formed and in order.
pub open spec fn is_box(b: Bounds) -> bool {
    &&& b.min_x.wf() && b.min_y.wf() && b.max_x.wf() && b.max_y.wf()
    &&& !b.max_x.spec_less(b.min_x)
    &&& !b.max_y.spec_less(b.min_y)
}

/// Two boxes meet exactly if there is a point in both of them.
pub proof fn boxes_meet_in_a_point(a: Bounds, b: Bounds)
    requires
        is_box(a),
        is_box(b),
    ensures
        a.spec_intersects(b) <==> exists|p: Point| #[trigger]
            is_point(p) && lies_inside(a, p) && lies_inside(b, p),
        a.spec_intersects(b) <==> b.spec_intersects(a),
{
    let corner = Point {
        x: crate::geometry::spec_greater(a.min_x, b.min_x),
        y: crate::geometry::spec_greater(a.min_y, b.min_y),
    };
    crate::double::less_is_total(a.min_x, b.min_x, a.min_x);
    crate::double::less_is_total(b.min_x, a.min_x, b.min_x);
    crate::double::less_is_total(a.min_y, b.min_y, a.min_y);
    crate::double::less_is_total(b.min_y, a.min_y, b.min_y);
    crate::double::less_is_total(a.min_x, a.min_x, a.min_x);
    crate::double::less_is_total(b.min_x, b.min_x, b.min_x);
    crate::double::less_is_total(a.min_y, a.min_y, a.min_y);
    crate::double::less_is_total(b.min_y, b.min_y, b.min_y);
    if a.spec_intersects(b) {
        assert(is_point(corner) && lies_inside(a, corner) && lies_inside(b, corner));
    }
    if exists|p: Point| #[trigger] is_point(p) && lies_inside(a, p) && lies_inside(b, p) {
        let p = choose|p: Point| #[trigger] is_point(p) && lies_inside(a, p) && lies_inside(b, p);
        crate::double::less_is_total(a.max_x, p.x, b.min_x);
        crate::double::less_is_total(b.max_x, p.x, a.min_x);
        crate::double::less_is_total(a.max_y, p.y, b.min_y);
        crate::double::less_is_total(b.max_y, p.y, a.min_y);
    }
}

/// A box holds another exactly if it holds both of its outer corners.
pub proof fn boxes_hold_by_their_corners(a: Bounds, b: Bounds)
    requires
        is_box(a),
        is_box(b),
    ensures
        a.encloses(b) <==> lies_inside(a, Point { x: b.min_x, y: b.min_y }) && lies_inside(
            a,
            Point { x: b.max_x, y: b.max_y },
        ),
{
    crate::double::less_is_total(a.max_x, b.max_x, b.min_x);
    crate::double::less_is_total(a.max_y, b.max_y, b.min_y);
    crate::double::less_is_total(b.max_x, b.min_x, a.min_x);
    crate::double::less_is_total(b.max_y, b.min_y, a.min_y);
}

/// The box that is dragged open does not depend on the corner that one begins with.
pub proof fn boxes_are_dragged_from_either_corner(start: Point, end: Point)
    requires
        is_point(start),
        is_point(end),
    ensures
        crate::geometry::box_between(start, end) == crate::geometry::box_between(end, start),
        is_box(crate::geometry::box_between(start, end)),
        lies_inside(crate::geometry::box_between(start, end), start),
        lies_inside(crate::geometry::box_between(start, end), end),
{
    crate::double::less_is_total(start.x, end.x, start.x);
    crate::double::less_is_total(end.x, start.x, end.x);
    crate::double::less_is_total(start.y, end.y, start.y);
    crate::double::less_is_total(end.y, start.y, end.y);
    crate::double::less_is_total(start.x, start.x, start.x);
    crate::double::less_is_total(end.x, end.x, end.x);
    crate::double::less_is_total(start.y, start.y, start.y);
    crate::double::less_is_total(end.y, end.y, end.y);
}

/// A box that takes in a point or another box holds what it held and what it takes in.
pub proof fn boxes_grow(a: Bounds, b: Bounds, p: Point)
    requires
        is_box(a),
        is_box(b),
        is_point(p),
        lies_inside(a, p) || lies_inside(b, p),
    ensures
        lies_inside(a.spec_union(b), p),
{
    crate::double::less_is_total(p.x, a.min_x, b.min_x);
    crate::double::less_is_total(p.x, b.min_x, a.min_x);
    crate::double::less_is_total(p.y, a.min_y, b.min_y);
    crate::double::less_is_total(p.y, b.min_y, a.min_y);
    crate::double::less_is_total(b.max_x, a.max_x, p.x);
    crate::double::less_is_total(a.max_x, b.max_x, p.x);
    crate::double::less_is_total(b.max_y, a.max_y, p.y);
    crate::double::less_is_total(a.max_y, b.max_y, p.y);
    crate::double::less_is_total(a.min_x, b.min_x, b.max_x);
    crate::double::less_is_total(b.max_x, b.min_x, a.min_x);
    crate::double::less_is_total(b.max_y, b.min_y, a.min_y);
    crate::double::less_is_total(b.max_x, b.min_x, a.max_x);
    crate::double::less_is_total(a.max_x, a.min_x, b.min_x);
    crate::double::less_is_total(a.max_y, a.min_y, b.min_y);
    lemma_sides(a.min_x, a.max_x, b.min_x, b.max_x, p.x);
    lemma_sides(a.min_y, a.max_y, b.min_y, b.max_y, p.y);
}

proof fn lemma_sides(low: Double, high: Double, least: Double, most: Double, v: Double)
    requires
        low.wf() && high.wf() && least.wf() && most.wf() && v.wf(),
        !high.spec_less(low),
        !most.spec_less(least),
    ensures
        ({
            let a = crate::geometry::spec_lesser(crate::geometry::spec_lesser(low, least), most);
            let b = crate::geometry::spec_greater(crate::geometry::spec_greater(high, least), most);
            (!v.spec_less(low) && !high.spec_less(v)) || (!v.spec_less(least) && !most.spec_less(v))
                ==> !v.spec_less(a) && !b.spec_less(v)
        }),
{
    crate::double::less_is_total(low, least, low);
    crate::double::less_is_total(least, low, least);
    let a = crate::geometry::spec_lesser(low, least);
    crate::double::less_is_total(a, most, a);
    crate::double::less_is_total(most, a, most);
    crate::double::less_is_total(v, low, a);
    crate::double::less_is_total(v, least, a);
    crate::double::less_is_total(v, a, most);
    let b = crate::geometry::spec_greater(high, least);
    crate::double::less_is_total(high, least, high);
    crate::double::less_is_total(least, high, least);
    crate::double::less_is_total(b, most, b);
    crate::double::less_is_total(most, b, most);
    crate::double::less_is_total(b, high, v);
    crate::double::less_is_total(most, b, v);
    crate::double::less_is_total(b, least, v);
    crate::double::less_is_total(b, most, v);
    crate::double::less_is_total(most, least, v);
}

/// No underscore stands among the letters.
pub open spec fn is_unbroken(s: Seq<char>) -> bool {
    forall|i: int| 0 <= i < s.len() ==> #[trigger] s[i] != '_'
}

proof fn lemma_underscore(s: Seq<char>, k: int, to: nat)
    requires
        0 <= k < to <= s.len(),
        s[k] == '_',
        forall|i: int| k < i < to ==> #[trigger] s[i] != '_',
    ensures
        crate::attachment::last_underscore(s, to) == Some(k),
    decreases to,
{
    if k < to - 1 {
        assert(s[to - 1] != '_');
        lemma_underscore(s, k, (to - 1) as nat);
    }
}

proof fn lemma_no_underscore(s: Seq<char>, to: nat)
    requires
        to <= s.len(),
        is_unbroken(s),
    ensures
        crate::attachment::last_underscore(s, to) is None,
    decreases to,
{
    if to > 0 {
        assert(s[to - 1] != '_');
        lemma_no_underscore(s, (to - 1) as nat);
    }
}

/// A part of a library symbol belongs to a unit exactly if its name ends in the number of the unit,
/// or in 0 for all units, and then in the number of the first body style, or in 0 for all styles. A
/// name without such numbers belongs to none.
pub proof fn units_are_named_by_their_numbers(
    symbol: Seq<char>,
    own: Seq<char>,
    style: Seq<char>,
    unit: nat,
)
    requires
        is_unbroken(own),
        is_unbroken(style),
    ensures
        crate::attachment::unit_matches(
            symbol + seq!['_'] + own + seq!['_'] + style,
            unit,
        ) <==> {
            let of_own = crate::attachment::unsigned(own);
            let of_style = crate::attachment::unsigned(style);
            &&& of_own == Some(0nat) || of_own == Some(unit)
            &&& of_style == Some(0nat) || of_style == Some(1nat)
        },
        !crate::attachment::unit_matches(own, unit),
{
    let name = symbol + seq!['_'] + own + seq!['_'] + style;
    let first = symbol.len() as int;
    let last = first + 1 + own.len();
    assert(name.len() == last + 1 + style.len());
    assert(name[first] == '_');
    assert(name[last] == '_');
    assert forall|i: int| last < i < name.len() implies #[trigger] name[i] != '_' by {
        assert(name[i] == style[i - last - 1]);
    }
    assert forall|i: int| first < i < last implies #[trigger] name[i] != '_' by {
        assert(name[i] == own[i - first - 1]);
    }
    lemma_underscore(name, last, name.len());
    lemma_underscore(name, first, last as nat);
    assert(name.skip(last + 1) =~= style);
    assert(name.subrange(first + 1, last) =~= own);
    lemma_no_underscore(own, own.len());
}

} // verus!
