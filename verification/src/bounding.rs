//! Boxes round what is drawn, paths along points, and the order in which references stand in a
//! drawing.

use crate::encode::Step;
use crate::encode::Traced;
use crate::geometry::Bounds;
use crate::geometry::Point;
use crate::plane::Query;
use crate::plane::Reply;
use crate::primitives::Shape;
use crate::scene::Found;
use vstd::prelude::*;

verus! {

/// The points that a line, a polygon, a curve or an arc is given by.
pub open spec fn points_of_shape(shape: Shape) -> Seq<Point> {
    match shape {
        Shape::Line { from, to, .. } => seq![from, to],
        Shape::Polyline { points, .. } => points,
        Shape::Bezier { points, .. } => points,
        Shape::Arc { start, mid, end, .. } => seq![start, mid, end],
        _ => Seq::empty(),
    }
}

/// The box round a line, a polygon, a curve or an arc holds every point that it is given by, and
/// nothing has no box.
pub proof fn shapes_lie_in_their_boxes<F: Fn(Query) -> Reply>(f: F, shape: Shape, i: int)
    requires
        0 <= i < points_of_shape(shape).len(),
        forall|k: int|
            0 <= k < points_of_shape(shape).len() ==> crate::measuring::is_point(
                #[trigger] points_of_shape(shape)[k],
            ),
    ensures
        crate::primitives::box_of(f, shape) matches Some(b) && crate::measuring::lies_inside(
            b,
            points_of_shape(shape)[i],
        ),
{
    let points = points_of_shape(shape);
    crate::measuring::boxes_fit_their_points(points, points.len());
}

/// Every box is well formed.
pub open spec fn are_boxed<F: Fn(Query) -> Reply>(f: F, shapes: Seq<Shape>) -> bool {
    forall|k: int|
        0 <= k < shapes.len() ==> (crate::primitives::box_of(f, #[trigger] shapes[k]) matches Some(b)
            ==> crate::measuring::is_box(b))
}

proof fn lemma_union(a: Bounds, b: Bounds)
    requires
        crate::measuring::is_box(a),
        crate::measuring::is_box(b),
    ensures
        crate::measuring::is_box(a.spec_union(b)),
        a.spec_union(b).encloses(a),
        a.spec_union(b).encloses(b),
{
    let all = a.spec_union(b);
    let a_low = Point { x: a.min_x, y: a.min_y };
    let a_high = Point { x: a.max_x, y: a.max_y };
    let b_low = Point { x: b.min_x, y: b.min_y };
    let b_high = Point { x: b.max_x, y: b.max_y };
    lemma_corners(a);
    lemma_corners(b);
    crate::measuring::boxes_grow(a, b, a_low);
    crate::measuring::boxes_grow(a, b, a_high);
    crate::measuring::boxes_grow(a, b, b_low);
    crate::measuring::boxes_grow(a, b, b_high);
    crate::double::less_is_total(all.max_x, a.min_x, all.min_x);
    crate::double::less_is_total(all.max_y, a.min_y, all.min_y);
    crate::measuring::boxes_hold_by_their_corners(all, a);
    crate::measuring::boxes_hold_by_their_corners(all, b);
}

proof fn lemma_corners(a: Bounds)
    requires
        crate::measuring::is_box(a),
    ensures
        crate::measuring::lies_inside(a, Point { x: a.min_x, y: a.min_y }),
        crate::measuring::lies_inside(a, Point { x: a.max_x, y: a.max_y }),
{
    crate::double::less_is_total(a.min_x, a.min_x, a.min_x);
    crate::double::less_is_total(a.min_y, a.min_y, a.min_y);
    crate::double::less_is_total(a.max_x, a.max_x, a.max_x);
    crate::double::less_is_total(a.max_y, a.max_y, a.max_y);
}

proof fn lemma_same(a: Bounds)
    requires
        crate::measuring::is_box(a),
    ensures
        a.encloses(a),
{
    lemma_corners(a);
    crate::measuring::boxes_hold_by_their_corners(a, a);
}

proof fn lemma_through(a: Bounds, b: Bounds, c: Bounds)
    requires
        crate::measuring::is_box(a),
        crate::measuring::is_box(b),
        crate::measuring::is_box(c),
        a.encloses(b),
        b.encloses(c),
    ensures
        a.encloses(c),
{
    crate::double::less_is_total(c.min_x, b.min_x, a.min_x);
    crate::double::less_is_total(c.min_y, b.min_y, a.min_y);
    crate::double::less_is_total(a.max_x, b.max_x, c.max_x);
    crate::double::less_is_total(a.max_y, b.max_y, c.max_y);
}

proof fn lemma_round<F: Fn(Query) -> Reply>(f: F, shapes: Seq<Shape>, bare: bool, n: nat)
    requires
        n <= shapes.len(),
        are_boxed(f, shapes),
    ensures
        match crate::primitives::box_round(f, shapes, bare, n) {
            Some(b) => crate::measuring::is_box(b) && forall|k: int|
                0 <= k < n && !(bare && crate::primitives::is_pin_text(#[trigger] shapes[k])) ==> (
                crate::primitives::box_of(f, shapes[k]) matches Some(own) ==> b.encloses(own)),
            None => forall|k: int|
                0 <= k < n && !(bare && crate::primitives::is_pin_text(#[trigger] shapes[k]))
                    ==> crate::primitives::box_of(f, shapes[k]) is None,
        },
    decreases n,
{
    if n > 0 {
        lemma_round(f, shapes, bare, (n - 1) as nat);
        let before = crate::primitives::box_round(f, shapes, bare, (n - 1) as nat);
        let last = if bare && crate::primitives::is_pin_text(shapes[n - 1]) {
            None
        } else {
            crate::primitives::box_of(f, shapes[n - 1])
        };
        assert(last matches Some(b) ==> crate::measuring::is_box(b));
        if let Some(b) = last {
            lemma_same(b);
            if let Some(a) = before {
                lemma_union(a, b);
                let all = a.spec_union(b);
                assert forall|k: int|
                    0 <= k < n && !(bare && crate::primitives::is_pin_text(
                        #[trigger] shapes[k],
                    )) implies (crate::primitives::box_of(f, shapes[k]) matches Some(own)
                    ==> all.encloses(own)) by {
                    if k < n - 1 {
                        if let Some(own) = crate::primitives::box_of(f, shapes[k]) {
                            lemma_through(all, a, own);
                        }
                    }
                }
            }
        }
    }
}

/// The box round an object holds all that is drawn for it; texts at pins count only where they are
/// asked for.
pub proof fn objects_lie_in_their_boxes<F: Fn(Query) -> Reply>(
    f: F,
    shapes: Seq<Shape>,
    bare: bool,
    k: int,
    own: Bounds,
)
    requires
        are_boxed(f, shapes),
        0 <= k < shapes.len(),
        crate::primitives::box_of(f, shapes[k]) == Some(own),
        !(bare && crate::primitives::is_pin_text(shapes[k])),
    ensures
        crate::primitives::box_round(f, shapes, bare, shapes.len()) matches Some(b) && b.encloses(
            own,
        ),
{
    lemma_round(f, shapes, bare, shapes.len());
}

/// A path goes through all of its points in turn, and back to the first where it is closed.
pub proof fn paths_go_through_their_points(points: Seq<Point>, closed: bool, n: nat)
    requires
        0 < n <= points.len(),
    ensures
        ({
            let steps = crate::encode::line_steps(points, n);
            &&& steps.len() == n
            &&& steps[0] == Step::Move(crate::encode::svg_place(points[0]))
            &&& forall|i: int|
                0 < i < n ==> #[trigger] steps[i] == Step::Line(crate::encode::svg_place(points[i]))
        }),
        crate::encode::polyline(points, closed).len() == points.len() + (if closed {
            1int
        } else {
            0
        }),
        closed ==> crate::encode::polyline(points, closed).last() == Step::Close,
    decreases n,
{
    if n > 1 {
        paths_go_through_their_points(points, closed, (n - 1) as nat);
    }
    if n < points.len() {
        lemma_path_length(points, points.len());
    } else {
        lemma_path_length(points, n);
    }
}

proof fn lemma_path_length(points: Seq<Point>, n: nat)
    ensures
        crate::encode::line_steps(points, n).len() == n,
    decreases n,
{
    if n > 1 {
        lemma_path_length(points, (n - 1) as nat);
    }
}

/// A curve begins at its first point, and each of its pieces ends at the third point after the one
/// that it begins at.
pub proof fn curves_go_from_point_to_point(points: Seq<Point>, exact: bool, k: nat)
    requires
        3 * k < points.len(),
    ensures
        ({
            let steps = crate::encode::curve_steps(points, exact, k);
            &&& steps.len() == k + 1
            &&& steps[0] == Step::Move(crate::encode::taken(points[0], exact))
            &&& forall|i: int|
                0 < i <= k ==> #[trigger] steps[i] == Step::Curve(
                    crate::encode::taken(points[3 * i - 2], exact),
                    crate::encode::taken(points[3 * i - 1], exact),
                    crate::encode::taken(points[3 * i], exact),
                )
        }),
    decreases k,
{
    if k > 0 {
        curves_go_from_point_to_point(points, exact, (k - 1) as nat);
    }
}

proof fn lemma_framed(
    shapes: Seq<Shape>,
    from: int,
    to: int,
    halo: crate::double::Double,
    palette: crate::theme::Palette,
    i: int,
)
    requires
        from <= i < to,
    ensures
        ({
            let all = crate::encode::frame_round(shapes, from, to, halo, palette);
            &&& crate::encode::frame_round(shapes, from, to - 1, halo, palette).len() <= all.len()
            &&& shapes[i] matches Shape::Line { from: a, to: b, .. } ==> crate::painting::traces(
                all,
                Traced::Line(a, b),
            )
            &&& shapes[i] matches Shape::Rect { bounds, .. } ==> crate::painting::traces(
                all,
                Traced::Rect(bounds),
            )
            &&& shapes[i] matches Shape::Circle { center, radius, .. } ==> crate::painting::traces(
                all,
                Traced::Circle(center, radius),
            )
            &&& shapes[i] matches Shape::Arc { start, mid, end, .. } ==> crate::painting::traces(
                all,
                Traced::Bow(start, mid, end),
            )
            &&& shapes[i] matches Shape::Polyline { points, closed, .. }
                ==> crate::painting::traces(
                all,
                Traced::Path(crate::encode::polyline(points, closed)),
            )
        }),
    decreases to - i,
{
    let all = crate::encode::frame_round(shapes, from, to, halo, palette);
    let before = crate::encode::frame_round(shapes, from, to - 1, halo, palette);
    assert(forall|k: int| 0 <= k < before.len() ==> #[trigger] all[k] == before[k]);
    if i < to - 1 {
        lemma_framed(shapes, from, to - 1, halo, palette, i);
        let trace = match shapes[i] {
            Shape::Line { from: a, to: b, .. } => Traced::Line(a, b),
            Shape::Rect { bounds, .. } => Traced::Rect(bounds),
            Shape::Circle { center, radius, .. } => Traced::Circle(center, radius),
            Shape::Arc { start, mid, end, .. } => Traced::Bow(start, mid, end),
            Shape::Polyline { points, closed, .. } => Traced::Path(
                crate::encode::polyline(points, closed),
            ),
            _ => Traced::Words(0),
        };
        if !(shapes[i] is Text) && !(shapes[i] is Bezier) {
            let k = choose|k: int| 0 <= k < before.len() && (#[trigger] before[k]).0 == trace;
            assert(all[k].0 == trace);
        }
    } else if !(shapes[i] is Text) && !(shapes[i] is Bezier) {
        let last = all[before.len() as int];
        assert(all[before.len() as int].0 == last.0);
    }
}

/// The frame of a selected object follows every line, rectangle, circle, arc and polygon of it.
pub proof fn frames_follow_what_they_frame(
    shapes: Seq<Shape>,
    from: int,
    to: int,
    halo: crate::double::Double,
    palette: crate::theme::Palette,
    i: int,
)
    requires
        from <= i < to,
    ensures
        ({
            let all = crate::encode::frame_round(shapes, from, to, halo, palette);
            &&& shapes[i] matches Shape::Line { from: a, to: b, .. } ==> crate::painting::traces(
                all,
                Traced::Line(a, b),
            )
            &&& shapes[i] matches Shape::Rect { bounds, .. } ==> crate::painting::traces(
                all,
                Traced::Rect(bounds),
            )
            &&& shapes[i] matches Shape::Circle { center, radius, .. } ==> crate::painting::traces(
                all,
                Traced::Circle(center, radius),
            )
            &&& shapes[i] matches Shape::Arc { start, mid, end, .. } ==> crate::painting::traces(
                all,
                Traced::Bow(start, mid, end),
            )
            &&& shapes[i] matches Shape::Polyline { points, closed, .. }
                ==> crate::painting::traces(
                all,
                Traced::Path(crate::encode::polyline(points, closed)),
            )
        }),
{
    lemma_framed(shapes, from, to, halo, palette, i);
}

/// References are ranked by where they stand in the drawing: of two ranks the lower is that of the
/// reference that stands first, and no reference that was found is left without a rank.
pub proof fn references_rank_by_their_place(found: Seq<Found>, a: int, b: int)
    requires
        found.len() <= usize::MAX,
        0 <= a < found.len(),
        0 <= b < found.len(),
        found[a].at < found[b].at,
    ensures
        ({
            let ranks = crate::scene::numbered(found);
            exists|k: int, l: int|
                #![trigger ranks[k], ranks[l]]
                0 <= k < l < ranks.len() && ranks[k].rank < ranks[l].rank && ranks[k].reference
                    == found[a].reference && ranks[l].reference == found[b].reference
        }),
{
    let lt = crate::scene::by_place(found);
    let order = crate::ordering::stable_by(found.len(), lt);
    let ranks = crate::scene::numbered(found);
    assert(crate::stl_sort::strict_weak_order(lt));
    crate::ordering::stable_order_leaves_out_nothing(found.len(), lt);
    assert(order.contains(a as usize));
    assert(order.contains(b as usize));
    let k = choose|k: int| 0 <= k < order.len() && order[k] == a as usize;
    let l = choose|l: int| 0 <= l < order.len() && order[l] == b as usize;
    assert(lt(a as usize, b as usize));
    if l < k {
        assert(lt(order[l], order[k]) || (!lt(order[k], order[l]) && order[l] < order[k]));
    }
    assert(ranks[k].reference == found[a].reference);
    assert(ranks[l].reference == found[b].reference);
}

} // verus!
