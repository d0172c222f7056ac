//! A schematic's picture as paths, each filled or stroked, for the painter to take over.

use crate::double::{ratio, Double};
use crate::geometry::{greater, Bounds, Point};
use crate::paint::{opaque, with_alpha, Paint};
use crate::primitives::{Primitive, StrokeStyle};
use crate::scene::ColorRole;
use crate::screen::pixels;
use crate::theme::{role_color, Palette};
use vstd::prelude::*;

verus! {

/// A step of a path.
#[derive(Clone, Copy, PartialEq, Eq, Structural, Debug)]
pub enum Step {
    Move(Point),
    Line(Point),
    Curve(Point, Point, Point),
    Close,
}

/// What is filled or stroked.
pub enum Trace {
    Line(Point, Point),
    Path(Vec<Step>),
    Rect(Bounds),
    /// Four quarters of a circle of the given radius, from the first point to each of the rest.
    Quarters(Vec<Point>, Double),
    Circle(Point, Double),
    /// An arc by its start, a point on it and its end.
    Arc(Point, Point, Point),
    /// The part of a circle from a start over a point on it to an end.
    Bow(Point, Point, Point),
    /// The text of the primitive with the given number.
    Words(usize),
}

/// What is filled or stroked, as a value.
pub ghost enum Traced {
    Line(Point, Point),
    Path(Seq<Step>),
    Rect(Bounds),
    Quarters(Seq<Point>, Double),
    Circle(Point, Double),
    Arc(Point, Point, Point),
    Bow(Point, Point, Point),
    Words(int),
}

/// How it is drawn. A round stroke has round ends and corners.
#[derive(Clone, Copy, PartialEq, Eq, Structural, Debug)]
pub enum Ink {
    Fill(Paint),
    Stroke { width: Double, round: bool, paint: Paint },
}

/// A part of the picture.
pub struct Drawn {
    pub trace: Trace,
    pub ink: Ink,
}

impl Trace {
    pub open spec fn model(self) -> Traced {
        match self {
            Trace::Line(a, b) => Traced::Line(a, b),
            Trace::Path(steps) => Traced::Path(steps@),
            Trace::Rect(bounds) => Traced::Rect(bounds),
            Trace::Quarters(ends, radius) => Traced::Quarters(ends@, radius),
            Trace::Circle(center, radius) => Traced::Circle(center, radius),
            Trace::Arc(a, b, c) => Traced::Arc(a, b, c),
            Trace::Bow(a, b, c) => Traced::Bow(a, b, c),
            Trace::Words(i) => Traced::Words(i as int),
        }
    }
}

impl Drawn {
    pub open spec fn model(self) -> (Traced, Ink) {
        (self.trace.model(), self.ink)
    }
}

/// The parts of a picture, as values.
pub open spec fn parts(drawn: Seq<Drawn>) -> Seq<(Traced, Ink)> {
    drawn.map_values(|d: Drawn| d.model())
}

/// A coordinate with four decimals, in single precision.
pub open spec fn svg_number(v: Double) -> Double {
    v.spec_product(crate::screen::px(10_000)).spec_round().spec_quotient(
        crate::screen::px(10_000),
    ).spec_single()
}

/// A point with its coordinates in four decimals.
pub open spec fn svg_place(p: Point) -> Point {
    Point { x: svg_number(p.x), y: svg_number(p.y) }
}

/// A coordinate with four decimals, in single precision.
pub fn svg_f32(v: Double) -> (r: Double)
    requires
        crate::plane::held(v),
    ensures
        r == svg_number(v),
        r.wf(),
        r.within(0x3100_0000_0000),
{
    let tenthousand = pixels(10_000);
    v.times(tenthousand).rounded_away().divided_by(tenthousand).single()
}

/// A point with its coordinates in four decimals.
pub fn svg_point(p: Point) -> (r: Point)
    requires
        crate::plane::held_point(p),
    ensures
        r == svg_place(p),
{
    Point { x: svg_f32(p.x), y: svg_f32(p.y) }
}

/// The corners of a rectangle by its corner, width and height in single precision.
pub open spec fn svg_box(b: Bounds) -> Bounds {
    let x = b.min_x.spec_single();
    let y = b.min_y.spec_single();
    Bounds {
        min_x: x,
        min_y: y,
        max_x: x.spec_sum(b.max_x.spec_difference(b.min_x).spec_single()).spec_single(),
        max_y: y.spec_sum(b.max_y.spec_difference(b.min_y).spec_single()).spec_single(),
    }
}

/// The corners of a rectangle by its corner, width and height in single precision.
pub fn svg_rect(b: Bounds) -> (r: Bounds)
    requires
        crate::plane::held(b.min_x),
        crate::plane::held(b.min_y),
        crate::plane::held(b.max_x),
        crate::plane::held(b.max_y),
    ensures
        r == svg_box(b),
{
    let x = b.min_x.single();
    let y = b.min_y.single();
    Bounds {
        min_x: x,
        min_y: y,
        max_x: x.plus(b.max_x.minus(b.min_x).single()).single(),
        max_y: y.plus(b.max_y.minus(b.min_y).single()).single(),
    }
}

/// Where the quarters of a circle meet: right, below, left, above and right again, all in single
/// precision.
pub open spec fn quarters(center: Point, radius: Double) -> Seq<Point> {
    let c = svg_place(center);
    let r = svg_number(radius);
    let right = Point { x: c.x.spec_sum(r).spec_single(), y: c.y };
    seq![
        right,
        Point { x: c.x, y: c.y.spec_sum(r).spec_single() },
        Point { x: c.x.spec_difference(r).spec_single(), y: c.y },
        Point { x: c.x, y: c.y.spec_difference(r).spec_single() },
        right,
    ]
}

/// Where the quarters of a circle meet.
pub fn svg_circle(center: Point, radius: Double) -> (r: (Vec<Point>, Double))
    requires
        crate::plane::held_point(center),
        crate::plane::held(radius),
    ensures
        r.0@ == quarters(center, radius),
        r.1 == svg_number(radius),
{
    let x = svg_f32(center.x);
    let y = svg_f32(center.y);
    let reach = svg_f32(radius);
    let right = Point { x: x.plus(reach).single(), y };
    let mut ends: Vec<Point> = Vec::new();
    ends.push(right);
    ends.push(Point { x, y: y.plus(reach).single() });
    ends.push(Point { x: x.minus(reach).single(), y });
    ends.push(Point { x, y: y.minus(reach).single() });
    ends.push(right);
    proof {
        assert(ends@ =~= quarters(center, radius));
    }
    (ends, reach)
}

/// The steps along the first `n` points.
pub open spec fn line_steps(points: Seq<Point>, n: nat) -> Seq<Step>
    decreases n,
{
    if n == 0 {
        Seq::empty()
    } else if n == 1 {
        seq![Step::Move(svg_place(points[0]))]
    } else {
        line_steps(points, (n - 1) as nat).push(Step::Line(svg_place(points[n - 1])))
    }
}

/// The path along points, closed where there are any.
pub open spec fn polyline(points: Seq<Point>, closed: bool) -> Seq<Step> {
    let steps = line_steps(points, points.len());
    if closed && points.len() > 0 {
        steps.push(Step::Close)
    } else {
        steps
    }
}

/// The path along points, closed where there are any.
pub fn polyline_path(points: &Vec<Point>, closed: bool) -> (r: Vec<Step>)
    requires
        crate::primitives::held_points(points@),
    ensures
        r@ == polyline(points@, closed),
{
    let mut steps: Vec<Step> = Vec::new();
    let mut i: usize = 0;
    while i < points.len()
        invariant
            i <= points@.len(),
            crate::primitives::held_points(points@),
            steps@ == line_steps(points@, i as nat),
        decreases points@.len() - i,
    {
        let p = svg_point(points[i]);
        if i == 0 {
            steps.push(Step::Move(p));
            proof {
                assert(steps@ =~= line_steps(points@, 1));
            }
        } else {
            steps.push(Step::Line(p));
        }
        i = i + 1;
    }
    if closed && points.len() > 0 {
        steps.push(Step::Close);
    }
    steps
}

/// A point as the picture takes it, or as it is.
pub open spec fn taken(p: Point, exact: bool) -> Point {
    if exact {
        p
    } else {
        svg_place(p)
    }
}

fn take_point(p: Point, exact: bool) -> (r: Point)
    requires
        crate::plane::held_point(p),
    ensures
        r == taken(p, exact),
{
    if exact {
        p
    } else {
        svg_point(p)
    }
}

/// The first `k` curves from the first point on, each by three points.
pub open spec fn curve_steps(points: Seq<Point>, exact: bool, k: nat) -> Seq<Step>
    decreases k,
{
    if k == 0 {
        seq![Step::Move(taken(points[0], exact))]
    } else {
        curve_steps(points, exact, (k - 1) as nat).push(
            Step::Curve(
                taken(points[3 * k - 2], exact),
                taken(points[3 * k - 1], exact),
                taken(points[3 * k as int], exact),
            ),
        )
    }
}

/// The curve along points; points that do not fill a curve are left out.
pub open spec fn bezier(points: Seq<Point>, exact: bool) -> Seq<Step> {
    curve_steps(points, exact, ((points.len() - 1) / 3) as nat)
}

/// The curve along points; points that do not fill a curve are left out.
pub fn bezier_path(points: &Vec<Point>, exact: bool) -> (r: Vec<Step>)
    requires
        points@.len() > 0,
        crate::primitives::held_points(points@),
    ensures
        r@ == bezier(points@, exact),
{
    let mut steps: Vec<Step> = Vec::new();
    steps.push(Step::Move(take_point(points[0], exact)));
    let total: usize = points.len();
    let count: usize = (total - 1) / 3;
    let mut k: usize = 0;
    proof {
        assert(steps@ =~= curve_steps(points@, exact, 0));
    }
    while k < count
        invariant
            k <= count,
            total == points@.len(),
            count == (total - 1) / 3,
            total > 0,
            crate::primitives::held_points(points@),
            steps@ == curve_steps(points@, exact, k as nat),
        decreases count - k,
    {
        assert(3 * k + 3 <= total - 1);
        let a = take_point(points[3 * k + 1], exact);
        let b = take_point(points[3 * k + 2], exact);
        let c = take_point(points[3 * k + 3], exact);
        steps.push(Step::Curve(a, b, c));
        k = k + 1;
    }
    steps
}

/// The least width of a line that has to be seen.
pub open spec fn least_width() -> Double {
    crate::double::spec_ratio(5, 100)
}

/// A width that can be seen.
pub open spec fn seen_width(style: StrokeStyle) -> Double {
    crate::geometry::spec_greater(style.width_mm, least_width())
}

/// A width that can be seen.
pub fn find_seen_width(style: StrokeStyle) -> (r: Double)
    requires
        crate::primitives::plain_style(style),
    ensures
        r == seen_width(style),
        r.wf(),
        r.within(0x100_0000),
{
    greater(style.width_mm, ratio(5, 100))
}

/// A round stroke in the colour of a role.
pub open spec fn round_ink(width: Double, role: ColorRole, palette: Palette) -> Ink {
    Ink::Stroke {
        width: width.spec_single(),
        round: true,
        paint: crate::paint::solid(crate::theme::color_of(role, palette)),
    }
}

fn round_stroke(width: Double, role: ColorRole, palette: Palette) -> (r: Ink)
    requires
        width.wf(),
        width.within(0x100_0000),
    ensures
        r == round_ink(width, role, palette),
{
    Ink::Stroke { width: width.single(), round: true, paint: opaque(role_color(role, palette)) }
}

/// A shape that may be filled, and is stroked where its line has a width.
pub open spec fn filled_and_stroked(
    before: Seq<(Traced, Ink)>,
    trace: Traced,
    fill: bool,
    filling: crate::theme::Color,
    style: StrokeStyle,
    palette: Palette,
) -> Seq<(Traced, Ink)> {
    let filled = if fill {
        before.push((trace, Ink::Fill(crate::paint::solid(filling))))
    } else {
        before
    };
    if crate::screen::px(0).spec_less(style.width_mm) {
        filled.push((trace, round_ink(style.width_mm, style.role, palette)))
    } else {
        filled
    }
}

/// The picture with one shape more. `i` is the shape's number.
pub open spec fn drawn_after(
    before: Seq<(Traced, Ink)>,
    shape: crate::primitives::Shape,
    i: int,
    palette: Palette,
) -> Seq<(Traced, Ink)> {
    match shape {
        crate::primitives::Shape::Line { from, to, style } => before.push(
            (
                Traced::Line(svg_place(from), svg_place(to)),
                round_ink(seen_width(style), style.role, palette),
            ),
        ),
        crate::primitives::Shape::Polyline { points, closed, style, fill } => filled_and_stroked(
            before,
            Traced::Path(polyline(points, closed)),
            fill,
            palette.fill,
            style,
            palette,
        ),
        crate::primitives::Shape::Rect { bounds, style, fill } => filled_and_stroked(
            before,
            Traced::Rect(svg_box(bounds)),
            fill,
            if style.role == ColorRole::Symbol {
                palette.fill
            } else {
                crate::theme::color_of(style.role, palette)
            },
            style,
            palette,
        ),
        crate::primitives::Shape::Circle { center, radius, style, fill } => filled_and_stroked(
            before,
            Traced::Quarters(quarters(center, radius), svg_number(radius)),
            fill,
            if style.role == ColorRole::Junction {
                palette.junction
            } else {
                palette.fill
            },
            style,
            palette,
        ),
        crate::primitives::Shape::Arc { start, mid, end, style } => before.push(
            (Traced::Arc(start, mid, end), round_ink(seen_width(style), style.role, palette)),
        ),
        crate::primitives::Shape::Bezier { points, style } => if points.len() == 0 {
            before
        } else {
            before.push(
                (
                    Traced::Path(bezier(points, false)),
                    round_ink(seen_width(style), style.role, palette),
                ),
            )
        },
        crate::primitives::Shape::Text(words) => before.push(
            (
                Traced::Words(i),
                round_ink(words.stroke_width_mm, words.role, palette),
            ),
        ),
    }
}

/// The number lies in one of the ranges, each from its first number up to, and without, its
/// second.
pub open spec fn in_ranges(i: int, ranges: Seq<(usize, usize)>) -> bool {
    exists|k: int| 0 <= k < ranges.len() && (#[trigger] ranges[k]).0 <= i < ranges[k].1
}

/// The picture of the shapes from `from` up to, and without, `to`, but for those in the ranges.
pub open spec fn picture(
    shapes: Seq<crate::primitives::Shape>,
    from: int,
    to: int,
    without: Seq<(usize, usize)>,
    palette: Palette,
) -> Seq<(Traced, Ink)>
    decreases to - from,
{
    if to <= from {
        Seq::empty()
    } else {
        let before = picture(shapes, from, to - 1, without, palette);
        if in_ranges(to - 1, without) {
            before
        } else {
            drawn_after(before, shapes[to - 1], to - 1, palette)
        }
    }
}

fn add_part(picture: &mut Vec<Drawn>, trace: Trace, ink: Ink)
    ensures
        parts(final(picture)@) == parts(old(picture)@).push((trace.model(), ink)),
{
    picture.push(Drawn { trace, ink });
    proof {
        assert(parts(picture@) =~= parts(old(picture)@).push((trace.model(), ink)));
    }
}

fn is_stroked(style: StrokeStyle) -> (r: bool)
    requires
        crate::primitives::plain_style(style),
    ensures
        r == crate::screen::px(0).spec_less(style.width_mm),
{
    pixels(0).less(style.width_mm)
}

fn draw_polyline(
    picture: &mut Vec<Drawn>,
    points: &Vec<Point>,
    closed: bool,
    style: StrokeStyle,
    fill: bool,
    palette: Palette,
)
    requires
        crate::primitives::held_points(points@),
        crate::primitives::plain_style(style),
    ensures
        parts(final(picture)@) == filled_and_stroked(
            parts(old(picture)@),
            Traced::Path(polyline(points@, closed)),
            fill,
            palette.fill,
            style,
            palette,
        ),
{
    if fill {
        add_part(picture, Trace::Path(polyline_path(points, closed)), Ink::Fill(opaque(palette.fill)));
    }
    if is_stroked(style) {
        let ink = round_stroke(style.width_mm, style.role, palette);
        add_part(picture, Trace::Path(polyline_path(points, closed)), ink);
    }
}

fn draw_rect(
    picture: &mut Vec<Drawn>,
    bounds: Bounds,
    style: StrokeStyle,
    fill: bool,
    palette: Palette,
)
    requires
        crate::plane::held(bounds.min_x),
        crate::plane::held(bounds.min_y),
        crate::plane::held(bounds.max_x),
        crate::plane::held(bounds.max_y),
        crate::primitives::plain_style(style),
    ensures
        parts(final(picture)@) == filled_and_stroked(
            parts(old(picture)@),
            Traced::Rect(svg_box(bounds)),
            fill,
            if style.role == ColorRole::Symbol {
                palette.fill
            } else {
                crate::theme::color_of(style.role, palette)
            },
            style,
            palette,
        ),
{
    let rect = svg_rect(bounds);
    if fill {
        let filling = if style.role == ColorRole::Symbol {
            palette.fill
        } else {
            role_color(style.role, palette)
        };
        add_part(picture, Trace::Rect(rect), Ink::Fill(opaque(filling)));
    }
    if is_stroked(style) {
        let ink = round_stroke(style.width_mm, style.role, palette);
        add_part(picture, Trace::Rect(rect), ink);
    }
}

fn draw_circle(
    picture: &mut Vec<Drawn>,
    center: Point,
    radius: Double,
    style: StrokeStyle,
    fill: bool,
    palette: Palette,
)
    requires
        crate::plane::held_point(center),
        crate::plane::held(radius),
        crate::primitives::plain_style(style),
    ensures
        parts(final(picture)@) == filled_and_stroked(
            parts(old(picture)@),
            Traced::Quarters(quarters(center, radius), svg_number(radius)),
            fill,
            if style.role == ColorRole::Junction {
                palette.junction
            } else {
                palette.fill
            },
            style,
            palette,
        ),
{
    if fill {
        let filling = if style.role == ColorRole::Junction {
            palette.junction
        } else {
            palette.fill
        };
        let (ends, r) = svg_circle(center, radius);
        add_part(picture, Trace::Quarters(ends, r), Ink::Fill(opaque(filling)));
    }
    if is_stroked(style) {
        let ink = round_stroke(style.width_mm, style.role, palette);
        let (ends, r) = svg_circle(center, radius);
        add_part(picture, Trace::Quarters(ends, r), ink);
    }
}

fn draw_primitive(picture: &mut Vec<Drawn>, primitive: &Primitive, i: usize, palette: Palette)
    requires
        primitive.wf(),
    ensures
        parts(final(picture)@) == drawn_after(
            parts(old(picture)@),
            primitive.model(),
            i as int,
            palette,
        ),
{
    match primitive {
        Primitive::Line { from, to, style } => {
            let ink = round_stroke(find_seen_width(*style), style.role, palette);
            add_part(picture, Trace::Line(svg_point(*from), svg_point(*to)), ink);
        },
        Primitive::Polyline { points, closed, style, fill } => {
            draw_polyline(picture, points, *closed, *style, *fill, palette);
        },
        Primitive::Rect { bounds, style, fill } => {
            draw_rect(picture, *bounds, *style, *fill, palette);
        },
        Primitive::Circle { center, radius, style, fill } => {
            draw_circle(picture, *center, *radius, *style, *fill, palette);
        },
        Primitive::Arc { start, mid, end, style } => {
            let ink = round_stroke(find_seen_width(*style), style.role, palette);
            add_part(picture, Trace::Arc(*start, *mid, *end), ink);
        },
        Primitive::Bezier { points, style } => {
            if points.len() > 0 {
                let ink = round_stroke(find_seen_width(*style), style.role, palette);
                add_part(picture, Trace::Path(bezier_path(points, false)), ink);
            }
        },
        Primitive::Text(run) => {
            let ink = round_stroke(run.stroke_width_mm, run.role, palette);
            add_part(picture, Trace::Words(i), ink);
        },
    }
}

fn is_excluded(i: usize, ranges: &Vec<(usize, usize)>) -> (r: bool)
    ensures
        r == in_ranges(i as int, ranges@),
{
    let mut k: usize = 0;
    while k < ranges.len()
        invariant
            k <= ranges@.len(),
            forall|j: int| 0 <= j < k ==> !((#[trigger] ranges@[j]).0 <= i < ranges@[j].1),
        decreases ranges@.len() - k,
    {
        let range = ranges[k];
        if range.0 <= i && i < range.1 {
            assert(ranges@[k as int].0 <= i < ranges@[k as int].1);
            return true;
        }
        k = k + 1;
    }
    false
}

/// The picture of the primitives from `from` up to, and without, `to`, but for those in the
/// ranges, which are painted elsewhere. An arc through three points and a text are left to the
/// painter; all other parts are paths.
pub fn encode_scene_without_ranges(
    primitives: &Vec<Primitive>,
    from: usize,
    to: usize,
    excluded: &Vec<(usize, usize)>,
    palette: Palette,
) -> (r: Vec<Drawn>)
    requires
        crate::primitives::all_wf(primitives@),
        from <= to <= primitives@.len(),
    ensures
        parts(r@) == picture(
            crate::primitives::shapes(primitives@),
            from as int,
            to as int,
            excluded@,
            palette,
        ),
{
    let mut drawn: Vec<Drawn> = Vec::new();
    let mut i: usize = from;
    proof {
        assert(parts(drawn@) =~= Seq::<(Traced, Ink)>::empty());
    }
    while i < to
        invariant
            from <= i <= to <= primitives@.len(),
            crate::primitives::all_wf(primitives@),
            parts(drawn@) == picture(
                crate::primitives::shapes(primitives@),
                from as int,
                i as int,
                excluded@,
                palette,
            ),
        decreases to - i,
    {
        if !is_excluded(i, excluded) {
            draw_primitive(&mut drawn, &primitives[i], i, palette);
        }
        i = i + 1;
    }
    drawn
}

/// The picture of the primitives from `from` up to, and without, `to`.
pub fn encode_primitives(primitives: &Vec<Primitive>, from: usize, to: usize, palette: Palette) -> (r:
    Vec<Drawn>)
    requires
        crate::primitives::all_wf(primitives@),
        from <= to <= primitives@.len(),
    ensures
        parts(r@) == picture(
            crate::primitives::shapes(primitives@),
            from as int,
            to as int,
            Seq::empty(),
            palette,
        ),
{
    let none: Vec<(usize, usize)> = Vec::new();
    let r = encode_scene_without_ranges(primitives, from, to, &none, palette);
    proof {
        assert(none@ =~= Seq::<(usize, usize)>::empty());
    }
    r
}

/// How wide the frame round a selected object is, on each side and together, in millimetres.
pub open spec fn halo_width(scale: Double) -> Double {
    crate::screen::px(3).spec_quotient(
        crate::geometry::spec_greater(scale, crate::geometry::least_scale()),
    )
}

fn find_halo(scale: Double) -> (r: Double)
    requires
        crate::screen::fair(scale),
    ensures
        r == halo_width(scale),
        r.wf(),
        r.within(0x101_0000),
{
    let least = Double { negative: false, mantissa: 0x10_624d_d2f1_a9fc, exponent: -62 };
    let divisor = greater(scale, least);
    proof {
        crate::geometry::at_least_positive_is_not_zero(divisor, least);
    }
    pixels(3).divided_by(divisor)
}

/// The ink of the frame round a selected object.
pub open spec fn halo_ink(style: StrokeStyle, halo: Double, round: bool, palette: Palette) -> Ink {
    let width = seen_width(style).spec_sum(halo);
    Ink::Stroke {
        width: if round {
            width.spec_single()
        } else {
            width
        },
        round,
        paint: crate::paint::sheer(palette.selection, 76),
    }
}

fn halo_stroke(style: StrokeStyle, halo: Double, round: bool, palette: Palette) -> (r: Ink)
    requires
        crate::primitives::plain_style(style),
        halo.wf(),
        halo.within(0x101_0000),
    ensures
        r == halo_ink(style, halo, round, palette),
{
    let width = find_seen_width(style).plus(halo);
    Ink::Stroke {
        width: if round {
            width.single()
        } else {
            width
        },
        round,
        paint: with_alpha(palette.selection, 76),
    }
}

/// The frame with that of one shape more. A text has none.
pub open spec fn framed_after(
    before: Seq<(Traced, Ink)>,
    shape: crate::primitives::Shape,
    halo: Double,
    palette: Palette,
) -> Seq<(Traced, Ink)> {
    match shape {
        crate::primitives::Shape::Line { from, to, style } => before.push(
            (Traced::Line(from, to), halo_ink(style, halo, false, palette)),
        ),
        crate::primitives::Shape::Polyline { points, closed, style, .. } => before.push(
            (Traced::Path(polyline(points, closed)), halo_ink(style, halo, false, palette)),
        ),
        crate::primitives::Shape::Rect { bounds, style, .. } => before.push(
            (Traced::Rect(bounds), halo_ink(style, halo, false, palette)),
        ),
        crate::primitives::Shape::Circle { center, radius, style, .. } => before.push(
            (Traced::Circle(center, radius), halo_ink(style, halo, false, palette)),
        ),
        crate::primitives::Shape::Arc { start, mid, end, style } => before.push(
            (Traced::Bow(start, mid, end), halo_ink(style, halo, true, palette)),
        ),
        crate::primitives::Shape::Bezier { points, style } => if points.len() == 0 {
            before
        } else {
            before.push((Traced::Path(bezier(points, true)), halo_ink(style, halo, false, palette)))
        },
        crate::primitives::Shape::Text(_) => before,
    }
}

/// The frame round the shapes from `from` up to, and without, `to`.
pub open spec fn frame_round(
    shapes: Seq<crate::primitives::Shape>,
    from: int,
    to: int,
    halo: Double,
    palette: Palette,
) -> Seq<(Traced, Ink)>
    decreases to - from,
{
    if to <= from {
        Seq::empty()
    } else {
        framed_after(
            frame_round(shapes, from, to - 1, halo, palette),
            shapes[to - 1],
            halo,
            palette,
        )
    }
}

fn frame_primitive(frame: &mut Vec<Drawn>, primitive: &Primitive, halo: Double, palette: Palette)
    requires
        primitive.wf(),
        halo.wf(),
        halo.within(0x101_0000),
    ensures
        parts(final(frame)@) == framed_after(
            parts(old(frame)@),
            primitive.model(),
            halo,
            palette,
        ),
{
    match primitive {
        Primitive::Line { from, to, style } => {
            add_part(frame, Trace::Line(*from, *to), halo_stroke(*style, halo, false, palette));
        },
        Primitive::Polyline { points, closed, style, .. } => {
            let ink = halo_stroke(*style, halo, false, palette);
            add_part(frame, Trace::Path(polyline_path(points, *closed)), ink);
        },
        Primitive::Rect { bounds, style, .. } => {
            add_part(frame, Trace::Rect(*bounds), halo_stroke(*style, halo, false, palette));
        },
        Primitive::Circle { center, radius, style, .. } => {
            let ink = halo_stroke(*style, halo, false, palette);
            add_part(frame, Trace::Circle(*center, *radius), ink);
        },
        Primitive::Arc { start, mid, end, style } => {
            let ink = halo_stroke(*style, halo, true, palette);
            add_part(frame, Trace::Bow(*start, *mid, *end), ink);
        },
        Primitive::Bezier { points, style } => {
            if points.len() > 0 {
                let ink = halo_stroke(*style, halo, false, palette);
                add_part(frame, Trace::Path(bezier_path(points, true)), ink);
            }
        },
        Primitive::Text(_) => {},
    }
}

/// The frame round a selected object, whose primitives are those from `from` up to, and without,
/// `to`, on a page shown at the given scale. Nothing where there are no such primitives.
pub fn append_selection(
    primitives: &Vec<Primitive>,
    from: usize,
    to: usize,
    scale: Double,
    palette: Palette,
) -> (r: Vec<Drawn>)
    requires
        crate::primitives::all_wf(primitives@),
        crate::screen::fair(scale),
    ensures
        parts(r@) == (if from <= to <= primitives@.len() {
            frame_round(
                crate::primitives::shapes(primitives@),
                from as int,
                to as int,
                halo_width(scale),
                palette,
            )
        } else {
            Seq::empty()
        }),
{
    let mut frame: Vec<Drawn> = Vec::new();
    proof {
        assert(parts(frame@) =~= Seq::<(Traced, Ink)>::empty());
    }
    if from > to || to > primitives.len() {
        return frame;
    }
    let halo = find_halo(scale);
    let mut i: usize = from;
    while i < to
        invariant
            from <= i <= to <= primitives@.len(),
            crate::primitives::all_wf(primitives@),
            halo.wf(),
            halo.within(0x101_0000),
            parts(frame@) == frame_round(
                crate::primitives::shapes(primitives@),
                from as int,
                i as int,
                halo,
                palette,
            ),
        decreases to - i,
    {
        frame_primitive(&mut frame, &primitives[i], halo, palette);
        i = i + 1;
    }
    frame
}

/// The coefficient of a map that leaves a picture as it is.
pub open spec fn identity_part(i: int) -> Double {
    if i == 0 || i == 3 {
        crate::screen::px(1)
    } else {
        crate::screen::px(0)
    }
}

/// A coefficient, or that of the identity where it is as good as that.
pub open spec fn canonical_part(c: Double, i: int) -> Double {
    if c.spec_difference(identity_part(i)).spec_abs().spec_less(
        crate::double::spec_ratio(1, 100_000),
    ) {
        identity_part(i)
    } else {
        c
    }
}

/// A map of the plane by its six coefficients, without what rounding left of the identity.
pub fn canonical_svg_transform(coefficients: &Vec<Double>) -> (r: Vec<Double>)
    requires
        coefficients@.len() == 6,
        forall|i: int| 0 <= i < 6 ==> crate::screen::fair(#[trigger] coefficients@[i]),
    ensures
        r@ == Seq::new(6, |i: int| canonical_part(coefficients@[i], i)),
{
    let near = ratio(1, 100_000);
    let mut r: Vec<Double> = Vec::new();
    let mut i: usize = 0;
    while i < 6
        invariant
            i <= 6,
            near == crate::double::spec_ratio(1, 100_000),
            near.wf(),
            coefficients@.len() == 6,
            forall|k: int| 0 <= k < 6 ==> crate::screen::fair(#[trigger] coefficients@[k]),
            r@.len() == i,
            forall|k: int| 0 <= k < i ==> #[trigger] r@[k] == canonical_part(coefficients@[k], k),
        decreases 6 - i,
    {
        let target = pixels(
            if i == 0 || i == 3 {
                1
            } else {
                0
            },
        );
        let c = coefficients[i];
        if c.minus(target).abs().less(near) {
            r.push(target);
        } else {
            r.push(c);
        }
        i = i + 1;
    }
    proof {
        assert(r@ =~= Seq::new(6, |i: int| canonical_part(coefficients@[i], i)));
    }
    r
}

/// Leaving out shapes changes nothing of a part of the picture that has none of them.
pub proof fn leaving_out_keeps_the_rest(
    shapes: Seq<crate::primitives::Shape>,
    from: int,
    to: int,
    palette: Palette,
    without: Seq<(usize, usize)>,
)
    requires
        forall|i: int| from <= i < to ==> !in_ranges(i, without),
    ensures
        picture(shapes, from, to, without, palette) == picture(
            shapes,
            from,
            to,
            Seq::empty(),
            palette,
        ),
    decreases to - from,
{
    if to > from {
        leaving_out_keeps_the_rest(shapes, from, to - 1, palette, without);
        assert(!in_ranges(to - 1, Seq::<(usize, usize)>::empty()));
    }
}

} // verus!
