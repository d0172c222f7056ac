//! What is drawn, and the boxes round it.

use crate::double::ratio;
use crate::double::Double;
use crate::geometry::Bounds;
use crate::geometry::Point;
use crate::kicad_font::layout_width;
use crate::plane::rotate_about;
use crate::plane::Query;
use crate::plane::Reply;
use crate::readers::is_hidden;
use crate::readers::TextAlign;
use crate::scene::ColorRole;
use crate::sexp::Node;
use crate::text_box::kicad_text_box;
use vstd::prelude::*;

verus! {

/// How a line is drawn.
#[derive(Clone, Copy, PartialEq, Eq, Structural, Debug)]
pub struct StrokeStyle {
    pub width_mm: Double,
    pub role: ColorRole,
}

/// A piece of text.
pub struct TextRun {
    pub position: Point,
    pub rotation_deg: Double,
    pub size_mm: Double,
    pub stroke_width_mm: Double,
    pub align: TextAlign,
    pub italic: bool,
    pub role: ColorRole,
    pub text: String,
}

/// Something that is drawn.
pub enum Primitive {
    Line { from: Point, to: Point, style: StrokeStyle },
    Polyline { points: Vec<Point>, closed: bool, style: StrokeStyle, fill: bool },
    Rect { bounds: Bounds, style: StrokeStyle, fill: bool },
    Circle { center: Point, radius: Double, style: StrokeStyle, fill: bool },
    Arc { start: Point, mid: Point, end: Point, style: StrokeStyle },
    Bezier { points: Vec<Point>, style: StrokeStyle },
    Text(TextRun),
}

/// A piece of text, as a value.
pub ghost struct Words {
    pub position: Point,
    pub rotation_deg: Double,
    pub size_mm: Double,
    pub stroke_width_mm: Double,
    pub align: TextAlign,
    pub italic: bool,
    pub role: ColorRole,
    pub text: Seq<char>,
}

/// Something that is drawn, as a value.
pub ghost enum Shape {
    Line { from: Point, to: Point, style: StrokeStyle },
    Polyline { points: Seq<Point>, closed: bool, style: StrokeStyle, fill: bool },
    Rect { bounds: Bounds, style: StrokeStyle, fill: bool },
    Circle { center: Point, radius: Double, style: StrokeStyle, fill: bool },
    Arc { start: Point, mid: Point, end: Point, style: StrokeStyle },
    Bezier { points: Seq<Point>, style: StrokeStyle },
    Text(Words),
}

impl TextRun {
    pub open spec fn model(self) -> Words {
        Words {
            position: self.position,
            rotation_deg: self.rotation_deg,
            size_mm: self.size_mm,
            stroke_width_mm: self.stroke_width_mm,
            align: self.align,
            italic: self.italic,
            role: self.role,
            text: self.text@,
        }
    }

    pub open spec fn wf(self) -> bool {
        &&& crate::plane::held_point(self.position)
        &&& self.size_mm.wf() && self.size_mm.within(3000)
        &&& self.stroke_width_mm.wf() && self.stroke_width_mm.within(3000)
        &&& self.text@.len() <= crate::kicad_font::LONGEST
    }
}

impl Primitive {
    pub open spec fn model(self) -> Shape {
        match self {
            Primitive::Line { from, to, style } => Shape::Line { from, to, style },
            Primitive::Polyline { points, closed, style, fill } => Shape::Polyline {
                points: points@,
                closed,
                style,
                fill,
            },
            Primitive::Rect { bounds, style, fill } => Shape::Rect { bounds, style, fill },
            Primitive::Circle { center, radius, style, fill } => Shape::Circle {
                center,
                radius,
                style,
                fill,
            },
            Primitive::Arc { start, mid, end, style } => Shape::Arc { start, mid, end, style },
            Primitive::Bezier { points, style } => Shape::Bezier { points: points@, style },
            Primitive::Text(run) => Shape::Text(run.model()),
        }
    }

    pub open spec fn wf(self) -> bool {
        match self {
            Primitive::Line { from, to, style } => crate::plane::held_point(from)
                && crate::plane::held_point(to) && plain_style(style),
            Primitive::Polyline { points, style, .. } => held_points(points@) && plain_style(
                style,
            ),
            Primitive::Rect { bounds, style, .. } => crate::plane::held(bounds.min_x)
                && crate::plane::held(bounds.min_y) && crate::plane::held(bounds.max_x)
                && crate::plane::held(bounds.max_y) && plain_style(style),
            Primitive::Circle { center, radius, style, .. } => crate::plane::held_point(center)
                && crate::plane::held(radius) && plain_style(style),
            Primitive::Arc { start, mid, end, style } => crate::plane::held_point(start)
                && crate::plane::held_point(mid) && crate::plane::held_point(end) && plain_style(
                style,
            ),
            Primitive::Bezier { points, style } => held_points(points@) && plain_style(style),
            Primitive::Text(run) => run.wf(),
        }
    }
}

pub open spec fn plain_style(style: StrokeStyle) -> bool {
    crate::plane::plain(style.width_mm)
}

pub open spec fn held_points(points: Seq<Point>) -> bool {
    forall|i: int| 0 <= i < points.len() ==> crate::plane::held_point(#[trigger] points[i])
}

/// The primitives as values.
pub open spec fn shapes(primitives: Seq<Primitive>) -> Seq<Shape> {
    primitives.map_values(|p: Primitive| p.model())
}

/// Every primitive is well formed.
pub open spec fn all_wf(primitives: Seq<Primitive>) -> bool {
    forall|i: int| 0 <= i < primitives.len() ==> (#[trigger] primitives[i]).wf()
}

/// The box round a corner of text, leaning where the text does.
pub open spec fn corner<F: Fn(Query) -> Reply>(
    f: F,
    x: Double,
    y: Double,
    words: Words,
) -> Point {
    let lean = if words.italic {
        x.spec_difference(y.spec_product(crate::double::spec_ratio(1, 8)))
    } else {
        x
    };
    crate::plane::rotated(f, Point { x: lean, y }, words.position, words.rotation_deg)
}

/// The left and the right end of a piece of text: it is as long as the text, or as its height
/// where that is more.
#[verifier::opaque]
pub open spec fn ends_of(words: Words) -> (Double, Double) {
    let width = crate::geometry::spec_greater(
        crate::kicad_font::layout_of(words.text, words.size_mm, words.stroke_width_mm),
        words.size_mm,
    );
    let left = match words.align {
        TextAlign::Left => Double::spec_zero(),
        TextAlign::Center => width.spec_neg().spec_quotient(crate::double::nearest(2, 0)),
        TextAlign::Right => width.spec_neg(),
    };
    (left, left.spec_sum(width))
}

/// The box round a piece of text, from a height above its position to a third of one below.
#[verifier::opaque]
pub open spec fn words_box<F: Fn(Query) -> Reply>(f: F, words: Words) -> Bounds {
    let (left, right) = ends_of(words);
    let top = words.size_mm.spec_neg();
    let bottom = words.size_mm.spec_product(crate::double::spec_ratio(35, 100));
    Bounds::round_points(
        seq![
            corner(f, left, top, words),
            corner(f, right, top, words),
            corner(f, right, bottom, words),
            corner(f, left, bottom, words),
        ],
        4,
    )
}

fn find_corner<F: Fn(Query) -> Reply + Copy>(f: F, x: Double, y: Double, run: &TextRun) -> (r: Point)
    requires
        crate::plane::is_plane(f),
        run.wf(),
        x.wf(),
        x.within(0x2000_0000_0000),
        y.wf(),
        y.within(5000),
    ensures
        r == corner(f, x, y, run.model()),
        r.wf(),
        crate::plane::close_point(r),
{
    let lean = if run.italic {
        x.minus(y.times(ratio(1, 8)))
    } else {
        x
    };
    rotate_about(f, Point { x: lean, y }, run.position, run.rotation_deg)
}

fn find_ends(run: &TextRun) -> (r: (Double, Double))
    requires
        run.wf(),
    ensures
        r == ends_of(run.model()),
        r.0.wf(),
        r.0.within(0x2000_0000_0000),
        r.1.wf(),
        r.1.within(0x2000_0000_0000),
{
    proof {
        reveal(ends_of);
    }
    let width = crate::geometry::greater(
        layout_width(run.text.as_str(), run.size_mm, run.stroke_width_mm),
        run.size_mm,
    );
    let left = match run.align {
        TextAlign::Left => crate::kicad_font::zero(),
        TextAlign::Center => width.negated().divided_by(Double::from_int(2)),
        TextAlign::Right => width.negated(),
    };
    (left, left.plus(width))
}

fn text_bounds<F: Fn(Query) -> Reply + Copy>(f: F, run: &TextRun) -> (r: Bounds)
    requires
        crate::plane::is_plane(f),
        run.wf(),
    ensures
        r == words_box(f, run.model()),
        r.wf(),
        crate::plane::close_bounds(r),
{
    proof {
        reveal(words_box);
    }
    let (left, right) = find_ends(run);
    let top = run.size_mm.negated();
    let bottom = run.size_mm.times(ratio(35, 100));
    let a = find_corner(f, left, top, run);
    let b = find_corner(f, right, top, run);
    let c = find_corner(f, right, bottom, run);
    let d = find_corner(f, left, bottom, run);
    crate::plane::box_round_four(a, b, c, d)
}

/// The smallest box round points, if there are any.
pub open spec fn round_all(points: Seq<Point>) -> Option<Bounds> {
    if points.len() == 0 {
        None
    } else {
        Some(Bounds::round_points(points, points.len()))
    }
}

/// The box round something that is drawn.
pub open spec fn box_of<F: Fn(Query) -> Reply>(f: F, shape: Shape) -> Option<Bounds> {
    match shape {
        Shape::Line { from, to, .. } => round_all(seq![from, to]),
        Shape::Polyline { points, .. } => round_all(points),
        Shape::Bezier { points, .. } => round_all(points),
        Shape::Rect { bounds, .. } => Some(bounds),
        Shape::Circle { center, radius, .. } => Some(
            Bounds {
                min_x: center.x.spec_difference(radius),
                min_y: center.y.spec_difference(radius),
                max_x: center.x.spec_sum(radius),
                max_y: center.y.spec_sum(radius),
            },
        ),
        Shape::Arc { start, mid, end, .. } => round_all(seq![start, mid, end]),
        Shape::Text(words) => Some(words_box(f, words)),
    }
}

fn bounds_of_points(points: &Vec<Point>) -> (r: Option<Bounds>)
    requires
        held_points(points@),
    ensures
        r == round_all(points@),
        r matches Some(b) ==> b.wf() && crate::plane::close_bounds(b),
{
    if points.len() == 0 {
        return None;
    }
    let first = points[0];
    let mut bounds = Bounds { min_x: first.x, min_y: first.y, max_x: first.x, max_y: first.y };
    let mut i: usize = 1;
    assert(crate::plane::held_point(points@[0]));
    while i < points.len()
        invariant
            1 <= i <= points@.len(),
            held_points(points@),
            bounds == Bounds::round_points(points@, i as nat),
            bounds.wf(),
            crate::plane::close_bounds(bounds),
        decreases points@.len() - i,
    {
        assert(crate::plane::held_point(points@[i as int]));
        bounds.include_point(points[i]);
        i = i + 1;
    }
    Some(bounds)
}

fn bounds_of_line(from: Point, to: Point) -> (r: Bounds)
    requires
        crate::plane::held_point(from),
        crate::plane::held_point(to),
    ensures
        Some(r) == round_all(seq![from, to]),
        r.wf(),
        crate::plane::held_bounds(r),
{
    let mut bounds = Bounds { min_x: from.x, min_y: from.y, max_x: from.x, max_y: from.y };
    let ghost all = seq![from, to];
    assert(bounds == Bounds::round_points(all, 1));
    bounds.include_point(to);
    assert(bounds == Bounds::round_points(all, 2));
    bounds
}

impl Primitive {
    /// The box round something that is drawn.
    pub fn bounds<F: Fn(Query) -> Reply + Copy>(&self, f: F) -> (r: Option<Bounds>)
        requires
            crate::plane::is_plane(f),
            self.wf(),
        ensures
            r == box_of(f, self.model()),
            r matches Some(b) ==> b.wf() && crate::plane::close_bounds(b),
    {
        match self {
            Primitive::Line { from, to, .. } => Some(bounds_of_line(*from, *to)),
            Primitive::Polyline { points, .. } => bounds_of_points(points),
            Primitive::Bezier { points, .. } => bounds_of_points(points),
            Primitive::Rect { bounds, .. } => Some(*bounds),
            Primitive::Circle { center, radius, .. } => Some(
                Bounds {
                    min_x: center.x.minus(*radius),
                    min_y: center.y.minus(*radius),
                    max_x: center.x.plus(*radius),
                    max_y: center.y.plus(*radius),
                },
            ),
            Primitive::Arc { start, mid, end, .. } => {
                let mut bounds = Bounds {
                    min_x: start.x,
                    min_y: start.y,
                    max_x: start.x,
                    max_y: start.y,
                };
                let ghost all = seq![*start, *mid, *end];
                assert(bounds == Bounds::round_points(all, 1));
                bounds.include_point(*mid);
                assert(bounds == Bounds::round_points(all, 2));
                bounds.include_point(*end);
                assert(bounds == Bounds::round_points(all, 3));
                Some(bounds)
            },
            Primitive::Text(run) => Some(text_bounds(f, run)),
        }
    }
}

/// Two boxes, if there are two, as one.
pub open spec fn merged(a: Option<Bounds>, b: Option<Bounds>) -> Option<Bounds> {
    match (a, b) {
        (Some(a), Some(b)) => Some(a.spec_union(b)),
        (Some(a), None) => Some(a),
        (None, b) => b,
    }
}

pub fn merge(a: Option<Bounds>, b: Option<Bounds>) -> (r: Option<Bounds>)
    requires
        a matches Some(a) ==> a.wf() && crate::plane::close_bounds(a),
        b matches Some(b) ==> b.wf() && crate::plane::close_bounds(b),
    ensures
        r == merged(a, b),
        r matches Some(r) ==> r.wf() && crate::plane::close_bounds(r),
{
    match (a, b) {
        (Some(a), Some(b)) => {
            let mut both = a;
            both.include_bounds(b);
            Some(both)
        },
        (Some(a), None) => Some(a),
        (None, b) => b,
    }
}

/// Text at a pin.
pub open spec fn is_pin_text(shape: Shape) -> bool {
    shape matches Shape::Text(words) && (words.role == ColorRole::PinName || words.role
        == ColorRole::PinNumber)
}

/// The box round the first `n` shapes; with `bare`, without the text at pins.
pub open spec fn box_round<F: Fn(Query) -> Reply>(
    f: F,
    shapes: Seq<Shape>,
    bare: bool,
    n: nat,
) -> Option<Bounds>
    decreases n,
{
    if n == 0 {
        None
    } else {
        merged(
            box_round(f, shapes, bare, (n - 1) as nat),
            if bare && is_pin_text(shapes[n - 1]) {
                None
            } else {
                box_of(f, shapes[n - 1])
            },
        )
    }
}

/// The box round the primitives from `start` on.
pub fn bounds_from<F: Fn(Query) -> Reply + Copy>(
    f: F,
    primitives: &Vec<Primitive>,
    start: usize,
    bare: bool,
) -> (r: Option<Bounds>)
    requires
        crate::plane::is_plane(f),
        all_wf(primitives@),
        start <= primitives@.len(),
    ensures
        ({
            let rest = shapes(primitives@).skip(start as int);
            r == box_round(f, rest, bare, rest.len())
        }),
        r matches Some(b) ==> b.wf() && crate::plane::close_bounds(b),
{
    let ghost rest = shapes(primitives@).skip(start as int);
    let mut r: Option<Bounds> = None;
    let mut i: usize = start;
    while i < primitives.len()
        invariant
            start <= i <= primitives@.len(),
            crate::plane::is_plane(f),
            all_wf(primitives@),
            rest == shapes(primitives@).skip(start as int),
            r == box_round(f, rest, bare, (i - start) as nat),
            r matches Some(b) ==> b.wf() && crate::plane::close_bounds(b),
        decreases primitives@.len() - i,
    {
        assert(rest[i - start] == primitives@[i as int].model());
        assert(primitives@[i as int].wf());
        let left_out: bool = match &primitives[i] {
            Primitive::Text(run) => bare && (run.role == ColorRole::PinName || run.role
                == ColorRole::PinNumber),
            _ => false,
        };
        let one = if left_out {
            None
        } else {
            primitives[i].bounds(f)
        };
        r = merge(r, one);
        i = i + 1;
    }
    r
}

/// A width that is, but for rounding, this one.
pub open spec fn is_about(width: Double, n: int) -> bool {
    width.spec_difference(crate::double::spec_ratio(n, 10000)).spec_abs().spec_less(
        crate::double::spec_ratio(1, 1000000000),
    )
}

fn about(width: Double, n: i64) -> (r: bool)
    requires
        crate::plane::plain(width),
        0 <= n <= 10000,
    ensures
        r == is_about(width, n as int),
{
    width.minus(ratio(n, 10000)).abs().less(ratio(1, 1000000000))
}

/// A line that is taken for a pin.
pub open spec fn is_pin_line(style: StrokeStyle) -> bool {
    style.role == ColorRole::Pin || (style.role == ColorRole::Symbol && is_about(
        style.width_mm,
        1524,
    ))
}

/// The box by which the line of a pin is indexed: longer by a guard at both ends.
pub open spec fn pin_box(from: Point, to: Point) -> Bounds {
    let b = Bounds::round_points(seq![from, to], 2);
    let guard = crate::double::spec_ratio(3811, 10000);
    if !from.x.spec_difference(to.x).spec_abs().spec_less(
        from.y.spec_difference(to.y).spec_abs(),
    ) {
        Bounds {
            min_x: b.min_x.spec_difference(guard),
            max_x: b.max_x.spec_sum(guard),
            ..b
        }
    } else {
        Bounds {
            min_y: b.min_y.spec_difference(guard),
            max_y: b.max_y.spec_sum(guard),
            ..b
        }
    }
}

/// A box moved outwards on every side.
pub open spec fn inflated(b: Bounds, amount: Double) -> Bounds {
    Bounds {
        min_x: b.min_x.spec_difference(amount),
        min_y: b.min_y.spec_difference(amount),
        max_x: b.max_x.spec_sum(amount),
        max_y: b.max_y.spec_sum(amount),
    }
}

/// The box by which a part of a symbol is indexed. Fields and the text at pins are left out.
pub open spec fn part_box<F: Fn(Query) -> Reply>(f: F, shape: Shape) -> Option<Bounds> {
    match shape {
        Shape::Text(words) => if words.role == ColorRole::Text || words.role == ColorRole::PinName
            || words.role == ColorRole::PinNumber {
            None
        } else {
            box_of(f, shape)
        },
        Shape::Line { from, to, style } => if is_pin_line(style) {
            Some(pin_box(from, to))
        } else {
            box_of(f, shape)
        },
        Shape::Rect { bounds, style, .. } => if is_about(style.width_mm, 2540) {
            Some(
                inflated(
                    bounds,
                    style.width_mm.spec_quotient(crate::double::nearest(2, 0)),
                ),
            )
        } else {
            box_of(f, shape)
        },
        _ => box_of(f, shape),
    }
}

fn bounds_of_part<F: Fn(Query) -> Reply + Copy>(f: F, primitive: &Primitive) -> (r: Option<Bounds>)
    requires
        crate::plane::is_plane(f),
        primitive.wf(),
    ensures
        r == part_box(f, primitive.model()),
        r matches Some(b) ==> b.wf() && crate::plane::close_bounds(b),
{
    match primitive {
        Primitive::Text(run) => {
            if run.role == ColorRole::Text || run.role == ColorRole::PinName || run.role
                == ColorRole::PinNumber {
                None
            } else {
                primitive.bounds(f)
            }
        },
        Primitive::Line { from, to, style } => {
            if style.role == ColorRole::Pin || (style.role == ColorRole::Symbol && about(
                style.width_mm,
                1524,
            )) {
                let mut b = bounds_of_line(*from, *to);
                let guard = ratio(3811, 10000);
                if !from.x.minus(to.x).abs().less(from.y.minus(to.y).abs()) {
                    b.min_x = b.min_x.minus(guard);
                    b.max_x = b.max_x.plus(guard);
                } else {
                    b.min_y = b.min_y.minus(guard);
                    b.max_y = b.max_y.plus(guard);
                }
                Some(b)
            } else {
                primitive.bounds(f)
            }
        },
        Primitive::Rect { bounds, style, .. } => {
            if about(style.width_mm, 2540) {
                let mut b = *bounds;
                b.inflate(style.width_mm.divided_by(Double::from_int(2)));
                Some(b)
            } else {
                primitive.bounds(f)
            }
        },
        _ => primitive.bounds(f),
    }
}

/// The box by which the first `n` parts of a symbol are indexed.
pub open spec fn parts_box<F: Fn(Query) -> Reply>(f: F, shapes: Seq<Shape>, n: nat) -> Option<
    Bounds,
>
    decreases n,
{
    if n == 0 {
        None
    } else {
        merged(parts_box(f, shapes, (n - 1) as nat), part_box(f, shapes[n - 1]))
    }
}

/// A box with the boxes of the first `n` fields that are shown.
pub open spec fn with_fields<F: Fn(Query) -> Reply>(
    f: F,
    fields: Seq<crate::sexp::Sexp>,
    n: nat,
    start: Bounds,
) -> Bounds
    decreases n,
{
    if n == 0 {
        start
    } else {
        let before = with_fields(f, fields, (n - 1) as nat, start);
        match crate::text_box::box_for(f, fields[n - 1], crate::text_box::shown(fields[n - 1], 2)) {
            Some(b) => if fields[n - 1].hidden() {
                before
            } else {
                before.spec_union(b)
            },
            None => before,
        }
    }
}

/// The box by which a symbol is indexed: its parts and its fields.
pub open spec fn symbol_box<F: Fn(Query) -> Reply>(
    f: F,
    node: crate::sexp::Sexp,
    shapes: Seq<Shape>,
) -> Option<Bounds> {
    match parts_box(f, shapes, shapes.len()) {
        None => None,
        Some(b) => Some(with_fields(f, node.properties(), node.properties().len(), b)),
    }
}

/// The box by which a symbol is indexed: the primitives from `start` on, and its fields.
pub fn symbol_index_bounds<F: Fn(Query) -> Reply + Copy>(
    f: F,
    node: &Node,
    primitives: &Vec<Primitive>,
    start: usize,
) -> (r: Option<Bounds>)
    requires
        crate::plane::is_plane(f),
        node.wf(),
        all_wf(primitives@),
        start <= primitives@.len(),
    ensures
        r == symbol_box(f, node@, shapes(primitives@).skip(start as int)),
        r matches Some(b) ==> b.wf() && crate::plane::close_bounds(b),
{
    let ghost rest = shapes(primitives@).skip(start as int);
    let mut parts: Option<Bounds> = None;
    let mut i: usize = start;
    while i < primitives.len()
        invariant
            start <= i <= primitives@.len(),
            crate::plane::is_plane(f),
            all_wf(primitives@),
            rest == shapes(primitives@).skip(start as int),
            parts == parts_box(f, rest, (i - start) as nat),
            parts matches Some(b) ==> b.wf() && crate::plane::close_bounds(b),
        decreases primitives@.len() - i,
    {
        assert(rest[i - start] == primitives@[i as int].model());
        assert(primitives@[i as int].wf());
        let one = bounds_of_part(f, &primitives[i]);
        parts = merge(parts, one);
        i = i + 1;
    }
    let mut bounds = match parts {
        Some(bounds) => bounds,
        None => {
            return None;
        },
    };
    let ghost first = bounds;
    let properties = node.find_all("property");
    let ghost all = node@.properties();
    let mut i: usize = 0;
    while i < properties.len()
        invariant
            i <= properties@.len(),
            crate::plane::is_plane(f),
            all == crate::sexp::ref_sexps(properties@),
            forall|i: int| 0 <= i < properties@.len() ==> (#[trigger] properties@[i]).wf(),
            bounds == with_fields(f, all, i as nat, first),
            bounds.wf(),
            crate::plane::close_bounds(bounds),
        decreases properties@.len() - i,
    {
        assert(all[i as int] == properties@[i as int]@);
        let field = kicad_text_box(f, properties[i]);
        if !is_hidden(properties[i]) {
            if let Some(b) = field {
                bounds.include_bounds(b);
            }
        }
        i = i + 1;
    }
    Some(bounds)
}

} // verus!
