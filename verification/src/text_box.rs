//! How much room text takes up, and where it is drawn, in the whole units that KiCad counts in.

use crate::double::ratio;
use crate::double::Double;
use crate::geometry::Bounds;
use crate::geometry::Point;
use crate::kicad_font::boundary_width;
use crate::kicad_font::count_quanta;
use crate::plane::readable_text_rotation;
use crate::plane::rotate_about;
use crate::plane::Query;
use crate::plane::Reply;
use crate::readers::at_point;
use crate::readers::at_rotation;
use crate::readers::child_number;
use crate::readers::find_nested;
use crate::readers::is_hidden;
use crate::readers::text_align;
use crate::readers::text_size;
use crate::readers::TextAlign;
use crate::sexp::Node;
use vstd::prelude::*;

verus! {

/// A ten thousandth of a millimetre: the unit in which KiCad counts.
pub open spec fn quantum() -> Double {
    crate::double::spec_ratio(1, 10000)
}

/// A ten thousandth of a millimetre.
pub fn unit() -> (r: Double)
    ensures
        r == quantum(),
        r.wf(),
        r.within(400),
        r.mantissa != 0,
{
    ratio(1, 10000)
}

/// A height of text where the file gives none: 1.27 mm.
pub open spec fn usual_size() -> Double {
    crate::double::spec_ratio(127, 100)
}

/// The number of units in a length.
#[verifier::opaque]
pub open spec fn units(length: Double) -> int {
    crate::kicad_font::in_quanta(length, quantum())
}

/// The length of so many units.
#[verifier::opaque]
pub open spec fn length_of(n: int) -> Double {
    crate::double::nearest(n, 0).spec_product(quantum())
}

/// A whole number times a fraction, rounded to a whole number.
#[verifier::opaque]
pub open spec fn share(n: int, f: Double) -> int {
    crate::double::nearest(n, 0).spec_product(f).spec_round().spec_to_i64()
}

/// A whole number times a fraction, without what is behind the point.
#[verifier::opaque]
pub open spec fn whole_share(n: int, f: Double) -> int {
    f.spec_product(crate::double::nearest(n, 0)).spec_to_i64()
}

pub fn to_units(length: Double) -> (r: i64)
    requires
        length.wf(),
        length.within(crate::geometry::SPAN as int),
    ensures
        r == units(length),
{
    proof {
        reveal(units);
    }
    count_quanta(length, unit())
}

pub fn to_length(n: i128) -> (r: Double)
    requires
        -0x1_0000_0000_0000_0000_0000_0000 <= n <= 0x1_0000_0000_0000_0000_0000_0000,
    ensures
        r == length_of(n as int),
        r.wf(),
        r.within(600),
{
    proof {
        reveal(length_of);
    }
    Double::from_wide(n).times(unit())
}

/// A whole number times a fraction, rounded to a whole number.
pub fn share_of(n: i128, f: Double) -> (r: i64)
    requires
        -0x1_0000_0000_0000_0000_0000_0000 <= n <= 0x1_0000_0000_0000_0000_0000_0000,
        f.wf(),
        f.within(1000),
    ensures
        r == share(n as int, f),
{
    proof {
        reveal(share);
    }
    Double::from_wide(n).times(f).rounded_away().to_i64()
}

/// A whole number times a fraction, without what is behind the point.
pub fn whole_share_of(n: i128, f: Double) -> (r: i64)
    requires
        -0x1_0000_0000_0000_0000_0000_0000 <= n <= 0x1_0000_0000_0000_0000_0000_0000,
        f.wf(),
        f.within(1000),
    ensures
        r == whole_share(n as int, f),
{
    proof {
        reveal(whole_share);
    }
    f.times(Double::from_wide(n)).to_i64()
}

/// Half of a number of units, rounded towards zero.
pub fn half_units(v: i128) -> (r: i128)
    requires
        v > i128::MIN,
    ensures
        r == crate::kicad_font::half(v as int),
{
    if v < 0 {
        -((-v) / 2)
    } else {
        v / 2
    }
}

/// A width above zero, where one is given.
pub open spec fn positive(width: Option<Double>) -> Option<Double> {
    match width {
        Some(w) => if Double::spec_zero().spec_less(w) {
            Some(w)
        } else {
            None
        },
        None => None,
    }
}

pub fn if_positive(width: Option<Double>) -> (r: Option<Double>)
    requires
        width matches Some(w) ==> w.wf(),
    ensures
        r == positive(width),
{
    match width {
        Some(w) => if crate::kicad_font::zero().less(w) {
            Some(w)
        } else {
            None
        },
        None => None,
    }
}

/// The width of the pen for text: what the file says, a fifth of the height for bold text, or
/// `thin`; a quarter of the height at most.
#[verifier::opaque]
pub open spec fn pen_of(node: crate::sexp::Sexp, size: Double, thin: Double) -> Double {
    let font = node.nested("effects"@, "font"@);
    let explicit = positive(
        match font {
            Some(font) => font.first_number("thickness"@),
            None => None,
        },
    );
    let width = match explicit {
        Some(width) => width,
        None => if font matches Some(font) && font.first("bold"@) is Some {
            size.spec_quotient(crate::double::nearest(5, 0))
        } else {
            thin
        },
    };
    crate::geometry::spec_lesser(width, size.spec_product(crate::double::spec_ratio(1, 4)))
}

fn pen_width(node: &Node, size: Double, thin: Double) -> (r: Double)
    requires
        node.wf(),
        size.wf(),
        size.within(2500),
        thin.wf(),
        thin.within(2800),
    ensures
        r == pen_of(node@, size, thin),
        r.wf(),
        r.within(3000),
{
    proof {
        reveal(pen_of);
    }
    let font = find_nested(node, "effects", "font");
    let mut explicit: Option<Double> = None;
    let mut bold: bool = false;
    if let Some(font) = font {
        explicit = if_positive(child_number(font, "thickness"));
        bold = font.find("bold").is_some();
    }
    let width = match explicit {
        Some(width) => width,
        None => if bold {
            size.divided_by(Double::from_int(5))
        } else {
            thin
        },
    };
    crate::geometry::lesser(width, size.times(ratio(1, 4)))
}

/// The width of the strokes of text.
pub open spec fn stroke_of_text(node: crate::sexp::Sexp, size: Double) -> Double {
    pen_of(node, size, crate::double::spec_ratio(1524, 10000))
}

/// The width of the strokes of text.
pub fn text_stroke_width(node: &Node, size: Double) -> (r: Double)
    requires
        node.wf(),
        size.wf(),
        size.within(2500),
    ensures
        r == stroke_of_text(node@, size),
        r.wf(),
        r.within(3000),
{
    pen_width(node, size, ratio(1524, 10000))
}

/// The width of the pen by which text is laid out.
pub open spec fn anchor_pen(node: crate::sexp::Sexp, size: Double) -> Double {
    pen_of(node, size, size.spec_quotient(crate::double::nearest(8, 0)))
}

/// The width of the pen by which text is laid out.
pub fn text_anchor_pen_width(node: &Node, size: Double) -> (r: Double)
    requires
        node.wf(),
        size.wf(),
        size.within(2500),
    ensures
        r == anchor_pen(node@, size),
        r.wf(),
        r.within(3000),
{
    pen_width(node, size, size.divided_by(Double::from_int(8)))
}

/// How far above its connection the text of a local label is drawn.
pub open spec fn label_offset(node: crate::sexp::Sexp, size: Double) -> Double {
    let height = whole_share(units(size), crate::double::spec_ratio(117, 100));
    length_of(
        whole_round(units(size), crate::double::spec_ratio(15, 100)) + units(
            anchor_pen(node, size),
        ) + (height - crate::kicad_font::half(height)),
    )
}

/// A fraction times a whole number, rounded to a whole number.
#[verifier::opaque]
pub open spec fn whole_round(n: int, f: Double) -> int {
    f.spec_product(crate::double::nearest(n, 0)).spec_round().spec_to_i64()
}

/// How far above its connection the text of a local label is drawn.
pub fn local_label_text_offset(node: &Node, size: Double) -> (r: Double)
    requires
        node.wf(),
        size.wf(),
        size.within(2500),
    ensures
        r == label_offset(node@, size),
        r.wf(),
        r.within(600),
{
    proof {
        reveal(whole_round);
    }
    let size_units: i64 = to_units(size);
    let offset: i64 = ratio(15, 100).times(Double::from_wide(size_units as i128)).rounded_away().to_i64();
    let pen: i64 = to_units(text_anchor_pen_width(node, size));
    let height: i64 = whole_share_of(size_units as i128, ratio(117, 100));
    let justification: i128 = height as i128 - half_units(height as i128);
    to_length(offset as i128 + pen as i128 + justification)
}

/// How far from its pin the number of a pin is drawn.
pub open spec fn pin_number_offset(size: Double) -> Double {
    let height = whole_share(units(size), crate::double::spec_ratio(117, 100));
    length_of(3556 + (height - crate::kicad_font::half(height)))
}

/// How far from its pin the number of a pin is drawn.
pub fn pin_number_text_offset(size: Double) -> (r: Double)
    requires
        size.wf(),
        size.within(2500),
    ensures
        r == pin_number_offset(size),
        r.wf(),
        r.within(600),
{
    let height: i64 = whole_share_of(to_units(size) as i128, ratio(117, 100));
    let justification: i128 = height as i128 - half_units(height as i128);
    to_length(1016 + 1016 + 1524 + justification)
}

/// The box with these sides, in units, about a position, turned by an angle.
#[verifier::opaque]
pub open spec fn turned_box<F: Fn(Query) -> Reply>(
    f: F,
    left: Double,
    top: Double,
    right: Double,
    bottom: Double,
    position: Point,
    degrees: Double,
) -> Bounds {
    Bounds::round_points(
        seq![
            crate::plane::rotated(f, Point { x: left, y: top }, position, degrees),
            crate::plane::rotated(f, Point { x: right, y: top }, position, degrees),
            crate::plane::rotated(f, Point { x: right, y: bottom }, position, degrees),
            crate::plane::rotated(f, Point { x: left, y: bottom }, position, degrees),
        ],
        4,
    )
}

pub fn turn_box<F: Fn(Query) -> Reply + Copy>(
    f: F,
    left: Double,
    top: Double,
    right: Double,
    bottom: Double,
    position: Point,
    degrees: Double,
) -> (r: Bounds)
    requires
        crate::plane::is_plane(f),
        crate::plane::held(left),
        crate::plane::held(top),
        crate::plane::held(right),
        crate::plane::held(bottom),
        crate::plane::held_point(position),
    ensures
        r == turned_box(f, left, top, right, bottom, position, degrees),
        r.wf(),
        crate::plane::close_bounds(r),
{
    proof {
        reveal(turned_box);
    }
    let a = rotate_about(f, Point { x: left, y: top }, position, degrees);
    let b = rotate_about(f, Point { x: right, y: top }, position, degrees);
    let c = rotate_about(f, Point { x: right, y: bottom }, position, degrees);
    let d = rotate_about(f, Point { x: left, y: bottom }, position, degrees);
    crate::plane::box_round_four(a, b, c, d)
}

/// The length in units of a text drawn with a pen of `pen` units.
pub open spec fn text_units(text: Seq<char>, size: Double, pen: int) -> int {
    units(crate::kicad_font::boundary_of(text, size, length_of(pen), quantum()))
}

fn to_text_units(text: &str, size: Double, pen: i64) -> (r: i64)
    requires
        text@.len() <= u32::MAX,
        size.wf(),
        size.within(2500),
    ensures
        r == text_units(text@, size, pen as int),
{
    to_units(boundary_width(text, size, to_length(pen as i128), unit()))
}

/// The box of a text that an item shows: its height is that of the text with one and a half pens
/// above and below, and a sixth more for what reaches below the line.
pub open spec fn box_for<F: Fn(Query) -> Reply>(
    f: F,
    node: crate::sexp::Sexp,
    text: Seq<char>,
) -> Option<Bounds> {
    match node.at_point() {
        None => None,
        Some(position) => {
            let size = crate::readers::size_of(node, usual_size());
            let pen = units(anchor_pen(node, size));
            let width = text_units(text, size, pen);
            let extent = units(size) + 2 * share(pen, crate::double::spec_ratio(3, 2));
            let height = extent + share(extent, crate::double::spec_ratio(17, 100));
            let left = match crate::readers::align_of(node) {
                TextAlign::Left => 0,
                TextAlign::Center => -crate::kicad_font::half(width),
                TextAlign::Right => -width,
            };
            let top = -crate::kicad_font::half(height);
            Some(
                turned_box(
                    f,
                    length_of(left),
                    length_of(top),
                    length_of(left + width),
                    length_of(top + height),
                    position,
                    crate::plane::readable(node.at_rotation()),
                ),
            )
        },
    }
}

/// The box of a text that an item shows.
pub fn kicad_text_box_for<F: Fn(Query) -> Reply + Copy>(f: F, node: &Node, text: &str) -> (r: Option<
    Bounds,
>)
    requires
        crate::plane::is_plane(f),
        node.wf(),
        text@.len() <= u32::MAX,
    ensures
        r == box_for(f, node@, text@),
        r matches Some(b) ==> b.wf() && crate::plane::close_bounds(b),
{
    let position = match at_point(node) {
        Some(position) => position,
        None => {
            return None;
        },
    };
    let size = text_size(node, ratio(127, 100));
    let pen: i64 = to_units(text_anchor_pen_width(node, size));
    let width: i128 = to_text_units(text, size, pen) as i128;
    let extent: i128 = to_units(size) as i128 + 2 * share_of(pen as i128, ratio(3, 2)) as i128;
    let height: i128 = extent + share_of(extent, ratio(17, 100)) as i128;
    let left: i128 = match text_align(node) {
        TextAlign::Left => 0,
        TextAlign::Center => -half_units(width),
        TextAlign::Right => -width,
    };
    let top: i128 = -half_units(height);
    let rotation = readable_text_rotation(at_rotation(node));
    Some(
        turn_box(
            f,
            to_length(left),
            to_length(top),
            to_length(left + width),
            to_length(top + height),
            position,
            rotation,
        ),
    )
}

/// The text that a property shows.
pub open spec fn shown(node: crate::sexp::Sexp, i: int) -> Seq<char> {
    match node.part_text(i) {
        Some(text) => text,
        None => ""@,
    }
}

pub fn shown_text(node: &Node, i: usize) -> (r: &str)
    requires
        node.wf(),
    ensures
        r@ == shown(node@, i as int),
        r@.len() <= u32::MAX,
{
    match node.get_str(i) {
        Some(text) => text,
        None => {
            proof {
                reveal_strlit("");
            }
            ""
        },
    }
}

/// The box of a property.
pub fn kicad_text_box<F: Fn(Query) -> Reply + Copy>(f: F, node: &Node) -> (r: Option<Bounds>)
    requires
        crate::plane::is_plane(f),
        node.wf(),
    ensures
        r == box_for(f, node@, shown(node@, 2)),
        r matches Some(b) ==> b.wf() && crate::plane::close_bounds(b),
{
    kicad_text_box_for(f, node, shown_text(node, 2))
}

/// Where a field of a symbol is drawn: the middle of its box, in whole units.
pub open spec fn field_position<F: Fn(Query) -> Reply>(f: F, node: crate::sexp::Sexp) -> Option<
    Point,
> {
    match box_for(f, node, shown(node, 2)) {
        None => None,
        Some(b) => Some(
            Point {
                x: length_of(crate::kicad_font::half(units(b.min_x) + units(b.max_x))),
                y: length_of(crate::kicad_font::half(units(b.min_y) + units(b.max_y))),
            },
        ),
    }
}

/// Where a field of a symbol is drawn.
pub fn symbol_field_plot_position<F: Fn(Query) -> Reply + Copy>(f: F, node: &Node) -> (r: Option<
    Point,
>)
    requires
        crate::plane::is_plane(f),
        node.wf(),
    ensures
        r == field_position(f, node@),
        r matches Some(p) ==> crate::plane::plain_point(p),
{
    match kicad_text_box(f, node) {
        None => None,
        Some(b) => {
            let x: i128 = to_units(b.min_x) as i128 + to_units(b.max_x) as i128;
            let y: i128 = to_units(b.min_y) as i128 + to_units(b.max_y) as i128;
            Some(Point { x: to_length(half_units(x)), y: to_length(half_units(y)) })
        },
    }
}

/// The box by which a local label is indexed.
pub open spec fn label_box<F: Fn(Query) -> Reply>(f: F, node: crate::sexp::Sexp) -> Option<Bounds> {
    match node.at_point() {
        None => None,
        Some(position) => {
            let size = crate::readers::size_of(node, usual_size());
            let pen = units(anchor_pen(node, size));
            let width = text_units(shown(node, 1), size, pen);
            let extent = units(size) + 2 * share(pen, crate::double::spec_ratio(3, 2));
            let fudge = share(extent, crate::double::spec_ratio(17, 100));
            let offset = share(units(size), crate::double::spec_ratio(15, 100));
            Some(
                turned_box(
                    f,
                    length_of(-(2 * pen)),
                    length_of(-(extent + fudge) + fudge - offset - 2 * pen),
                    length_of(width + 2 * pen),
                    length_of(fudge - offset + 2 * pen),
                    position,
                    crate::plane::readable(node.at_rotation()),
                ),
            )
        },
    }
}

/// The box by which a local label is indexed.
pub fn local_label_index_bounds<F: Fn(Query) -> Reply + Copy>(f: F, node: &Node) -> (r: Option<
    Bounds,
>)
    requires
        crate::plane::is_plane(f),
        node.wf(),
    ensures
        r == label_box(f, node@),
        r matches Some(b) ==> b.wf() && crate::plane::close_bounds(b),
{
    let position = match at_point(node) {
        Some(position) => position,
        None => {
            return None;
        },
    };
    let size = text_size(node, ratio(127, 100));
    let size_units: i128 = to_units(size) as i128;
    let pen: i64 = to_units(text_anchor_pen_width(node, size));
    let width: i128 = to_text_units(shown_text(node, 1), size, pen) as i128;
    let pen: i128 = pen as i128;
    let extent: i128 = size_units + 2 * share_of(pen, ratio(3, 2)) as i128;
    let fudge: i128 = share_of(extent, ratio(17, 100)) as i128;
    let height: i128 = extent + fudge;
    let offset: i128 = share_of(size_units, ratio(15, 100)) as i128;
    let rotation = readable_text_rotation(at_rotation(node));
    Some(
        turn_box(
            f,
            to_length(-(2 * pen)),
            to_length(-height + fudge - offset - 2 * pen),
            to_length(width + 2 * pen),
            to_length(fudge - offset + 2 * pen),
            position,
            rotation,
        ),
    )
}

/// The box of a field of a symbol before the symbol is refreshed.
pub open spec fn first_field_box<F: Fn(Query) -> Reply>(f: F, node: crate::sexp::Sexp) -> Option<
    Bounds,
> {
    match node.at_point() {
        None => None,
        Some(position) => {
            let size = crate::readers::size_of(node, usual_size());
            let pen = units(anchor_pen(node, size));
            let width = crate::kicad_font::boundary_of(
                shown(node, 2),
                size,
                length_of(pen),
                quantum(),
            );
            let left = match crate::readers::align_of(node) {
                TextAlign::Left => Double::spec_zero(),
                TextAlign::Center => width.spec_neg().spec_quotient(
                    crate::double::nearest(2, 0),
                ),
                TextAlign::Right => width.spec_neg(),
            };
            Some(
                turned_box(
                    f,
                    left,
                    size.spec_neg(),
                    left.spec_sum(width),
                    size,
                    position,
                    crate::plane::readable(node.at_rotation()),
                ),
            )
        },
    }
}

/// The box of a field of a symbol before the symbol is refreshed.
pub fn initial_symbol_field_bounds<F: Fn(Query) -> Reply + Copy>(f: F, node: &Node) -> (r: Option<
    Bounds,
>)
    requires
        crate::plane::is_plane(f),
        node.wf(),
    ensures
        r == first_field_box(f, node@),
        r matches Some(b) ==> b.wf() && crate::plane::close_bounds(b),
{
    let position = match at_point(node) {
        Some(position) => position,
        None => {
            return None;
        },
    };
    let text = shown_text(node, 2);
    let size = text_size(node, ratio(127, 100));
    let pen: i64 = to_units(text_anchor_pen_width(node, size));
    let width = boundary_width(text, size, to_length(pen as i128), unit());
    let left = match text_align(node) {
        TextAlign::Left => crate::kicad_font::zero(),
        TextAlign::Center => width.negated().divided_by(Double::from_int(2)),
        TextAlign::Right => width.negated(),
    };
    let right = left.plus(width);
    let rotation = readable_text_rotation(at_rotation(node));
    Some(turn_box(f, left, size.negated(), right, size, position, rotation))
}

/// The box with the first `n` of a symbol's fields that are shown.
pub open spec fn with_first_fields<F: Fn(Query) -> Reply>(
    f: F,
    fields: Seq<crate::sexp::Sexp>,
    n: nat,
    start: Bounds,
) -> Bounds
    decreases n,
{
    if n == 0 {
        start
    } else {
        let before = with_first_fields(f, fields, (n - 1) as nat, start);
        match first_field_box(f, fields[n - 1]) {
            Some(b) => if fields[n - 1].hidden() {
                before
            } else {
                before.spec_union(b)
            },
            None => before,
        }
    }
}

/// The box by which a symbol enters the index: two hundred mils to every side of its position,
/// and its fields.
pub open spec fn first_symbol_box<F: Fn(Query) -> Reply>(f: F, node: crate::sexp::Sexp) -> Option<
    Bounds,
> {
    match node.at_point() {
        None => None,
        Some(origin) => {
            let reach = crate::double::spec_ratio(508, 100);
            Some(
                with_first_fields(
                    f,
                    node.properties(),
                    node.properties().len(),
                    Bounds {
                        min_x: origin.x.spec_difference(reach),
                        min_y: origin.y.spec_difference(reach),
                        max_x: origin.x.spec_sum(reach),
                        max_y: origin.y.spec_sum(reach),
                    },
                ),
            )
        },
    }
}

/// The box by which a symbol enters the index.
pub fn symbol_initial_index_bounds<F: Fn(Query) -> Reply + Copy>(f: F, node: &Node) -> (r: Option<
    Bounds,
>)
    requires
        crate::plane::is_plane(f),
        node.wf(),
    ensures
        r == first_symbol_box(f, node@),
        r matches Some(b) ==> b.wf() && crate::plane::close_bounds(b),
{
    let origin = match at_point(node) {
        Some(origin) => origin,
        None => {
            return None;
        },
    };
    let reach = ratio(508, 100);
    let mut bounds = Bounds {
        min_x: origin.x.minus(reach),
        min_y: origin.y.minus(reach),
        max_x: origin.x.plus(reach),
        max_y: origin.y.plus(reach),
    };
    let ghost start = bounds;
    let properties = node.find_all("property");
    let ghost all = node@.properties();
    let mut i: usize = 0;
    while i < properties.len()
        invariant
            i <= properties@.len(),
            crate::plane::is_plane(f),
            all == crate::sexp::ref_sexps(properties@),
            forall|i: int| 0 <= i < properties@.len() ==> (#[trigger] properties@[i]).wf(),
            bounds == with_first_fields(f, all, i as nat, start),
            bounds.wf(),
            crate::plane::close_bounds(bounds),
        decreases properties@.len() - i,
    {
        assert(all[i as int] == properties@[i as int]@);
        let field = initial_symbol_field_bounds(f, properties[i]);
        if !is_hidden(properties[i]) {
            if let Some(b) = field {
                bounds.include_bounds(b);
            }
        }
        i = i + 1;
    }
    Some(bounds)
}

} // verus!
