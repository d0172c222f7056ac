//! Labels and sheets: text at connections, and the frames of other documents.

use crate::double::ratio;
use crate::double::Double;
use crate::geometry::Bounds;
use crate::geometry::Point;
use crate::kicad_font::boundary_width;
use crate::plane::ask;
use crate::plane::readable_text_rotation;
use crate::plane::rotate_about;
use crate::plane::Query;
use crate::plane::Reply;
use crate::primitives::Primitive;
use crate::primitives::StrokeStyle;
use crate::primitives::TextRun;
use crate::readers::at_point;
use crate::readers::at_rotation;
use crate::readers::child_text;
use crate::readers::is_hidden;
use crate::readers::text_align;
use crate::readers::text_italic;
use crate::readers::text_size;
use crate::readers::TextAlign;
use crate::scene::ColorRole;
use crate::scene::ObjectKind;
use crate::scene_builder::stroke_width;
use crate::scene_builder::SceneBuilder;
use crate::sexp::is_text;
use crate::sexp::Node;
use crate::text::same;
use crate::text_box::half_units;
use crate::text_box::local_label_text_offset;
use crate::text_box::share_of;
use crate::text_box::shown_text;
use crate::text_box::text_stroke_width;
use crate::text_box::to_length;
use crate::text_box::to_units;
use crate::text_box::unit;
use vstd::prelude::*;

verus! {

/// The measures of the frame of a label, in units.
pub ghost struct Frame {
    pub shoulder: int,
    pub half_height: int,
    pub width: int,
}

/// The frame of a label: it leaves a margin round the text, and its point is as long as its
/// shoulder.
#[verifier::opaque]
pub open spec fn frame_of(text: Seq<char>, size: Double) -> Frame {
    let u = crate::text_box::units(size);
    let margin = crate::text_box::share(u, crate::double::spec_ratio(375, 1000));
    let shoulder = crate::kicad_font::half(u) + margin;
    let pen = crate::double::nearest(u, 0).spec_quotient(
        crate::double::nearest(8, 0),
    ).spec_round().spec_to_i64();
    Frame {
        shoulder,
        half_height: shoulder + pen + 3,
        width: crate::text_box::text_units(text, size, pen) + 2 * margin + pen + 3 + shoulder,
    }
}

/// The corners of a label's frame, turned about its connection.
pub open spec fn frame_points<F: Fn(Query) -> Reply>(
    f: F,
    text: Seq<char>,
    size: Double,
    position: Point,
    degrees: Double,
) -> Seq<Point> {
    let frame = frame_of(text, size);
    let zero = Double::spec_zero();
    let shoulder = crate::text_box::length_of(frame.shoulder);
    let up = crate::text_box::length_of(frame.half_height);
    let width = crate::text_box::length_of(frame.width);
    seq![
        crate::plane::rotated(f, Point { x: zero, y: zero }, position, degrees),
        crate::plane::rotated(f, Point { x: shoulder, y: up }, position, degrees),
        crate::plane::rotated(f, Point { x: width, y: up }, position, degrees),
        crate::plane::rotated(f, Point { x: width, y: zero }, position, degrees),
        crate::plane::rotated(f, Point { x: width, y: up.spec_neg() }, position, degrees),
        crate::plane::rotated(f, Point { x: shoulder, y: up.spec_neg() }, position, degrees),
    ]
}

fn draw_frame<F: Fn(Query) -> Reply + Copy>(
    f: F,
    text: &str,
    size: Double,
    position: Point,
    degrees: Double,
) -> (r: Vec<Point>)
    requires
        crate::plane::is_plane(f),
        text@.len() <= u32::MAX,
        size.wf(),
        size.within(2500),
        position.is_read(),
    ensures
        r@ == frame_points(f, text@, size, position, degrees),
        crate::primitives::held_points(r@),
{
    let units: i128 = to_units(size) as i128;
    let margin: i128 = share_of(units, ratio(375, 1000)) as i128;
    let shoulder: i128 = half_units(units) + margin;
    let pen: i64 = Double::from_wide(units).divided_by(Double::from_int(8)).rounded_away().to_i64();
    let half_height: i128 = shoulder + pen as i128 + 3;
    let boundary: i64 = to_units(boundary_width(text, size, to_length(pen as i128), unit()));
    let width: i128 = boundary as i128 + 2 * margin + pen as i128 + 3 + shoulder;
    proof {
        reveal(frame_of);
        assert(frame_of(text@, size) == (Frame {
            shoulder: shoulder as int,
            half_height: half_height as int,
            width: width as int,
        }));
    }
    let zero = crate::kicad_font::zero();
    let shoulder = to_length(shoulder);
    let up = to_length(half_height);
    let down = up.negated();
    let width = to_length(width);
    let mut points: Vec<Point> = Vec::new();
    points.push(rotate_about(f, Point { x: zero, y: zero }, position, degrees));
    points.push(rotate_about(f, Point { x: shoulder, y: up }, position, degrees));
    points.push(rotate_about(f, Point { x: width, y: up }, position, degrees));
    points.push(rotate_about(f, Point { x: width, y: zero }, position, degrees));
    points.push(rotate_about(f, Point { x: width, y: down }, position, degrees));
    points.push(rotate_about(f, Point { x: shoulder, y: down }, position, degrees));
    assert(points@ =~= frame_points(f, text@, size, position, degrees));
    points
}

/// Three quarters of a number of units, rounded towards zero.
pub open spec fn three_quarters(u: int) -> int {
    if u < 0 {
        -((-u * 3) / 4)
    } else {
        (u * 3) / 4
    }
}

/// How far from its connection, and how far to the side, the text of a framed label begins.
#[verifier::opaque]
pub open spec fn framed_offset(node: crate::sexp::Sexp, size: Double) -> (Double, Double) {
    let u = crate::text_box::units(size);
    let shape = node.first_text("shape"@);
    let triangle = if shape == Some("output"@) || shape == Some("passive"@) {
        0
    } else {
        three_quarters(u)
    };
    (
        crate::text_box::length_of(
            crate::text_box::share(u, crate::double::spec_ratio(375, 1000)) + triangle,
        ),
        crate::double::nearest(u, 0).spec_product(
            crate::double::spec_ratio(715, 10000),
        ).spec_trunc().spec_product(crate::text_box::quantum()),
    )
}

fn find_framed_offset(node: &Node, size: Double) -> (r: (Double, Double))
    requires
        node.wf(),
        size.wf(),
        size.within(2500),
    ensures
        r == framed_offset(node@, size),
        r.0.wf(),
        r.0.within(2000),
        r.1.wf(),
        r.1.within(2000),
{
    proof {
        reveal(framed_offset);
    }
    let units: i128 = to_units(size) as i128;
    let margin: i64 = share_of(units, ratio(375, 1000));
    let shape = child_text(node, "shape");
    let triangle: i128 = if is_text(shape, "output") || is_text(shape, "passive") {
        0
    } else if units < 0 {
        -((-units * 3) / 4)
    } else {
        (units * 3) / 4
    };
    let offset = to_length(margin as i128 + triangle);
    let lift = Double::from_wide(units).times(ratio(715, 10000)).truncated().times(unit());
    (offset, lift)
}

/// Where the text of a framed label begins.
pub open spec fn framed_position<F: Fn(Query) -> Reply>(
    f: F,
    node: crate::sexp::Sexp,
    size: Double,
    position: Point,
    degrees: Double,
) -> Point {
    let (offset, lift) = framed_offset(node, size);
    let d = crate::plane::direction(f, degrees);
    Point {
        x: position.x.spec_sum(d.x.spec_product(offset)).spec_sum(d.y.spec_product(lift)),
        y: position.y.spec_sum(d.y.spec_neg().spec_product(offset)).spec_sum(
            d.x.spec_product(lift),
        ),
    }
}

/// A coordinate moved along two ways.
fn moved_along(at: Double, a: Double, offset: Double, b: Double, lift: Double) -> (r: Double)
    requires
        crate::plane::plain(at),
        crate::plane::plain(a),
        crate::plane::plain(b),
        offset.wf() && offset.within(2000),
        lift.wf() && lift.within(2000),
    ensures
        r == at.spec_sum(a.spec_product(offset)).spec_sum(b.spec_product(lift)),
        crate::plane::held(r),
{
    at.plus(a.times(offset)).plus(b.times(lift))
}

fn find_framed_position<F: Fn(Query) -> Reply + Copy>(
    f: F,
    node: &Node,
    size: Double,
    position: Point,
    degrees: Double,
) -> (r: Point)
    requires
        crate::plane::is_plane(f),
        node.wf(),
        size.wf(),
        size.within(2500),
        position.is_read(),
    ensures
        r == framed_position(f, node@, size, position, degrees),
        crate::plane::held_point(r),
{
    let (offset, lift) = find_framed_offset(node, size);
    let d = ask(f, Query::Direction(degrees)).first;
    Point {
        x: moved_along(position.x, d.x, offset, d.y, lift),
        y: moved_along(position.y, d.y.negated(), offset, d.x, lift),
    }
}

/// Where the text of a label without a frame begins.
pub open spec fn bare_position<F: Fn(Query) -> Reply>(
    f: F,
    node: crate::sexp::Sexp,
    size: Double,
    position: Point,
    degrees: Double,
) -> Point {
    crate::plane::rotated(
        f,
        Point {
            x: Double::spec_zero(),
            y: crate::text_box::label_offset(node, size).spec_neg(),
        },
        position,
        crate::plane::readable(degrees),
    )
}

/// The text of a label.
pub open spec fn label_words<F: Fn(Query) -> Reply>(
    f: F,
    node: crate::sexp::Sexp,
    framed: bool,
    position: Point,
) -> crate::primitives::Shape {
    let size = crate::readers::size_of(node, crate::text_box::usual_size());
    let degrees = crate::plane::readable(node.at_rotation()).spec_turned();
    crate::scene_builder::words_at(
        node,
        if framed {
            framed_position(f, node, size, position, degrees)
        } else {
            bare_position(f, node, size, position, degrees)
        },
        crate::plane::readable(degrees),
        size,
        crate::text_box::stroke_of_text(node, size),
        TextAlign::Left,
        if framed {
            ColorRole::Symbol
        } else {
            ColorRole::Label
        },
        crate::text_box::shown(node, 1),
    )
}

fn draw_label_text<F: Fn(Query) -> Reply + Copy>(
    f: F,
    node: &Node,
    framed: bool,
    position: Point,
) -> (r: Primitive)
    requires
        crate::plane::is_plane(f),
        node.wf(),
        position.is_read(),
    ensures
        r.wf(),
        r.model() == label_words(f, node@, framed, position),
{
    let size = text_size(node, ratio(127, 100));
    let degrees = readable_text_rotation(at_rotation(node)).turned();
    let upright = readable_text_rotation(degrees);
    let at = if framed {
        find_framed_position(f, node, size, position, degrees)
    } else {
        let up = local_label_text_offset(node, size).negated();
        rotate_about(f, Point { x: crate::kicad_font::zero(), y: up }, position, upright)
    };
    Primitive::Text(
        TextRun {
            position: at,
            rotation_deg: upright,
            size_mm: size,
            stroke_width_mm: text_stroke_width(node, size),
            align: TextAlign::Left,
            italic: text_italic(node),
            role: if framed {
                ColorRole::Symbol
            } else {
                ColorRole::Label
            },
            text: shown_text(node, 1).to_owned(),
        },
    )
}

impl crate::scene_builder::Picture {
    /// A label, in a frame or without one.
    pub open spec fn label<F: Fn(Query) -> Reply>(
        self,
        f: F,
        node: crate::sexp::Sexp,
        framed: bool,
    ) -> crate::scene_builder::Picture {
        match node.at_point() {
            Some(position) => if node.hidden() {
                self
            } else {
                let text = crate::text_box::shown(node, 1);
                let around = if framed {
                    self.drawn(
                        crate::primitives::Shape::Polyline {
                            points: frame_points(
                                f,
                                text,
                                crate::readers::size_of(node, crate::text_box::usual_size()),
                                position,
                                crate::plane::readable(node.at_rotation()).spec_turned(),
                            ),
                            closed: true,
                            style: crate::scene_builder::style_of(
                                crate::scene_builder::usual_width(),
                                ColorRole::Symbol,
                            ),
                            fill: false,
                        },
                    )
                } else {
                    self
                };
                around.drawn(label_words(f, node, framed, position)).with_object(
                    f,
                    node,
                    ObjectKind::Label,
                    text,
                    self.shapes.len(),
                )
            },
            None => self,
        }
    }
}

impl SceneBuilder {
    /// Draws a label, in a frame or without one.
    pub fn draw_label<F: Fn(Query) -> Reply + Copy>(&mut self, f: F, node: &Node, framed: bool)
        requires
            old(self).wf(),
            crate::plane::is_plane(f),
            node.wf(),
        ensures
            final(self).wf(),
            final(self)@ == old(self)@.label(f, node@, framed),
    {
        if is_hidden(node) {
            return ;
        }
        let position = match at_point(node) {
            Some(position) => position,
            None => {
                return ;
            },
        };
        let text = shown_text(node, 1);
        let start: usize = self.primitives.len();
        if framed {
            let size = text_size(node, ratio(127, 100));
            let degrees = readable_text_rotation(at_rotation(node)).turned();
            let points = draw_frame(f, text, size, position, degrees);
            self.push(
                Primitive::Polyline {
                    points,
                    closed: true,
                    style: StrokeStyle { width_mm: ratio(1524, 10000), role: ColorRole::Symbol },
                    fill: false,
                },
            );
        }
        self.push(draw_label_text(f, node, framed, position));
        self.push_object(f, node, ObjectKind::Label, text, start);
    }
}

/// The text that a field of a sheet shows.
pub open spec fn field_text(name: Seq<char>, value: Seq<char>) -> Seq<char> {
    if name == "Sheetfile"@ {
        "File: "@ + value
    } else {
        value
    }
}

/// Where a field of a sheet is drawn: without a position of their own, the name and the file stand
/// at the origin, and the others nowhere.
pub open spec fn sheet_field_position(field: crate::sexp::Sexp) -> Option<Point> {
    let name = crate::text_box::shown(field, 1);
    match field.at_point() {
        Some(position) => Some(position),
        None => if name == "Sheetname"@ || name == "Sheetfile"@ {
            Some(Point { x: Double::spec_zero(), y: Double::spec_zero() })
        } else {
            None
        },
    }
}

/// What a field of a sheet draws.
pub open spec fn sheet_field(field: crate::sexp::Sexp) -> Seq<crate::primitives::Shape> {
    let name = crate::text_box::shown(field, 1);
    match sheet_field_position(field) {
        Some(position) => if field.hidden() {
            Seq::empty()
        } else {
            seq![
                crate::scene_builder::own_words(
                    field,
                    position,
                    if name == "Sheetfile"@ {
                        ColorRole::SheetFile
                    } else {
                        ColorRole::PinName
                    },
                    field_text(name, crate::text_box::shown(field, 2)),
                ),
            ]
        },
        None => Seq::empty(),
    }
}

/// What the first `n` fields of a sheet draw.
pub open spec fn sheet_fields(fields: Seq<crate::sexp::Sexp>, n: nat) -> Seq<
    crate::primitives::Shape,
>
    decreases n,
{
    if n == 0 {
        Seq::empty()
    } else {
        sheet_fields(fields, (n - 1) as nat) + sheet_field(fields[n - 1])
    }
}

/// The name that the first `n` fields give a sheet.
pub open spec fn sheet_label(fields: Seq<crate::sexp::Sexp>, n: nat) -> Seq<char>
    decreases n,
{
    if n == 0 {
        "sheet"@
    } else if !fields[n - 1].hidden() && crate::text_box::shown(fields[n - 1], 1) == "Sheetname"@ {
        crate::text_box::shown(fields[n - 1], 2)
    } else {
        sheet_label(fields, (n - 1) as nat)
    }
}

/// What a pin of a sheet draws: a stub and its name.
pub open spec fn sheet_pin<F: Fn(Query) -> Reply>(f: F, pin: crate::sexp::Sexp) -> Seq<
    crate::primitives::Shape,
> {
    match pin.at_point() {
        Some(at) => {
            let d = crate::plane::direction(f, pin.at_rotation());
            let two = crate::double::nearest(2, 0);
            let end = Point {
                x: at.x.spec_sum(d.x.spec_product(two)),
                y: at.y.spec_difference(d.y.spec_product(two)),
            };
            seq![
                crate::primitives::Shape::Line {
                    from: at,
                    to: end,
                    style: crate::scene_builder::style_of(
                        crate::double::spec_ratio(254, 1000),
                        ColorRole::Pin,
                    ),
                },
                crate::scene_builder::words_at(
                    pin,
                    end,
                    crate::plane::readable(pin.at_rotation()),
                    crate::readers::size_of(pin, crate::text_box::usual_size()),
                    crate::text_box::stroke_of_text(pin, crate::text_box::usual_size()),
                    TextAlign::Left,
                    ColorRole::Pin,
                    crate::text_box::shown(pin, 1),
                ),
            ]
        },
        None => Seq::empty(),
    }
}

/// What the first `n` pins of a sheet draw.
pub open spec fn sheet_pins<F: Fn(Query) -> Reply>(
    f: F,
    pins: Seq<crate::sexp::Sexp>,
    n: nat,
) -> Seq<crate::primitives::Shape>
    decreases n,
{
    if n == 0 {
        Seq::empty()
    } else {
        sheet_pins(f, pins, (n - 1) as nat) + sheet_pin(f, pins[n - 1])
    }
}

/// The outline of a sheet.
pub open spec fn sheet_outline(node: crate::sexp::Sexp) -> Seq<crate::primitives::Shape> {
    match (node.at_point(), node.first("size"@)) {
        (Some(at), Some(size)) => seq![
            crate::primitives::Shape::Rect {
                bounds: Bounds {
                    min_x: at.x,
                    min_y: at.y,
                    max_x: at.x.spec_sum(crate::connectivity::or_zero(size.part_number(1))),
                    max_y: at.y.spec_sum(crate::connectivity::or_zero(size.part_number(2))),
                },
                style: crate::scene_builder::style_of(
                    crate::scene_builder::stroke_of(node, crate::scene_builder::usual_width()),
                    ColorRole::Symbol,
                ),
                fill: false,
            },
        ],
        _ => Seq::empty(),
    }
}

impl crate::scene_builder::Picture {
    /// A sheet: its outline, its fields and its pins.
    pub open spec fn sheet<F: Fn(Query) -> Reply>(
        self,
        f: F,
        node: crate::sexp::Sexp,
    ) -> crate::scene_builder::Picture {
        let outlined = self.with(sheet_outline(node));
        if node.at_point() is None {
            outlined
        } else {
            let fields = node.properties();
            let pins = node.tagged("pin"@);
            outlined.with(sheet_fields(fields, fields.len())).with(
                sheet_pins(f, pins, pins.len()),
            ).with_object(
                f,
                node,
                ObjectKind::Sheet,
                sheet_label(fields, fields.len()),
                self.shapes.len(),
            )
        }
    }
}

fn or_nothing(n: Option<Double>) -> (r: Double)
    requires
        n matches Some(d) ==> d.wf() && d.within(2000),
    ensures
        r == crate::connectivity::or_zero(n),
        r.wf(),
        r.within(2000),
{
    match n {
        Some(n) => n,
        None => crate::kicad_font::zero(),
    }
}

impl SceneBuilder {
    /// Draws the outline of a sheet.
    pub fn draw_sheet_outline(&mut self, node: &Node)
        requires
            old(self).wf(),
            node.wf(),
        ensures
            final(self).wf(),
            final(self)@ == old(self)@.with(sheet_outline(node@)),
    {
        let ghost before = self@;
        assert(before.with(Seq::empty()) =~= before);
        let at = match at_point(node) {
            Some(at) => at,
            None => {
                return ;
            },
        };
        let size = match node.find("size") {
            Some(size) => size,
            None => {
                return ;
            },
        };
        let width = or_nothing(size.get_number(1));
        let height = or_nothing(size.get_number(2));
        self.push(
            Primitive::Rect {
                bounds: Bounds {
                    min_x: at.x,
                    min_y: at.y,
                    max_x: at.x.plus(width),
                    max_y: at.y.plus(height),
                },
                style: StrokeStyle {
                    width_mm: stroke_width(node, ratio(1524, 10000)),
                    role: ColorRole::Symbol,
                },
                fill: false,
            },
        );
        assert(self@ =~= before.with(sheet_outline(node@)));
    }

    fn draw_sheet_field(&mut self, field: &Node)
        requires
            old(self).wf(),
            field.wf(),
        ensures
            final(self).wf(),
            final(self)@ == old(self)@.with(sheet_field(field@)),
    {
        let ghost before = self@;
        assert(before.with(Seq::empty()) =~= before);
        if is_hidden(field) {
            return ;
        }
        let name = shown_text(field, 1);
        let value = shown_text(field, 2);
        let is_file: bool = same(name, "Sheetfile");
        let position = match at_point(field) {
            Some(position) => position,
            None => {
                if same(name, "Sheetname") || is_file {
                    Point { x: crate::kicad_font::zero(), y: crate::kicad_font::zero() }
                } else {
                    return ;
                }
            },
        };
        let mut text = value.to_owned();
        let mut role = ColorRole::PinName;
        if is_file {
            proof {
                reveal_strlit("File: ");
            }
            text = crate::text::joined("File: ", value);
            role = ColorRole::SheetFile;
        }
        let usual = ratio(127, 100);
        let run = TextRun {
            position,
            rotation_deg: readable_text_rotation(at_rotation(field)),
            size_mm: text_size(field, usual),
            stroke_width_mm: text_stroke_width(field, usual),
            align: text_align(field),
            italic: text_italic(field),
            role,
            text,
        };
        self.push(Primitive::Text(run));
        assert(self@ =~= before.with(sheet_field(field@)));
    }

    fn draw_sheet_pin<F: Fn(Query) -> Reply + Copy>(&mut self, f: F, pin: &Node)
        requires
            old(self).wf(),
            crate::plane::is_plane(f),
            pin.wf(),
        ensures
            final(self).wf(),
            final(self)@ == old(self)@.with(sheet_pin(f, pin@)),
    {
        let ghost before = self@;
        assert(before.with(Seq::empty()) =~= before);
        let at = match at_point(pin) {
            Some(at) => at,
            None => {
                return ;
            },
        };
        let d = ask(f, Query::Direction(at_rotation(pin))).first;
        let two = Double::from_int(2);
        let end = Point { x: at.x.plus(d.x.times(two)), y: at.y.minus(d.y.times(two)) };
        self.push(
            Primitive::Line {
                from: at,
                to: end,
                style: StrokeStyle { width_mm: ratio(254, 1000), role: ColorRole::Pin },
            },
        );
        let usual = ratio(127, 100);
        let run = TextRun {
            position: end,
            rotation_deg: readable_text_rotation(at_rotation(pin)),
            size_mm: text_size(pin, usual),
            stroke_width_mm: text_stroke_width(pin, usual),
            align: TextAlign::Left,
            italic: text_italic(pin),
            role: ColorRole::Pin,
            text: shown_text(pin, 1).to_owned(),
        };
        self.push(Primitive::Text(run));
        assert(self@ =~= before.with(sheet_pin(f, pin@)));
    }

    /// Draws a sheet.
    pub fn draw_sheet<F: Fn(Query) -> Reply + Copy>(&mut self, f: F, node: &Node)
        requires
            old(self).wf(),
            crate::plane::is_plane(f),
            node.wf(),
        ensures
            final(self).wf(),
            final(self)@ == old(self)@.sheet(f, node@),
    {
        let start: usize = self.primitives.len();
        let ghost before = self@;
        self.draw_sheet_outline(node);
        if at_point(node).is_none() {
            return ;
        }
        let ghost outlined = self@;
        let fields = node.find_all("property");
        let ghost all = node@.properties();
        let mut label: &str = "sheet";
        let mut i: usize = 0;
        assert(outlined.with(sheet_fields(all, 0)) =~= outlined);
        while i < fields.len()
            invariant
                i <= fields@.len(),
                self.wf(),
                all == crate::sexp::ref_sexps(fields@),
                forall|i: int| 0 <= i < fields@.len() ==> (#[trigger] fields@[i]).wf(),
                self@ == outlined.with(sheet_fields(all, i as nat)),
                label@ == sheet_label(all, i as nat),
            decreases fields@.len() - i,
        {
            assert(all[i as int] == fields@[i as int]@);
            let ghost so_far = self@;
            if !is_hidden(fields[i]) && same(shown_text(fields[i], 1), "Sheetname") {
                label = shown_text(fields[i], 2);
            }
            self.draw_sheet_field(fields[i]);
            assert(self@ =~= outlined.with(sheet_fields(all, (i + 1) as nat)));
            i = i + 1;
        }
        let ghost with_fields = self@;
        let pins = node.find_all("pin");
        let ghost every = node@.tagged("pin"@);
        let mut i: usize = 0;
        assert(with_fields.with(sheet_pins(f, every, 0)) =~= with_fields);
        while i < pins.len()
            invariant
                i <= pins@.len(),
                self.wf(),
                crate::plane::is_plane(f),
                every == crate::sexp::ref_sexps(pins@),
                forall|i: int| 0 <= i < pins@.len() ==> (#[trigger] pins@[i]).wf(),
                self@ == with_fields.with(sheet_pins(f, every, i as nat)),
            decreases pins@.len() - i,
        {
            assert(every[i as int] == pins@[i as int]@);
            self.draw_sheet_pin(f, pins[i]);
            assert(self@ =~= with_fields.with(sheet_pins(f, every, (i + 1) as nat)));
            i = i + 1;
        }
        self.push_object(f, node, ObjectKind::Sheet, label, start);
    }
}

} // verus!
